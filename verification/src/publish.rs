//! Publishing: which connections a message on a topic is delivered to.
use vstd::prelude::*;

use crate::filter;
use crate::filter::FilteredSubscriptionManager;
use crate::index;
use crate::subscription::SubscriptionManager;

verus! {

/// One notification to send for a published message.
#[derive(Debug, Clone, PartialEq, Eq)]
pub struct Delivery {
    /// The connection to notify
    pub connection_id: u64,
    /// The notification's method: the topic for an exact subscriber, the
    /// subscribed pattern for a pattern subscriber
    pub method: String,
    /// Whether the data is sent wrapped with the topic (`{"topic", "data"}`),
    /// as pattern subscribers get it
    pub with_topic: bool,
}

/// The view of a delivery: connection, method, wrapping.
pub open spec fn delivery_view(d: Delivery) -> (u64, Seq<char>, bool) {
    (d.connection_id, d.method@, d.with_topic)
}

/// The deliveries of a message on `topic`: first each exact subscriber of
/// the topic (the topic as method, data as is), then each matching pattern
/// subscription (its pattern as method, data wrapped with the topic).
pub open spec fn publish_plan(exact: Seq<u64>, pattern_pairs: Seq<(u64, Seq<char>)>, topic: Seq<char>) -> Seq<
    (u64, Seq<char>, bool),
> {
    exact.map_values(|c: u64| (c, topic, false)) + pattern_pairs.map_values(
        |p: (u64, Seq<char>)| (p.0, p.1, true),
    )
}

/// Plans the deliveries of a message published on `topic`.
pub fn plan_publish(
    topic: &str,
    exact: &SubscriptionManager,
    patterns: &FilteredSubscriptionManager,
) -> (r: Vec<Delivery>)
    requires
        exact.wf(),
        patterns.wf(),
    ensures
        r@.map_values(|d: Delivery| delivery_view(d)) == publish_plan(
            index::ix_get(exact.topics_view(), topic@),
            filter::subscribers_with_patterns(patterns@, topic@),
            topic@,
        ),
{
    let subscribers = exact.get_subscribers(topic);
    let pairs = patterns.get_subscribers_with_patterns(topic);
    let ghost ev = subscribers@;
    let ghost pv = filter::pairs_view(pairs@);
    let mut r: Vec<Delivery> = Vec::new();
    let mut i: usize = 0;
    while i < subscribers.len()
        invariant
            i <= subscribers.len(),
            ev == subscribers@,
            r@.map_values(|d: Delivery| delivery_view(d)) == ev.take(i as int).map_values(
                |c: u64| (c, topic@, false),
            ),
        decreases subscribers.len() - i,
    {
        let ghost before = r@;
        r.push(Delivery { connection_id: subscribers[i], method: topic.to_owned(), with_topic: false });
        assert(r@.map_values(|d: Delivery| delivery_view(d)) =~= before.map_values(
            |d: Delivery| delivery_view(d),
        ).push((ev[i as int], topic@, false)));
        assert(ev.take(i + 1).map_values(|c: u64| (c, topic@, false)) =~= ev.take(i as int).map_values(
            |c: u64| (c, topic@, false),
        ).push((ev[i as int], topic@, false)));
        i = i + 1;
    }
    assert(ev.take(ev.len() as int) =~= ev);
    let ghost first = r@.map_values(|d: Delivery| delivery_view(d));
    let mut j: usize = 0;
    while j < pairs.len()
        invariant
            j <= pairs.len(),
            pv == filter::pairs_view(pairs@),
            r@.map_values(|d: Delivery| delivery_view(d)) == first + pv.take(j as int).map_values(
                |p: (u64, Seq<char>)| (p.0, p.1, true),
            ),
        decreases pairs.len() - j,
    {
        let ghost before = r@;
        let (c, ref m) = pairs[j];
        r.push(Delivery { connection_id: c, method: m.clone(), with_topic: true });
        assert(pv[j as int] == (pairs@[j as int].0, pairs@[j as int].1@));
        assert(r@.map_values(|d: Delivery| delivery_view(d)) =~= before.map_values(
            |d: Delivery| delivery_view(d),
        ).push((pv[j as int].0, pv[j as int].1, true)));
        assert(pv.take(j + 1).map_values(|p: (u64, Seq<char>)| (p.0, p.1, true)) =~= pv.take(
            j as int,
        ).map_values(|p: (u64, Seq<char>)| (p.0, p.1, true)).push((pv[j as int].0, pv[j as int].1, true)));
        j = j + 1;
    }
    assert(pv.take(pv.len() as int) =~= pv);
    r
}

/// A message on `topic` reaches each exact subscriber of the topic once and
/// no other connection by way of an exact subscription: the undecorated
/// deliveries name exactly the subscribers, without repeats.
pub proof fn lemma_exact_deliveries(
    ts: crate::subscription::TopicIndex,
    pattern_pairs: Seq<(u64, Seq<char>)>,
    topic: Seq<char>,
    c: u64,
)
    requires
        index::ix_ok(ts),
    ensures
        publish_plan(index::ix_get(ts, topic), pattern_pairs, topic).contains((c, topic, false))
            <==> index::ix_get(ts, topic).contains(c),
        index::ix_get(ts, topic).no_duplicates(),
{
    let subs = index::ix_get(ts, topic);
    let plan = publish_plan(subs, pattern_pairs, topic);
    let exact = subs.map_values(|x: u64| (x, topic, false));
    let wrapped = pattern_pairs.map_values(|p: (u64, Seq<char>)| (p.0, p.1, true));
    index::lemma_ix_get_found(ts, topic);
    if let Some(i) = index::ix_pos(ts, topic) {
        assert(ts[i].1.no_duplicates());
    }
    if plan.contains((c, topic, false)) {
        let k = choose|k: int| 0 <= k < plan.len() && plan[k] == (c, topic, false);
        if k < exact.len() {
            assert(exact[k] == (subs[k], topic, false));
            assert(subs[k] == c);
        } else {
            assert(plan[k] == wrapped[k - exact.len()]);
        }
    }
    if subs.contains(c) {
        let k = choose|k: int| 0 <= k < subs.len() && subs[k] == c;
        assert(plan[k] == exact[k]);
    }
}

/// The connections that received a notification: those of the deliveries
/// whose send succeeded (`sent[i]` for delivery `i`).
pub open spec fn notified(deliveries: Seq<Delivery>, sent: Seq<bool>) -> Set<u64> {
    Set::new(
        |c: u64|
            exists|i: int|
                0 <= i < deliveries.len() && i < sent.len() && #[trigger] sent[i]
                    && deliveries[i].connection_id == c,
    )
}

/// Whether `ids` holds `c`.
fn ids_contain(ids: &Vec<u64>, c: u64) -> (r: bool)
    ensures
        r == ids@.contains(c),
{
    let mut i: usize = 0;
    while i < ids.len()
        invariant
            i <= ids.len(),
            forall|j: int| 0 <= j < i ==> ids@[j] != c,
        decreases ids.len() - i,
    {
        if ids[i] == c {
            return true;
        }
        i = i + 1;
    }
    false
}

/// The number of connections a publish notified: the connections with at
/// least one successful send among the deliveries, each counted once
/// however many of its subscriptions matched.
pub fn count_notified(deliveries: &Vec<Delivery>, sent: &Vec<bool>) -> (n: usize)
    requires
        deliveries.len() == sent.len(),
    ensures
        notified(deliveries@, sent@).finite(),
        n == notified(deliveries@, sent@).len(),
{
    let mut seen: Vec<u64> = Vec::new();
    let mut i: usize = 0;
    while i < sent.len()
        invariant
            i <= sent.len(),
            deliveries.len() == sent.len(),
            seen@.no_duplicates(),
            forall|c: u64|
                seen@.contains(c) <==> exists|j: int|
                    0 <= j < i && #[trigger] sent@[j] && deliveries@[j].connection_id == c,
        decreases sent.len() - i,
    {
        if sent[i] {
            let c = deliveries[i].connection_id;
            if !ids_contain(&seen, c) {
                let ghost before = seen@;
                seen.push(c);
                proof {
                    assert forall|a: int, b: int| 0 <= a < b < seen@.len() implies seen@[a]
                        != seen@[b] by {
                        if b == seen@.len() - 1 {
                            assert(before.contains(seen@[a]));
                        }
                    }
                    assert forall|x: u64| seen@.contains(x) <==> exists|j: int|
                        0 <= j < i + 1 && #[trigger] sent@[j] && deliveries@[j].connection_id == x by {
                        if seen@.contains(x) && x != c {
                            let k = choose|k: int| 0 <= k < seen@.len() && seen@[k] == x;
                            assert(before[k] == x);
                            assert(before.contains(x));
                        }
                        if x == c {
                            assert(seen@[seen@.len() - 1] == c);
                        }
                        if !seen@.contains(x) {
                            assert(!before.contains(x)) by {
                                if before.contains(x) {
                                    let k = choose|k: int| 0 <= k < before.len() && before[k] == x;
                                    assert(seen@[k] == x);
                                }
                            }
                        }
                    }
                }
            } else {
                proof {
                    assert forall|x: u64| seen@.contains(x) <==> exists|j: int|
                        0 <= j < i + 1 && #[trigger] sent@[j] && deliveries@[j].connection_id == x by {
                        if x == c {
                            assert(sent@[i as int] && deliveries@[i as int].connection_id == x);
                        }
                    }
                }
            }
        } else {
            proof {
                assert forall|x: u64| seen@.contains(x) <==> exists|j: int|
                    0 <= j < i + 1 && #[trigger] sent@[j] && deliveries@[j].connection_id == x by {
                    if exists|j: int|
                        0 <= j < i + 1 && #[trigger] sent@[j] && deliveries@[j].connection_id == x {
                        let j = choose|j: int|
                            0 <= j < i + 1 && #[trigger] sent@[j] && deliveries@[j].connection_id == x;
                        assert(j != i);
                    }
                }
            }
        }
        i = i + 1;
    }
    proof {
        assert(seen@.to_set() =~= notified(deliveries@, sent@)) by {
            assert forall|x: u64| seen@.to_set().contains(x) <==> notified(
                deliveries@,
                sent@,
            ).contains(x) by {
                if notified(deliveries@, sent@).contains(x) {
                    let j = choose|j: int|
                        0 <= j < deliveries@.len() && j < sent@.len() && #[trigger] sent@[j]
                            && deliveries@[j].connection_id == x;
                    assert(seen@.contains(x));
                }
            }
        }
        seen@.unique_seq_to_set();
        vstd::seq_lib::seq_to_set_is_finite(seen@);
    }
    seen.len()
}

} // verus!
