//! Exact-topic subscriptions.
//!
//! The manager keeps two indexes of one relation between topics and
//! connections: the subscribers of each topic, and the topics of each
//! connection. Every operation keeps them in agreement.
use vstd::prelude::*;

use crate::index;
use crate::index::{ix_get, ix_ok, without};
use crate::text::str_eq;

verus! {

/// The subscribers of each topic.
pub type TopicIndex = Seq<(Seq<char>, Seq<u64>)>;

/// The topics of each connection.
pub type ConnIndex = Seq<(u64, Seq<Seq<char>>)>;

/// Both indexes are well formed and hold the same (topic, connection) pairs.
pub open spec fn indexes_agree(ts: TopicIndex, ct: ConnIndex) -> bool {
    &&& ix_ok(ts)
    &&& ix_ok(ct)
    &&& forall|t: Seq<char>, c: u64| #[trigger] ix_get(ts, t).contains(c) <==> #[trigger] ix_get(
        ct,
        c,
    ).contains(t)
}

/// Manages exact-topic subscriptions.
pub struct SubscriptionManager {
    topic_subscribers: Vec<(String, Vec<u64>)>,
    connection_topics: Vec<(u64, Vec<String>)>,
}

/// The view of a topic entry.
spec fn topic_entry_view(e: (String, Vec<u64>)) -> (Seq<char>, Seq<u64>) {
    (e.0@, e.1@)
}

/// The view of a connection entry.
spec fn conn_entry_view(e: (u64, Vec<String>)) -> (u64, Seq<Seq<char>>) {
    (e.0, e.1@.map_values(|s: String| s@))
}

/// The views of a sequence of strings.
pub open spec fn strings_view(v: Seq<String>) -> Seq<Seq<char>> {
    v.map_values(|s: String| s@)
}

impl SubscriptionManager {
    /// The subscribers of each topic, topics in the order they were first subscribed.
    pub closed spec fn topics_view(&self) -> TopicIndex {
        self.topic_subscribers@.map_values(|e: (String, Vec<u64>)| topic_entry_view(e))
    }

    /// The topics of each connection, connections in the order they first subscribed.
    pub closed spec fn conns_view(&self) -> ConnIndex {
        self.connection_topics@.map_values(|e: (u64, Vec<String>)| conn_entry_view(e))
    }

    /// The manager's invariant: the two indexes agree.
    pub open spec fn wf(&self) -> bool {
        indexes_agree(self.topics_view(), self.conns_view())
    }

    /// Whether connection `c` is subscribed to topic `t`.
    pub open spec fn is_subscribed(&self, c: u64, t: Seq<char>) -> bool {
        ix_get(self.topics_view(), t).contains(c)
    }

    /// A manager without subscriptions.
    pub fn new() -> (m: Self)
        ensures
            m.wf(),
            m.topics_view() == TopicIndex::empty(),
            m.conns_view() == ConnIndex::empty(),
    {
        let m = SubscriptionManager { topic_subscribers: Vec::new(), connection_topics: Vec::new() };
        assert(m.topics_view() =~= TopicIndex::empty());
        assert(m.conns_view() =~= ConnIndex::empty());
        m
    }

    /// The position of the entry of `topic`.
    fn find_topic(&self, topic: &str) -> (r: Option<usize>)
        requires
            ix_ok(self.topics_view()),
        ensures
            match r {
                Some(i) => index::ix_pos(self.topics_view(), topic@) == Some(i as int) && i
                    < self.topics_view().len(),
                None => index::ix_pos(self.topics_view(), topic@) is None,
            },
    {
        let ghost ts = self.topics_view();
        let mut i: usize = 0;
        while i < self.topic_subscribers.len()
            invariant
                ts == self.topics_view(),
                ts.len() == self.topic_subscribers@.len(),
                ix_ok(ts),
                i <= self.topic_subscribers.len(),
                forall|j: int| 0 <= j < i ==> ts[j].0 != topic@,
            decreases self.topic_subscribers.len() - i,
        {
            assert(ts[i as int] == topic_entry_view(self.topic_subscribers@[i as int]));
            if str_eq(self.topic_subscribers[i].0.as_str(), topic) {
                proof {
                    index::lemma_ix_pos_at(ts, topic@, i as int);
                }
                return Some(i);
            }
            i = i + 1;
        }
        None
    }

    /// The position of the entry of connection `conn`.
    fn find_conn(&self, conn: u64) -> (r: Option<usize>)
        requires
            ix_ok(self.conns_view()),
        ensures
            match r {
                Some(i) => index::ix_pos(self.conns_view(), conn) == Some(i as int) && i
                    < self.conns_view().len(),
                None => index::ix_pos(self.conns_view(), conn) is None,
            },
    {
        let ghost ct = self.conns_view();
        let mut i: usize = 0;
        while i < self.connection_topics.len()
            invariant
                ct == self.conns_view(),
                ct.len() == self.connection_topics@.len(),
                ix_ok(ct),
                i <= self.connection_topics.len(),
                forall|j: int| 0 <= j < i ==> ct[j].0 != conn,
            decreases self.connection_topics.len() - i,
        {
            assert(ct[i as int] == conn_entry_view(self.connection_topics@[i as int]));
            if self.connection_topics[i].0 == conn {
                proof {
                    index::lemma_ix_pos_at(ct, conn, i as int);
                }
                return Some(i);
            }
            i = i + 1;
        }
        None
    }

    /// Subscribes connection `connection_id` to `topic`; `true` when it was
    /// not subscribed yet.
    pub fn subscribe(&mut self, connection_id: u64, topic: &str) -> (is_new: bool)
        requires
            old(self).wf(),
        ensures
            final(self).wf(),
            is_new == !old(self).is_subscribed(connection_id, topic@),
            final(self).topics_view() == index::ix_insert(
                old(self).topics_view(),
                topic@,
                connection_id,
            ),
            final(self).conns_view() == index::ix_insert(
                old(self).conns_view(),
                connection_id,
                topic@,
            ),
    {
        let ghost ts = self.topics_view();
        let ghost ct = self.conns_view();
        proof {
            lemma_subscribe_agrees(ts, ct, topic@, connection_id);
            index::lemma_ix_get_found(ts, topic@);
        }
        let is_new;
        match self.find_topic(topic) {
            Some(i) => {
                assert(ts[i as int] == topic_entry_view(self.topic_subscribers@[i as int]));
                if contains_id(&self.topic_subscribers[i].1, connection_id) {
                    is_new = false;
                } else {
                    let (t, mut subs) = self.topic_subscribers.remove(i);
                    subs.push(connection_id);
                    self.topic_subscribers.insert(i, (t, subs));
                    assert(self.topics_view() =~= index::ix_insert(ts, topic@, connection_id));
                    is_new = true;
                }
            },
            None => {
                let mut subs: Vec<u64> = Vec::new();
                subs.push(connection_id);
                self.topic_subscribers.push((topic.to_owned(), subs));
                assert(self.topics_view() =~= index::ix_insert(ts, topic@, connection_id));
                is_new = true;
            },
        }
        proof {
            index::lemma_ix_get_found(ct, connection_id);
        }
        match self.find_conn(connection_id) {
            Some(i) => {
                assert(ct[i as int] == conn_entry_view(self.connection_topics@[i as int]));
                if !contains_text(&self.connection_topics[i].1, topic) {
                    let (c, mut topics) = self.connection_topics.remove(i);
                    let ghost before = topics@;
                    topics.push(topic.to_owned());
                    assert(strings_view(topics@) =~= strings_view(before).push(topic@));
                    self.connection_topics.insert(i, (c, topics));
                    assert(self.conns_view() =~= index::ix_insert(ct, connection_id, topic@));
                }
            },
            None => {
                let mut topics: Vec<String> = Vec::new();
                topics.push(topic.to_owned());
                assert(strings_view(topics@) =~= seq![topic@]);
                self.connection_topics.push((connection_id, topics));
                assert(self.conns_view() =~= index::ix_insert(ct, connection_id, topic@));
            },
        }
        is_new
    }

    /// Unsubscribes connection `connection_id` from `topic`; `true` when it
    /// was subscribed. A topic or connection left without subscriptions goes.
    pub fn unsubscribe(&mut self, connection_id: u64, topic: &str) -> (removed: bool)
        requires
            old(self).wf(),
        ensures
            final(self).wf(),
            removed == old(self).is_subscribed(connection_id, topic@),
            final(self).topics_view() == index::ix_remove(
                old(self).topics_view(),
                topic@,
                connection_id,
            ),
            final(self).conns_view() == index::ix_remove(
                old(self).conns_view(),
                connection_id,
                topic@,
            ),
            !final(self).is_subscribed(connection_id, topic@),
            index::ix_total(final(self).conns_view()) == index::ix_total(old(self).conns_view()) - if removed {
                1int
            } else {
                0int
            },
            subscribed_topics(final(self).topics_view()).len() == final(self).topics_view().len(),
    {
        let ghost ts = self.topics_view();
        let ghost ct = self.conns_view();
        proof {
            lemma_unsubscribe_agrees(ts, ct, topic@, connection_id);
            lemma_unsubscribe_counts(ts, ct, topic@, connection_id);
            index::lemma_ix_get_found(ts, topic@);
            index::lemma_ix_get_found(ct, connection_id);
        }
        let mut removed = false;
        match self.find_topic(topic) {
            Some(i) => {
                let (t, subs) = self.topic_subscribers.remove(i);
                let before_len = subs.len();
                let ghost sv = subs@;
                assert(sv == ts[i as int].1);
                proof {
                    index::lemma_without(sv, connection_id);
                }
                let kept = without_id(subs, connection_id);
                removed = kept.len() < before_len;
                if kept.len() > 0 {
                    self.topic_subscribers.insert(i, (t, kept));
                }
                assert(self.topics_view() =~= index::ix_remove(ts, topic@, connection_id));
            },
            None => {},
        }
        match self.find_conn(connection_id) {
            Some(i) => {
                let (c, topics) = self.connection_topics.remove(i);
                assert(strings_view(topics@) == ct[i as int].1);
                let kept = without_text(topics, topic);
                if kept.len() > 0 {
                    self.connection_topics.insert(i, (c, kept));
                }
                assert(self.conns_view() =~= index::ix_remove(ct, connection_id, topic@));
            },
            None => {},
        }
        removed
    }

    /// The connections subscribed to `topic`, in the order they subscribed.
    pub fn get_subscribers(&self, topic: &str) -> (r: Vec<u64>)
        requires
            self.wf(),
        ensures
            r@ == ix_get(self.topics_view(), topic@),
    {
        proof {
            index::lemma_ix_get_found(self.topics_view(), topic@);
        }
        match self.find_topic(topic) {
            Some(i) => {
                assert(self.topics_view()[i as int] == topic_entry_view(
                    self.topic_subscribers@[i as int],
                ));
                self.topic_subscribers[i].1.clone()
            },
            None => Vec::new(),
        }
    }

    /// The topics connection `connection_id` is subscribed to, in the order
    /// it subscribed.
    pub fn get_topics(&self, connection_id: u64) -> (r: Vec<String>)
        requires
            self.wf(),
        ensures
            strings_view(r@) == ix_get(self.conns_view(), connection_id),
    {
        proof {
            index::lemma_ix_get_found(self.conns_view(), connection_id);
        }
        match self.find_conn(connection_id) {
            Some(i) => {
                assert(self.conns_view()[i as int] == conn_entry_view(
                    self.connection_topics@[i as int],
                ));
                self.connection_topics[i].1.clone()
            },
            None => {
                let r: Vec<String> = Vec::new();
                assert(strings_view(r@) =~= Seq::<Seq<char>>::empty());
                r
            },
        }
    }

    /// Removes connection `connection_id` from every topic; topics left
    /// without subscribers go.
    pub fn remove_connection(&mut self, connection_id: u64)
        requires
            old(self).wf(),
        ensures
            final(self).wf(),
            final(self).topics_view() == index::ix_drop_value(
                old(self).topics_view(),
                connection_id,
            ),
            final(self).conns_view() == index::ix_remove_key(
                old(self).conns_view(),
                connection_id,
            ),
    {
        let ghost ts = self.topics_view();
        let ghost ct = self.conns_view();
        proof {
            lemma_remove_connection_agrees(ts, ct, connection_id);
        }
        match self.find_conn(connection_id) {
            Some(i) => {
                let _ = self.connection_topics.remove(i);
                assert(self.conns_view() =~= index::ix_remove_key(ct, connection_id));
            },
            None => {},
        }
        let ghost ct2 = self.conns_view();
        let mut old_topics: Vec<(String, Vec<u64>)> = Vec::new();
        std::mem::swap(&mut old_topics, &mut self.topic_subscribers);
        let ghost ot = old_topics@;
        assert(ot.map_values(|e: (String, Vec<u64>)| topic_entry_view(e)) == ts);
        assert(self.topics_view() =~= index::ix_drop_value(ts.take(0), connection_id));
        for entry in it: old_topics
            invariant
                it.seq() == ot,
                ts == ot.map_values(|e: (String, Vec<u64>)| topic_entry_view(e)),
                ct2 == self.conns_view(),
                self.topics_view() == index::ix_drop_value(ts.take(it.index() as int), connection_id),
        {
            assert(ts.take(it.index() + 1).drop_last() =~= ts.take(it.index() as int));
            assert(ts[it.index() as int] == topic_entry_view(entry));
            let (t, subs) = entry;
            let kept = without_id(subs, connection_id);
            if kept.len() > 0 {
                let ghost before = self.topic_subscribers@;
                self.topic_subscribers.push((t, kept));
                assert(self.topics_view() =~= before.map_values(
                    |e: (String, Vec<u64>)| topic_entry_view(e),
                ).push(topic_entry_view((t, kept))));
            }
        }
        assert(ts.take(ts.len() as int) =~= ts);
    }

    /// The number of (topic, connection) subscriptions, counted over the
    /// connections' topics.
    pub fn subscription_count(&self) -> (n: usize)
        requires
            index::ix_total(self.conns_view()) <= usize::MAX,
        ensures
            n == index::ix_total(self.conns_view()),
    {
        let ghost ct = self.conns_view();
        let mut n: usize = 0;
        let mut i: usize = 0;
        while i < self.connection_topics.len()
            invariant
                ct == self.conns_view(),
                ct.len() == self.connection_topics@.len(),
                i <= self.connection_topics.len(),
                n == index::ix_total(ct.take(i as int)),
                index::ix_total(ct) <= usize::MAX,
            decreases self.connection_topics.len() - i,
        {
            assert(ct.take(i + 1).drop_last() =~= ct.take(i as int));
            assert(ct[i as int] == conn_entry_view(self.connection_topics@[i as int]));
            proof {
                lemma_ix_total_prefix(ct, i + 1);
            }
            n = n + self.connection_topics[i].1.len();
            i = i + 1;
        }
        assert(ct.take(ct.len() as int) =~= ct);
        n
    }

    /// The number of topics with at least one subscriber.
    pub fn topic_count(&self) -> (n: usize)
        ensures
            n == self.topics_view().len(),
    {
        self.topic_subscribers.len()
    }
}

impl Default for SubscriptionManager {
    fn default() -> (m: Self)
        ensures
            m.wf(),
            m.topics_view() == TopicIndex::empty(),
            m.conns_view() == ConnIndex::empty(),
    {
        Self::new()
    }
}

/// The lists of a prefix never hold more than those of the whole.
pub proof fn lemma_ix_total_prefix(ct: ConnIndex, k: int)
    requires
        0 <= k <= ct.len(),
    ensures
        index::ix_total(ct.take(k)) <= index::ix_total(ct),
    decreases ct.len() - k,
{
    if k < ct.len() {
        lemma_ix_total_prefix(ct, k + 1);
        assert(ct.take(k + 1).drop_last() =~= ct.take(k));
    } else {
        assert(ct.take(k) =~= ct);
    }
}

/// Subscribing `c` to `t` keeps the indexes in agreement and adds exactly
/// the pair (`t`, `c`).
pub proof fn lemma_subscribe_agrees(ts: TopicIndex, ct: ConnIndex, t: Seq<char>, c: u64)
    requires
        indexes_agree(ts, ct),
    ensures
        indexes_agree(index::ix_insert(ts, t, c), index::ix_insert(ct, c, t)),
        forall|t2: Seq<char>, c2: u64| #[trigger]
            ix_get(index::ix_insert(ts, t, c), t2).contains(c2) <==> (ix_get(ts, t2).contains(c2)
                || (t2 == t && c2 == c)),
{
    let ts2 = index::ix_insert(ts, t, c);
    let ct2 = index::ix_insert(ct, c, t);
    index::lemma_ix_insert(ts, t, c, t);
    index::lemma_ix_insert(ct, c, t, c);
    assert forall|t2: Seq<char>, c2: u64| #[trigger] ix_get(ts2, t2).contains(c2) <==> (ix_get(
        ts,
        t2,
    ).contains(c2) || (t2 == t && c2 == c)) by {
        index::lemma_ix_insert(ts, t, c, t2);
        lemma_push_contains(ix_get(ts, t), c, c2);
    }
    assert forall|t2: Seq<char>, c2: u64| #[trigger] ix_get(ts2, t2).contains(c2) <==> #[trigger] ix_get(
        ct2,
        c2,
    ).contains(t2) by {
        index::lemma_ix_insert(ts, t, c, t2);
        index::lemma_ix_insert(ct, c, t, c2);
        lemma_push_contains(ix_get(ts, t), c, c2);
        lemma_push_contains(ix_get(ct, c), t, t2);
        assert(ix_get(ts, t2).contains(c2) <==> ix_get(ct, c2).contains(t2));
        assert(ix_get(ts, t).contains(c) <==> ix_get(ct, c).contains(t));
    }
}

/// Unsubscribing `c` from `t` keeps the indexes in agreement and removes
/// exactly the pair (`t`, `c`).
pub proof fn lemma_unsubscribe_agrees(ts: TopicIndex, ct: ConnIndex, t: Seq<char>, c: u64)
    requires
        indexes_agree(ts, ct),
    ensures
        indexes_agree(index::ix_remove(ts, t, c), index::ix_remove(ct, c, t)),
        forall|t2: Seq<char>, c2: u64| #[trigger]
            ix_get(index::ix_remove(ts, t, c), t2).contains(c2) <==> (ix_get(ts, t2).contains(c2)
                && !(t2 == t && c2 == c)),
{
    let ts2 = index::ix_remove(ts, t, c);
    let ct2 = index::ix_remove(ct, c, t);
    index::lemma_ix_remove(ts, t, c, t);
    index::lemma_ix_remove(ct, c, t, c);
    assert forall|t2: Seq<char>, c2: u64| #[trigger] ix_get(ts2, t2).contains(c2) <==> (ix_get(
        ts,
        t2,
    ).contains(c2) && !(t2 == t && c2 == c)) by {
        index::lemma_ix_remove(ts, t, c, t2);
        index::lemma_without(ix_get(ts, t), c);
    }
    assert forall|t2: Seq<char>, c2: u64| #[trigger] ix_get(ts2, t2).contains(c2) <==> #[trigger] ix_get(
        ct2,
        c2,
    ).contains(t2) by {
        index::lemma_ix_remove(ts, t, c, t2);
        index::lemma_ix_remove(ct, c, t, c2);
        index::lemma_without(ix_get(ts, t), c);
        index::lemma_without(ix_get(ct, c), t);
        assert(ix_get(ts, t2).contains(c2) <==> ix_get(ct, c2).contains(t2));
    }
}

/// Removing connection `c` keeps the indexes in agreement and removes
/// exactly the pairs of `c`.
pub proof fn lemma_remove_connection_agrees(ts: TopicIndex, ct: ConnIndex, c: u64)
    requires
        indexes_agree(ts, ct),
    ensures
        indexes_agree(index::ix_drop_value(ts, c), index::ix_remove_key(ct, c)),
        forall|t2: Seq<char>, c2: u64| #[trigger]
            ix_get(index::ix_drop_value(ts, c), t2).contains(c2) <==> (ix_get(ts, t2).contains(c2)
                && c2 != c),
{
    let ts2 = index::ix_drop_value(ts, c);
    let ct2 = index::ix_remove_key(ct, c);
    index::lemma_ix_drop_value(ts, c, Seq::empty());
    index::lemma_ix_remove_key(ct, c, c);
    assert forall|t2: Seq<char>, c2: u64| #[trigger] ix_get(ts2, t2).contains(c2) <==> (ix_get(
        ts,
        t2,
    ).contains(c2) && c2 != c) by {
        index::lemma_ix_drop_value(ts, c, t2);
        index::lemma_without(ix_get(ts, t2), c);
    }
    assert forall|t2: Seq<char>, c2: u64| #[trigger] ix_get(ts2, t2).contains(c2) <==> #[trigger] ix_get(
        ct2,
        c2,
    ).contains(t2) by {
        index::lemma_ix_drop_value(ts, c, t2);
        index::lemma_without(ix_get(ts, t2), c);
        index::lemma_ix_remove_key(ct, c, c2);
        assert(ix_get(ts, t2).contains(c2) <==> ix_get(ct, c2).contains(t2));
    }
}

/// What a pushed sequence holds.
proof fn lemma_push_contains<V>(l: Seq<V>, v: V, x: V)
    ensures
        l.push(v).contains(x) <==> (l.contains(x) || x == v),
{
    if l.push(v).contains(x) {
        let k = choose|k: int| 0 <= k < l.push(v).len() && l.push(v)[k] == x;
        if k < l.len() {
            assert(l[k] == x);
        }
    }
    if l.contains(x) {
        let k = choose|k: int| 0 <= k < l.len() && l[k] == x;
        assert(l.push(v)[k] == x);
    }
    if x == v {
        assert(l.push(v)[l.len() as int] == x);
    }
}

/// Whether `v` holds `x`.
fn contains_id(v: &Vec<u64>, x: u64) -> (r: bool)
    ensures
        r == v@.contains(x),
{
    let mut i: usize = 0;
    while i < v.len()
        invariant
            i <= v.len(),
            forall|j: int| 0 <= j < i ==> v@[j] != x,
        decreases v.len() - i,
    {
        if v[i] == x {
            assert(v@[i as int] == x);
            return true;
        }
        i = i + 1;
    }
    false
}

/// Whether `v` holds the text `x`.
fn contains_text(v: &Vec<String>, x: &str) -> (r: bool)
    ensures
        r == strings_view(v@).contains(x@),
{
    let ghost sv = strings_view(v@);
    let mut i: usize = 0;
    while i < v.len()
        invariant
            i <= v.len(),
            sv == strings_view(v@),
            forall|j: int| 0 <= j < i ==> sv[j] != x@,
        decreases v.len() - i,
    {
        if str_eq(v[i].as_str(), x) {
            assert(sv[i as int] == x@);
            return true;
        }
        i = i + 1;
    }
    false
}

/// `v` without `x`, in order.
fn without_id(v: Vec<u64>, x: u64) -> (r: Vec<u64>)
    ensures
        r@ == index::without(v@, x),
{
    let ghost s = v@;
    let mut r: Vec<u64> = Vec::new();
    for y in it: v
        invariant
            it.seq() == s,
            r@ == index::without(s.take(it.index() as int), x),
    {
        assert(s.take(it.index() + 1).drop_last() =~= s.take(it.index() as int));
        assert(s.take(it.index() + 1).last() == y);
        if y != x {
            r.push(y);
        }
    }
    assert(s.take(s.len() as int) =~= s);
    r
}

/// `v` without the text `x`, in order.
fn without_text(v: Vec<String>, x: &str) -> (r: Vec<String>)
    ensures
        strings_view(r@) == index::without(strings_view(v@), x@),
{
    let ghost s = strings_view(v@);
    let mut r: Vec<String> = Vec::new();
    for y in it: v
        invariant
            it.seq() == v@,
            s == strings_view(v@),
            strings_view(r@) == index::without(s.take(it.index() as int), x@),
    {
        assert(s.take(it.index() + 1).drop_last() =~= s.take(it.index() as int));
        assert(s[it.index() as int] == y@);
        assert(s.take(it.index() + 1).last() == y@);
        if !str_eq(y.as_str(), x) {
            let ghost before = r@;
            r.push(y);
            assert(strings_view(r@) =~= strings_view(before).push(y@));
        }
    }
    assert(s.take(s.len() as int) =~= s);
    r
}

/// The topics with at least one subscriber.
pub open spec fn subscribed_topics(ts: TopicIndex) -> Set<Seq<char>> {
    Set::new(|t: Seq<char>| ix_get(ts, t).len() > 0)
}

/// The topic count is the number of topics with at least one subscriber:
/// every entry of a well-formed index has a subscriber, and topics have one
/// entry each.
pub proof fn lemma_topic_count(ts: TopicIndex)
    requires
        ix_ok(ts),
    ensures
        subscribed_topics(ts).finite(),
        subscribed_topics(ts).len() == ts.len(),
{
    let keys = ts.map_values(|e: (Seq<char>, Seq<u64>)| e.0);
    index::lemma_ix_get_found(ts, Seq::<char>::empty());
    assert forall|t: Seq<char>| #[trigger] subscribed_topics(ts).contains(t) <==> keys.to_set().contains(t) by {
        index::lemma_ix_get_found(ts, t);
        if keys.contains(t) {
            let i = choose|i: int| 0 <= i < keys.len() && keys[i] == t;
            assert(ts[i].0 == t);
        }
        if subscribed_topics(ts).contains(t) {
            if forall|i: int| 0 <= i < ts.len() ==> #[trigger] ts[i].0 != t {
            } else {
                let i = choose|i: int| 0 <= i < ts.len() && ts[i].0 == t;
                assert(keys[i] == t);
            }
        }
    }
    assert(subscribed_topics(ts) =~= keys.to_set());
    assert(keys.no_duplicates()) by {
        assert forall|i: int, j: int| 0 <= i < keys.len() && 0 <= j < keys.len() && i != j implies keys[i]
            != keys[j] by {
            if i < j {
                assert(ts[i].0 != ts[j].0);
            } else {
                assert(ts[j].0 != ts[i].0);
            }
        }
    }
    keys.unique_seq_to_set();
    vstd::seq_lib::seq_to_set_is_finite(keys);
}

/// Removing a value held once shortens a list by one.
proof fn lemma_without_len<V>(l: Seq<V>, x: V)
    requires
        l.no_duplicates(),
    ensures
        without(l, x).len() == if l.contains(x) {
            l.len() - 1
        } else {
            l.len() as int
        },
    decreases l.len(),
{
    index::lemma_without(l, x);
    if l.len() > 0 {
        let d = l.drop_last();
        lemma_without_len(d, x);
        if d.contains(x) {
            let k = choose|k: int| 0 <= k < d.len() && d[k] == x;
            assert(l[k] == x);
            assert(l.last() != x) by {
                assert(l[k] != l[l.len() - 1]);
            }
        }
        if l.contains(x) && !d.contains(x) {
            let k = choose|k: int| 0 <= k < l.len() && l[k] == x;
            if k < l.len() - 1 {
                assert(d[k] == x);
            }
        }
    }
}

/// Replacing one list changes the total by the difference of the lengths.
proof fn lemma_ix_total_update<K, V>(ix: Seq<(K, Seq<V>)>, i: int, e: (K, Seq<V>))
    requires
        0 <= i < ix.len(),
    ensures
        index::ix_total(ix.update(i, e)) == index::ix_total(ix) - ix[i].1.len() + e.1.len(),
    decreases ix.len(),
{
    let t = ix.update(i, e);
    if i < ix.len() - 1 {
        lemma_ix_total_update(ix.drop_last(), i, e);
        assert(t.drop_last() =~= ix.drop_last().update(i, e));
    } else {
        assert(t.drop_last() =~= ix.drop_last());
    }
}

/// Removing one entry lowers the total by its length.
proof fn lemma_ix_total_remove<K, V>(ix: Seq<(K, Seq<V>)>, i: int)
    requires
        0 <= i < ix.len(),
    ensures
        index::ix_total(ix.remove(i)) == index::ix_total(ix) - ix[i].1.len(),
    decreases ix.len(),
{
    let t = ix.remove(i);
    if i < ix.len() - 1 {
        lemma_ix_total_remove(ix.drop_last(), i);
        assert(t.drop_last() =~= ix.drop_last().remove(i));
        assert(t.last() == ix.last());
    } else {
        assert(t =~= ix.drop_last());
    }
}

/// Unsubscribing `c` from `t` lowers the subscription count by one when
/// `c` was subscribed and leaves it otherwise; the topic count stays the
/// number of topics with a subscriber.
pub proof fn lemma_unsubscribe_counts(ts: TopicIndex, ct: ConnIndex, t: Seq<char>, c: u64)
    requires
        indexes_agree(ts, ct),
    ensures
        index::ix_total(index::ix_remove(ct, c, t)) == index::ix_total(ct) - if ix_get(ts, t).contains(
            c,
        ) {
            1int
        } else {
            0int
        },
        subscribed_topics(index::ix_remove(ts, t, c)).len() == index::ix_remove(ts, t, c).len(),
{
    lemma_unsubscribe_agrees(ts, ct, t, c);
    lemma_topic_count(index::ix_remove(ts, t, c));
    assert(ix_get(ts, t).contains(c) <==> ix_get(ct, c).contains(t));
    index::lemma_ix_get_found(ct, c);
    match index::ix_pos(ct, c) {
        Some(i) => {
            index::lemma_ix_pos_at(ct, c, i);
            assert(ix_get(ct, c) == ct[i].1);
            lemma_without_len(ct[i].1, t);
            if without(ct[i].1, t).len() == 0 {
                lemma_ix_total_remove(ct, i);
            } else {
                lemma_ix_total_update(ct, i, (c, without(ct[i].1, t)));
            }
        },
        None => {},
    }
}

} // verus!
