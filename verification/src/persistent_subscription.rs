//! Exclusive persistent subscriptions.
//!
//! A persistent subscription has an id chosen by the client and a topic
//! pattern. At any time it is active on at most one connection: another
//! connection cannot register, acknowledge for, or unsubscribe it. The
//! manager keeps the active subscriptions and, for each connection, the ids
//! it registered; the two always agree.
use vstd::prelude::*;

use std::time::Duration;

use crate::error::ServerError;
use crate::nats_pattern;
use crate::nats_pattern::{NatsPattern, PatternView};
use crate::retention;
use crate::storage::SubscriptionState;
use crate::text::{concat_str, str_eq};

verus! {

/// An active subscription: its id, its pattern and its connection.
#[derive(Debug, Clone)]
struct SubscriptionInfo {
    subscription_id: String,
    pattern: NatsPattern,
    connection_id: u64,
}

/// The view of an active subscription: id, pattern, connection.
pub type ActiveView = (Seq<char>, PatternView, u64);

/// The view of one connection's entry: its id and the subscription ids it
/// registered, in order.
pub type ConnView = (u64, Seq<Seq<char>>);

/// The position of the active subscription `id`, if it is active.
pub open spec fn active_pos(a: Seq<ActiveView>, id: Seq<char>) -> Option<int> {
    if exists|i: int| 0 <= i < a.len() && a[i].0 == id {
        Some(choose|i: int| 0 <= i < a.len() && a[i].0 == id)
    } else {
        None
    }
}

/// The connection subscription `id` is active on, if any.
pub open spec fn owner_of(a: Seq<ActiveView>, id: Seq<char>) -> Option<u64> {
    match active_pos(a, id) {
        Some(i) => Some(a[i].2),
        None => None,
    }
}

/// The position of the entry of connection `conn`, if it has one.
pub open spec fn entry_pos(c: Seq<ConnView>, conn: u64) -> Option<int> {
    if exists|i: int| 0 <= i < c.len() && c[i].0 == conn {
        Some(choose|i: int| 0 <= i < c.len() && c[i].0 == conn)
    } else {
        None
    }
}

/// The subscription ids registered by connection `conn`.
pub open spec fn subs_of(c: Seq<ConnView>, conn: u64) -> Seq<Seq<char>> {
    match entry_pos(c, conn) {
        Some(i) => c[i].1,
        None => Seq::empty(),
    }
}

/// The manager's invariant: ids are active once, connections have one
/// non-empty entry each, and a connection lists an id exactly when that
/// subscription is active on it.
pub open spec fn registry_wf(a: Seq<ActiveView>, c: Seq<ConnView>) -> bool {
    &&& forall|i: int, j: int| 0 <= i < j < a.len() ==> #[trigger] a[i].0 != #[trigger] a[j].0
    &&& forall|i: int, j: int| 0 <= i < j < c.len() ==> #[trigger] c[i].0 != #[trigger] c[j].0
    &&& forall|i: int| 0 <= i < c.len() ==> #[trigger] c[i].1.len() > 0
    &&& forall|conn: u64, id: Seq<char>| #[trigger]
        subs_of(c, conn).contains(id) <==> owner_of(a, id) == Some(conn)
}

/// The active subscriptions after `id` becomes active with pattern `p` on `conn`.
pub open spec fn activated(a: Seq<ActiveView>, id: Seq<char>, p: PatternView, conn: u64) -> Seq<
    ActiveView,
> {
    match active_pos(a, id) {
        Some(i) => a.update(i, (id, p, conn)),
        None => a.push((id, p, conn)),
    }
}

/// The connection entries after `conn` registers `id` (after its earlier ids).
pub open spec fn sub_added(c: Seq<ConnView>, conn: u64, id: Seq<char>) -> Seq<ConnView> {
    match entry_pos(c, conn) {
        Some(i) => c.update(i, (conn, c[i].1.push(id))),
        None => c.push((conn, seq![id])),
    }
}

/// The active subscriptions after `id` stops being active.
pub open spec fn deactivated(a: Seq<ActiveView>, id: Seq<char>) -> Seq<ActiveView> {
    match active_pos(a, id) {
        Some(i) => a.remove(i),
        None => a,
    }
}

/// The ids of `ids` other than `id`, in order.
pub open spec fn without_id(ids: Seq<Seq<char>>, id: Seq<char>) -> Seq<Seq<char>>
    decreases ids.len(),
{
    if ids.len() == 0 {
        Seq::empty()
    } else {
        let rest = without_id(ids.drop_last(), id);
        if ids.last() != id {
            rest.push(ids.last())
        } else {
            rest
        }
    }
}

/// The connection entries after `conn` drops `id`; an entry left empty goes.
pub open spec fn sub_dropped(c: Seq<ConnView>, conn: u64, id: Seq<char>) -> Seq<ConnView> {
    match entry_pos(c, conn) {
        Some(i) => if without_id(c[i].1, id).len() == 0 {
            c.remove(i)
        } else {
            c.update(i, (conn, without_id(c[i].1, id)))
        },
        None => c,
    }
}

/// The active subscriptions whose ids are not in `ids`, in order.
pub open spec fn without_ids(a: Seq<ActiveView>, ids: Seq<Seq<char>>) -> Seq<ActiveView>
    decreases a.len(),
{
    if a.len() == 0 {
        Seq::empty()
    } else {
        let rest = without_ids(a.drop_last(), ids);
        if ids.contains(a.last().0) {
            rest
        } else {
            rest.push(a.last())
        }
    }
}

/// The connection entries without that of `conn`.
pub open spec fn entry_removed(c: Seq<ConnView>, conn: u64) -> Seq<ConnView> {
    match entry_pos(c, conn) {
        Some(i) => c.remove(i),
        None => c,
    }
}

/// The message refusing to register `id` from a second connection.
pub open spec fn already_active_message(id: Seq<char>) -> Seq<char> {
    "Subscription '"@ + id + "' is already active on another connection"@
}

/// The message refusing an acknowledgment from a connection that does not own `id`.
pub open spec fn not_on_this_connection_message(id: Seq<char>) -> Seq<char> {
    "Subscription '"@ + id + "' is not active on this connection"@
}

/// The message refusing an acknowledgment for an inactive `id`.
pub open spec fn not_active_message(id: Seq<char>) -> Seq<char> {
    "Subscription '"@ + id + "' is not active"@
}

/// The message refusing to unsubscribe `id` from a connection that does not own it.
pub open spec fn other_connection_message(id: Seq<char>) -> Seq<char> {
    "Subscription '"@ + id + "' belongs to another connection"@
}

/// The message refusing a topic that is not a valid pattern.
pub open spec fn invalid_topic_message(e: nats_pattern::PatternError) -> Seq<char> {
    "Invalid topic pattern: "@ + nats_pattern::pattern_error_message(e)
}

/// `"Subscription '"`, the id, and `tail`.
fn subscription_message(id: &str, tail: &str) -> (s: String)
    ensures
        s@ == "Subscription '"@ + id@ + tail@,
{
    let head = concat_str("Subscription '", id);
    concat_str(head.as_str(), tail)
}

/// Whether registering `id` from `conn` conflicts: `id` is active on another connection.
pub open spec fn registration_conflict(a: Seq<ActiveView>, id: Seq<char>, conn: u64) -> bool {
    owner_of(a, id) matches Some(o) && o != conn
}

/// The (id, connection) pairs of the active subscriptions whose pattern
/// matches `topic`, in order.
pub open spec fn matching_pairs(a: Seq<ActiveView>, topic: Seq<char>) -> Seq<(Seq<char>, u64)>
    decreases a.len(),
{
    if a.len() == 0 {
        Seq::empty()
    } else {
        let rest = matching_pairs(a.drop_last(), topic);
        if nats_pattern::pattern_matches(a.last().1, topic) {
            rest.push((a.last().0, a.last().2))
        } else {
            rest
        }
    }
}

/// The ids of the stored subscriptions that are not active and have been
/// inactive for more than `timeout_secs` at `now`, in order.
pub open spec fn cleanup_candidates(
    a: Seq<ActiveView>,
    all: Seq<SubscriptionState>,
    now: u64,
    timeout_secs: u64,
) -> Seq<Seq<char>>
    decreases all.len(),
{
    if all.len() == 0 {
        Seq::empty()
    } else {
        let rest = cleanup_candidates(a, all.drop_last(), now, timeout_secs);
        let s = all.last();
        if owner_of(a, s.subscription_id@) is None && retention::sat_sub(
            now as int,
            s.last_activity as int,
        ) > timeout_secs {
            rest.push(s.subscription_id@)
        } else {
            rest
        }
    }
}

/// The active subscriptions a topic reaches are exactly those whose pattern
/// matches it, each once with its own connection, in the order they became
/// active: one pair per matching subscription, whatever connection holds it.
pub proof fn lemma_matching_pairs_are_the_matching_subscriptions(a: Seq<ActiveView>, topic: Seq<char>)
    ensures
        matching_pairs(a, topic) == a.filter(
            |e: ActiveView| nats_pattern::pattern_matches(e.1, topic),
        ).map_values(|e: ActiveView| (e.0, e.2)),
        matching_pairs(a, topic).len() == a.filter(
            |e: ActiveView| nats_pattern::pattern_matches(e.1, topic),
        ).len(),
    decreases a.len(),
{
    reveal(Seq::filter);
    if a.len() > 0 {
        lemma_matching_pairs_are_the_matching_subscriptions(a.drop_last(), topic);
        let f = a.drop_last().filter(|e: ActiveView| nats_pattern::pattern_matches(e.1, topic));
        if nats_pattern::pattern_matches(a.last().1, topic) {
            assert(f.push(a.last()).map_values(|e: ActiveView| (e.0, e.2)) =~= f.map_values(
                |e: ActiveView| (e.0, e.2),
            ).push((a.last().0, a.last().2)));
        }
    } else {
        assert(matching_pairs(a, topic) =~= a.filter(
            |e: ActiveView| nats_pattern::pattern_matches(e.1, topic),
        ).map_values(|e: ActiveView| (e.0, e.2)));
    }
}

/// The subscriptions to clean up are exactly the stored ones that are not
/// active and whose last activity lies more than the timeout before `now`
/// (when they were created does not count), in the order they are stored.
pub proof fn lemma_cleanup_candidates_are_the_long_inactive(
    a: Seq<ActiveView>,
    all: Seq<SubscriptionState>,
    now: u64,
    timeout_secs: u64,
)
    ensures
        cleanup_candidates(a, all, now, timeout_secs) == all.filter(
            |s: SubscriptionState|
                owner_of(a, s.subscription_id@) is None && now - s.last_activity > timeout_secs,
        ).map_values(|s: SubscriptionState| s.subscription_id@),
    decreases all.len(),
{
    reveal(Seq::filter);
    if all.len() > 0 {
        lemma_cleanup_candidates_are_the_long_inactive(a, all.drop_last(), now, timeout_secs);
        let f = all.drop_last().filter(
            |s: SubscriptionState|
                owner_of(a, s.subscription_id@) is None && now - s.last_activity > timeout_secs,
        );
        let l = all.last();
        assert((retention::sat_sub(now as int, l.last_activity as int) > timeout_secs) == (now
            - l.last_activity > timeout_secs));
        if owner_of(a, l.subscription_id@) is None && now - l.last_activity > timeout_secs {
            assert(f.push(l).map_values(|s: SubscriptionState| s.subscription_id@) =~= f.map_values(
                |s: SubscriptionState| s.subscription_id@,
            ).push(l.subscription_id@));
        }
    } else {
        assert(cleanup_candidates(a, all, now, timeout_secs) =~= all.filter(
            |s: SubscriptionState|
                owner_of(a, s.subscription_id@) is None && now - s.last_activity > timeout_secs,
        ).map_values(|s: SubscriptionState| s.subscription_id@));
    }
}

/// The views of a sequence of strings.
pub open spec fn strings_view(v: Seq<String>) -> Seq<Seq<char>> {
    v.map_values(|x: String| x@)
}

/// The views of a sequence of (id, connection) pairs.
pub open spec fn id_pairs_view(v: Seq<(String, u64)>) -> Seq<(Seq<char>, u64)> {
    v.map_values(|p: (String, u64)| (p.0@, p.1))
}

/// Whether `ids` holds `id`.
fn ids_contain(ids: &Vec<String>, id: &str) -> (r: bool)
    ensures
        r == strings_view(ids@).contains(id@),
{
    let ghost v = strings_view(ids@);
    let mut i: usize = 0;
    while i < ids.len()
        invariant
            i <= ids.len(),
            v == strings_view(ids@),
            forall|j: int| 0 <= j < i ==> v[j] != id@,
        decreases ids.len() - i,
    {
        if str_eq(ids[i].as_str(), id) {
            assert(v[i as int] == id@);
            return true;
        }
        i = i + 1;
    }
    false
}

/// Manages exclusive persistent subscriptions.
pub struct PersistentSubscriptionManager {
    active: Vec<SubscriptionInfo>,
    connections: Vec<(u64, Vec<String>)>,
    inactivity_timeout: Option<Duration>,
}

/// The view of an active subscription record.
spec fn info_view(s: SubscriptionInfo) -> ActiveView {
    (s.subscription_id@, s.pattern@, s.connection_id)
}

/// The view of a connection entry.
spec fn entry_view(e: (u64, Vec<String>)) -> ConnView {
    (e.0, e.1@.map_values(|s: String| s@))
}

impl PersistentSubscriptionManager {
    /// The active subscriptions, in the order they became active.
    pub closed spec fn active_view(&self) -> Seq<ActiveView> {
        self.active@.map_values(|s: SubscriptionInfo| info_view(s))
    }

    /// The connections' entries, in the order they first registered.
    pub closed spec fn conns_view(&self) -> Seq<ConnView> {
        self.connections@.map_values(|e: (u64, Vec<String>)| entry_view(e))
    }

    /// How long a subscription may stay inactive before it is cleaned up.
    pub closed spec fn timeout(&self) -> Option<Duration> {
        self.inactivity_timeout
    }

    /// The manager's invariant.
    pub open spec fn wf(&self) -> bool {
        registry_wf(self.active_view(), self.conns_view())
    }

    /// A manager with no active subscription; `inactivity_timeout` is how long
    /// an inactive subscription's state is kept (`None`: forever).
    pub fn new(inactivity_timeout: Option<Duration>) -> (m: Self)
        ensures
            m.wf(),
            m.active_view() == Seq::<ActiveView>::empty(),
            m.conns_view() == Seq::<ConnView>::empty(),
            m.timeout() == inactivity_timeout,
    {
        let m = PersistentSubscriptionManager {
            active: Vec::new(),
            connections: Vec::new(),
            inactivity_timeout,
        };
        assert(m.active_view() =~= Seq::<ActiveView>::empty());
        assert(m.conns_view() =~= Seq::<ConnView>::empty());
        m
    }

    /// The position of the active subscription `id`.
    fn find_active(&self, id: &str) -> (r: Option<usize>)
        requires
            ids_unique(self.active_view()),
        ensures
            match r {
                Some(i) => active_pos(self.active_view(), id@) == Some(i as int) && i
                    < self.active_view().len(),
                None => active_pos(self.active_view(), id@) is None,
            },
    {
        let ghost a = self.active_view();
        let mut i: usize = 0;
        while i < self.active.len()
            invariant
                a == self.active_view(),
                a.len() == self.active@.len(),
                forall|x: int, y: int| 0 <= x < y < a.len() ==> #[trigger] a[x].0 != #[trigger] a[y].0,
                i <= self.active.len(),
                forall|j: int| 0 <= j < i ==> a[j].0 != id@,
            decreases self.active.len() - i,
        {
            assert(a[i as int] == info_view(self.active@[i as int]));
            if str_eq(self.active[i].subscription_id.as_str(), id) {
                proof {
                    lemma_active_pos_at(a, id@, i as int);
                }
                return Some(i);
            }
            i = i + 1;
        }
        None
    }

    /// The position of the entry of connection `conn`.
    fn find_entry(&self, conn: u64) -> (r: Option<usize>)
        requires
            entries_ok(self.conns_view()),
        ensures
            match r {
                Some(i) => entry_pos(self.conns_view(), conn) == Some(i as int) && i
                    < self.conns_view().len(),
                None => entry_pos(self.conns_view(), conn) is None,
            },
    {
        let ghost c = self.conns_view();
        let mut i: usize = 0;
        while i < self.connections.len()
            invariant
                c == self.conns_view(),
                c.len() == self.connections@.len(),
                forall|x: int, y: int| 0 <= x < y < c.len() ==> #[trigger] c[x].0 != #[trigger] c[y].0,
                i <= self.connections.len(),
                forall|j: int| 0 <= j < i ==> c[j].0 != conn,
            decreases self.connections.len() - i,
        {
            assert(c[i as int] == entry_view(self.connections@[i as int]));
            if self.connections[i].0 == conn {
                proof {
                    lemma_entry_pos_at(c, conn, i as int);
                }
                return Some(i);
            }
            i = i + 1;
        }
        None
    }

    /// Whether subscription `subscription_id` is active.
    pub fn is_active(&self, subscription_id: &str) -> (r: bool)
        requires
            self.wf(),
        ensures
            r == owner_of(self.active_view(), subscription_id@) is Some,
    {
        self.find_active(subscription_id).is_some()
    }

    /// The connection subscription `subscription_id` is active on.
    pub fn get_connection_id(&self, subscription_id: &str) -> (r: Option<u64>)
        requires
            self.wf(),
        ensures
            r == owner_of(self.active_view(), subscription_id@),
    {
        match self.find_active(subscription_id) {
            Some(i) => {
                assert(self.active_view()[i as int] == info_view(self.active@[i as int]));
                Some(self.active[i].connection_id)
            },
            None => None,
        }
    }

    /// Checks a registration of `subscription_id` on `topic` from connection
    /// `connection_id`, before its state is stored: the topic must be a valid
    /// pattern, and the subscription must not be active on another connection.
    /// Gives the parsed pattern.
    pub fn check_registration(&self, subscription_id: &str, topic: &str, connection_id: u64) -> (r:
        Result<NatsPattern, ServerError>)
        requires
            self.wf(),
        ensures
            nats_pattern::parse_pattern(topic@) is Err ==> r is Err && r->Err_0 is InvalidParams
                && r->Err_0->InvalidParams_0@ == invalid_topic_message(
                nats_pattern::parse_pattern(topic@)->Err_0,
            ),
            nats_pattern::parse_pattern(topic@) is Ok && registration_conflict(
                self.active_view(),
                subscription_id@,
                connection_id,
            ) ==> r is Err && r->Err_0 is InvalidRequest && r->Err_0->InvalidRequest_0@
                == already_active_message(subscription_id@),
            nats_pattern::parse_pattern(topic@) is Ok && !registration_conflict(
                self.active_view(),
                subscription_id@,
                connection_id,
            ) ==> r is Ok && r->Ok_0@ == nats_pattern::parse_pattern(topic@)->Ok_0,
    {
        let pattern = match NatsPattern::new(topic) {
            Ok(p) => p,
            Err(e) => {
                let detail = e.to_string();
                return Err(ServerError::InvalidParams(concat_str("Invalid topic pattern: ", detail.as_str())));
            },
        };
        match self.get_connection_id(subscription_id) {
            Some(owner) => {
                if owner != connection_id {
                    return Err(
                        ServerError::InvalidRequest(
                            subscription_message(
                                subscription_id,
                                "' is already active on another connection",
                            ),
                        ),
                    );
                }
            },
            None => {},
        }
        Ok(pattern)
    }

    /// Makes `subscription_id` active with `pattern` on connection
    /// `connection_id` once its stored state `state` is known, and gives that
    /// state with the pattern text `topic` recorded.
    pub fn complete_registration(
        &mut self,
        subscription_id: String,
        topic: &str,
        pattern: NatsPattern,
        connection_id: u64,
        state: SubscriptionState,
    ) -> (r: SubscriptionState)
        requires
            old(self).wf(),
            !registration_conflict(old(self).active_view(), subscription_id@, connection_id),
        ensures
            final(self).wf(),
            final(self).active_view() == activated(
                old(self).active_view(),
                subscription_id@,
                pattern@,
                connection_id,
            ),
            final(self).conns_view() == sub_added(
                old(self).conns_view(),
                connection_id,
                subscription_id@,
            ),
            final(self).timeout() == old(self).timeout(),
            r.topic_pattern is Some && r.topic_pattern->Some_0@ == topic@,
            r.subscription_id == state.subscription_id,
            r.topic == state.topic,
            r.last_ack_seq == state.last_ack_seq,
            r.last_ack_topic == state.last_ack_topic,
            r.created_at == state.created_at,
            r.last_activity == state.last_activity,
    {
        let ghost a = self.active_view();
        let ghost c = self.conns_view();
        let ghost pv = pattern@;
        proof {
            lemma_registration_keeps_wf(a, c, subscription_id@, pattern@, connection_id);
        }
        let id_for_conn = subscription_id.clone();
        let info = SubscriptionInfo { subscription_id, pattern, connection_id };
        match self.find_active(info.subscription_id.as_str()) {
            Some(i) => {
                let _ = self.active.remove(i);
                self.active.insert(i, info);
                assert(self.active_view() =~= activated(a, id_for_conn@, pv, connection_id));
            },
            None => {
                self.active.push(info);
                assert(self.active_view() =~= activated(a, id_for_conn@, pv, connection_id));
            },
        }
        let ghost idv = id_for_conn@;
        match self.find_entry(connection_id) {
            Some(i) => {
                let (k, mut ids) = self.connections.remove(i);
                let ghost before = ids@;
                ids.push(id_for_conn);
                assert(strings_view(ids@) =~= strings_view(before).push(idv));
                self.connections.insert(i, (k, ids));
                assert(self.conns_view() =~= sub_added(c, connection_id, idv));
            },
            None => {
                let mut ids: Vec<String> = Vec::new();
                ids.push(id_for_conn);
                assert(strings_view(ids@) =~= seq![idv]);
                self.connections.push((connection_id, ids));
                assert(self.conns_view() =~= sub_added(c, connection_id, idv));
            },
        }
        let mut r = state;
        r.topic_pattern = Some(topic.to_owned());
        r
    }

    /// Checks an acknowledgment for `subscription_id` from connection
    /// `connection_id`: accepted only from the connection it is active on.
    pub fn check_acknowledge(&self, subscription_id: &str, connection_id: u64) -> (r: Result<(), ServerError>)
        requires
            self.wf(),
        ensures
            match owner_of(self.active_view(), subscription_id@) {
                Some(o) => if o == connection_id {
                    r is Ok
                } else {
                    r is Err && r->Err_0 is InvalidRequest && r->Err_0->InvalidRequest_0@
                        == not_on_this_connection_message(subscription_id@)
                },
                None => r is Err && r->Err_0 is InvalidRequest && r->Err_0->InvalidRequest_0@
                    == not_active_message(subscription_id@),
            },
    {
        match self.get_connection_id(subscription_id) {
            Some(owner) => {
                if owner == connection_id {
                    Ok(())
                } else {
                    Err(
                        ServerError::InvalidRequest(
                            subscription_message(subscription_id, "' is not active on this connection"),
                        ),
                    )
                }
            },
            None => Err(ServerError::InvalidRequest(subscription_message(subscription_id, "' is not active"))),
        }
    }

    /// Unsubscribes `subscription_id` from connection `connection_id`:
    /// `Ok(true)` when it was active there (it no longer is), `Ok(false)` when
    /// it was not active, an error when it is active on another connection.
    pub fn unsubscribe(&mut self, subscription_id: &str, connection_id: u64) -> (r: Result<bool, ServerError>)
        requires
            old(self).wf(),
        ensures
            final(self).wf(),
            final(self).timeout() == old(self).timeout(),
            match owner_of(old(self).active_view(), subscription_id@) {
                Some(o) => if o == connection_id {
                    &&& r == Ok::<bool, ServerError>(true)
                    &&& final(self).active_view() == deactivated(
                        old(self).active_view(),
                        subscription_id@,
                    )
                    &&& final(self).conns_view() == sub_dropped(
                        old(self).conns_view(),
                        connection_id,
                        subscription_id@,
                    )
                } else {
                    &&& r is Err && r->Err_0 is InvalidRequest && r->Err_0->InvalidRequest_0@
                        == other_connection_message(subscription_id@)
                    &&& final(self).active_view() == old(self).active_view()
                    &&& final(self).conns_view() == old(self).conns_view()
                },
                None => {
                    &&& r == Ok::<bool, ServerError>(false)
                    &&& final(self).active_view() == old(self).active_view()
                    &&& final(self).conns_view() == old(self).conns_view()
                },
            },
    {
        let ghost a = self.active_view();
        let ghost c = self.conns_view();
        let ghost idv = subscription_id@;
        let i = match self.find_active(subscription_id) {
            Some(i) => i,
            None => return Ok(false),
        };
        assert(a[i as int] == info_view(self.active@[i as int]));
        if self.active[i].connection_id != connection_id {
            return Err(
                ServerError::InvalidRequest(
                    subscription_message(subscription_id, "' belongs to another connection"),
                ),
            );
        }
        proof {
            lemma_unsubscribe_keeps_wf(a, c, idv, connection_id);
        }
        let _ = self.active.remove(i);
        assert(self.active_view() =~= deactivated(a, idv));
        match self.find_entry(connection_id) {
            Some(j) => {
                let (k, ids) = self.connections.remove(j);
                let ghost iv = strings_view(ids@);
                assert(iv == c[j as int].1);
                let mut kept: Vec<String> = Vec::new();
                for x in it: ids
                    invariant
                        it.seq() == ids@,
                        idv == subscription_id@,
                        iv == strings_view(ids@),
                        strings_view(kept@) == without_id(iv.take(it.index() as int), idv),
                {
                    assert(iv.take(it.index() + 1).drop_last() =~= iv.take(it.index() as int));
                    assert(iv[it.index() as int] == x@);
                    assert(iv.take(it.index() + 1).last() == x@);
                    let ghost pre = iv.take(it.index() as int);
                    let ghost cur = iv.take(it.index() + 1);
                    assert(without_id(cur, idv) == if x@ != idv {
                        without_id(pre, idv).push(x@)
                    } else {
                        without_id(pre, idv)
                    });
                    let same = str_eq(x.as_str(), subscription_id);
                    if !same {
                        let ghost before = kept@;
                        kept.push(x);
                        assert(strings_view(kept@) =~= strings_view(before).push(x@));
                        assert(strings_view(kept@) == without_id(cur, idv));
                    } else {
                        assert(x@ == idv);
                        assert(strings_view(kept@) == without_id(cur, idv));
                    }
                }
                assert(iv.take(iv.len() as int) =~= iv);
                if kept.len() > 0 {
                    self.connections.insert(j, (k, kept));
                }
                assert(self.conns_view() =~= sub_dropped(c, connection_id, idv));
            },
            None => {},
        }
        Ok(true)
    }

    /// Removes connection `connection_id`: every subscription it registered
    /// stops being active, and its entry goes.
    pub fn remove_connection(&mut self, connection_id: u64)
        requires
            old(self).wf(),
        ensures
            final(self).wf(),
            final(self).timeout() == old(self).timeout(),
            final(self).active_view() == without_ids(
                old(self).active_view(),
                subs_of(old(self).conns_view(), connection_id),
            ),
            final(self).conns_view() == entry_removed(old(self).conns_view(), connection_id),
            forall|x: Seq<char>| #[trigger] owner_of(final(self).active_view(), x) != Some(
                connection_id,
            ),
    {
        let ghost a = self.active_view();
        let ghost c = self.conns_view();
        proof {
            lemma_remove_connection_keeps_wf(a, c, connection_id);
        }
        match self.find_entry(connection_id) {
            Some(j) => {
                let (_k, ids) = self.connections.remove(j);
                assert(self.conns_view() =~= entry_removed(c, connection_id));
                let ghost iv = strings_view(ids@);
                assert(iv == subs_of(c, connection_id));
                let mut old_active: Vec<SubscriptionInfo> = Vec::new();
                std::mem::swap(&mut old_active, &mut self.active);
                let ghost oa = old_active@;
                let ghost t = self.inactivity_timeout;
                let ghost c2 = self.conns_view();
                assert(oa.map_values(|s: SubscriptionInfo| info_view(s)) == a);
                assert(self.active_view() =~= without_ids(a.take(0), iv));
                for info in it: old_active
                    invariant
                        it.seq() == oa,
                        t == self.inactivity_timeout,
                        c2 == self.conns_view(),
                        a == oa.map_values(|s: SubscriptionInfo| info_view(s)),
                        iv == strings_view(ids@),
                        self.active_view() == without_ids(a.take(it.index() as int), iv),
                {
                    assert(a.take(it.index() + 1).drop_last() =~= a.take(it.index() as int));
                    assert(a[it.index() as int] == info_view(info));
                    if !ids_contain(&ids, info.subscription_id.as_str()) {
                        let ghost before = self.active@;
                        self.active.push(info);
                        assert(self.active_view() =~= before.map_values(
                            |s: SubscriptionInfo| info_view(s),
                        ).push(info_view(info)));
                    }
                }
                assert(a.take(a.len() as int) =~= a);
            },
            None => {
                proof {
                    assert(subs_of(c, connection_id) =~= Seq::<Seq<char>>::empty());
                    lemma_without_ids_none(a, subs_of(c, connection_id));
                }
            },
        }
    }

    /// The active subscriptions whose pattern matches `topic`, as (id,
    /// connection) pairs, in the order they became active.
    pub fn get_matching_subscriptions(&self, topic: &str) -> (r: Vec<(String, u64)>)
        ensures
            id_pairs_view(r@) == matching_pairs(self.active_view(), topic@),
            id_pairs_view(r@) == self.active_view().filter(
                |e: ActiveView| nats_pattern::pattern_matches(e.1, topic@),
            ).map_values(|e: ActiveView| (e.0, e.2)),
    {
        let ghost a = self.active_view();
        proof {
            lemma_matching_pairs_are_the_matching_subscriptions(a, topic@);
        }
        let mut r: Vec<(String, u64)> = Vec::new();
        let mut i: usize = 0;
        while i < self.active.len()
            invariant
                a == self.active_view(),
                a.len() == self.active@.len(),
                i <= self.active.len(),
                id_pairs_view(r@) == matching_pairs(a.take(i as int), topic@),
            decreases self.active.len() - i,
        {
            assert(a.take(i + 1).drop_last() =~= a.take(i as int));
            assert(a[i as int] == info_view(self.active@[i as int]));
            let info = &self.active[i];
            if info.pattern.matches(topic) {
                let ghost before = r@;
                r.push((info.subscription_id.clone(), info.connection_id));
                assert(id_pairs_view(r@) =~= id_pairs_view(before).push(
                    (info.subscription_id@, info.connection_id),
                ));
            }
            i = i + 1;
        }
        assert(a.take(a.len() as int) =~= a);
        r
    }

    /// The subscription ids connection `connection_id` registered, in order.
    pub fn get_connection_subscriptions(&self, connection_id: u64) -> (r: Vec<String>)
        requires
            self.wf(),
        ensures
            strings_view(r@) == subs_of(self.conns_view(), connection_id),
    {
        match self.find_entry(connection_id) {
            Some(j) => {
                assert(self.conns_view()[j as int] == entry_view(self.connections@[j as int]));
                self.connections[j].1.clone()
            },
            None => {
                let r: Vec<String> = Vec::new();
                assert(strings_view(r@) =~= Seq::<Seq<char>>::empty());
                r
            },
        }
    }

    /// The ids among the stored subscription states `all` that are to be
    /// cleaned up at `now`: none without an inactivity timeout; otherwise
    /// those not active and inactive for longer than the timeout.
    pub fn inactive_candidates(&self, all: &Vec<SubscriptionState>, now: u64) -> (r: Vec<String>)
        requires
            self.wf(),
        ensures
            match self.timeout() {
                None => r@.len() == 0,
                Some(d) => {
                    &&& strings_view(r@) == cleanup_candidates(
                        self.active_view(),
                        all@,
                        now,
                        retention::duration_secs(d),
                    )
                    &&& strings_view(r@) == all@.filter(
                        |s: SubscriptionState|
                            owner_of(self.active_view(), s.subscription_id@) is None && now
                                - s.last_activity > retention::duration_secs(d),
                    ).map_values(|s: SubscriptionState| s.subscription_id@)
                },
            },
    {
        let mut r: Vec<String> = Vec::new();
        let timeout = match self.inactivity_timeout {
            Some(t) => t,
            None => return r,
        };
        let timeout_secs = retention::whole_secs(timeout);
        proof {
            lemma_cleanup_candidates_are_the_long_inactive(self.active_view(), all@, now, timeout_secs);
        }
        let mut i: usize = 0;
        while i < all.len()
            invariant
                self.wf(),
                i <= all.len(),
                timeout_secs == retention::duration_secs(timeout),
                strings_view(r@) == cleanup_candidates(self.active_view(), all@.take(i as int), now, timeout_secs),
            decreases all.len() - i,
        {
            assert(all@.take(i + 1).drop_last() =~= all@.take(i as int));
            let st = &all[i];
            if !self.is_active(st.subscription_id.as_str()) {
                let inactive = now.saturating_sub(st.last_activity);
                if inactive > timeout_secs {
                    let ghost before = r@;
                    r.push(st.subscription_id.clone());
                    assert(strings_view(r@) =~= strings_view(before).push(st.subscription_id@));
                }
            }
            i = i + 1;
        }
        assert(all@.take(all@.len() as int) =~= all@);
        r
    }

    /// How long an inactive subscription's state is kept (`None`: forever).
    pub fn inactivity_timeout(&self) -> (r: Option<Duration>)
        ensures
            r == self.timeout(),
    {
        self.inactivity_timeout
    }

    /// The number of active subscriptions.
    pub fn active_count(&self) -> (n: usize)
        ensures
            n == self.active_view().len(),
    {
        self.active.len()
    }
}

/// No id is active twice.
pub open spec fn ids_unique(a: Seq<ActiveView>) -> bool {
    forall|i: int, j: int| 0 <= i < j < a.len() ==> #[trigger] a[i].0 != #[trigger] a[j].0
}

/// No connection has two entries, and no entry is empty.
pub open spec fn entries_ok(c: Seq<ConnView>) -> bool {
    &&& forall|i: int, j: int| 0 <= i < j < c.len() ==> #[trigger] c[i].0 != #[trigger] c[j].0
    &&& forall|i: int| 0 <= i < c.len() ==> #[trigger] c[i].1.len() > 0
}

/// The owner of `x` once it is found at position `i`, or when it is nowhere.
proof fn lemma_owner_found(a: Seq<ActiveView>, x: Seq<char>)
    requires
        ids_unique(a),
    ensures
        forall|i: int| 0 <= i < a.len() && a[i].0 == x ==> owner_of(a, x) == Some(#[trigger] a[i].2),
        (forall|i: int| 0 <= i < a.len() ==> #[trigger] a[i].0 != x) ==> owner_of(a, x) is None,
{
    assert forall|i: int| 0 <= i < a.len() && a[i].0 == x implies owner_of(a, x) == Some(
        #[trigger] a[i].2,
    ) by {
        lemma_active_pos_at(a, x, i);
    }
}

/// After `id` becomes active on `conn`, it is owned by `conn`; every other
/// id keeps its owner.
pub proof fn lemma_owner_activated(
    a: Seq<ActiveView>,
    id: Seq<char>,
    p: PatternView,
    conn: u64,
    x: Seq<char>,
)
    requires
        ids_unique(a),
    ensures
        ids_unique(activated(a, id, p, conn)),
        owner_of(activated(a, id, p, conn), x) == if x == id {
            Some(conn)
        } else {
            owner_of(a, x)
        },
{
    let b = activated(a, id, p, conn);
    lemma_owner_found(a, x);
    match active_pos(a, id) {
        Some(i) => {
            assert(a[i].0 == id);
            assert(ids_unique(b)) by {
                assert forall|u: int, v: int| 0 <= u < v < b.len() implies #[trigger] b[u].0
                    != #[trigger] b[v].0 by {
                    assert(b[u].0 == a[u].0 && b[v].0 == a[v].0);
                }
            }
            lemma_owner_found(b, x);
            assert(b[i].0 == id && b[i].2 == conn);
            if x != id {
                assert forall|k: int| 0 <= k < b.len() && b[k].0 == x implies b[k] == a[k] by {}
            }
        },
        None => {
            assert(ids_unique(b)) by {
                assert forall|u: int, v: int| 0 <= u < v < b.len() implies #[trigger] b[u].0
                    != #[trigger] b[v].0 by {
                    if v == a.len() {
                        assert(b[u] == a[u]);
                    }
                }
            }
            lemma_owner_found(b, x);
            assert(b[a.len() as int].0 == id && b[a.len() as int].2 == conn);
            if x != id {
                assert forall|k: int| 0 <= k < b.len() && b[k].0 == x implies b[k] == a[k] by {}
            }
        },
    }
}

/// After `id` stops being active, it has no owner; every other id keeps its owner.
pub proof fn lemma_owner_deactivated(a: Seq<ActiveView>, id: Seq<char>, x: Seq<char>)
    requires
        ids_unique(a),
    ensures
        ids_unique(deactivated(a, id)),
        owner_of(deactivated(a, id), x) == if x == id {
            None
        } else {
            owner_of(a, x)
        },
{
    let b = deactivated(a, id);
    lemma_owner_found(a, x);
    if let Some(i) = active_pos(a, id) {
        assert(a[i].0 == id);
        assert forall|k: int| 0 <= k < b.len() implies #[trigger] b[k] == if k < i {
            a[k]
        } else {
            a[k + 1]
        } by {}
        assert(ids_unique(b)) by {
            assert forall|u: int, v: int| 0 <= u < v < b.len() implies #[trigger] b[u].0
                != #[trigger] b[v].0 by {
                let u2 = if u < i { u } else { u + 1 };
                let v2 = if v < i { v } else { v + 1 };
                assert(b[u] == a[u2] && b[v] == a[v2]);
            }
        }
        lemma_owner_found(b, x);
        if x == id {
            assert forall|k: int| 0 <= k < b.len() implies #[trigger] b[k].0 != x by {
                let k2 = if k < i { k } else { k + 1 };
                assert(b[k] == a[k2]);
                assert(k2 != i);
                if k2 < i {
                    assert(a[k2].0 != a[i].0);
                } else {
                    assert(a[i].0 != a[k2].0);
                }
            }
        } else {
            if let Some(j) = active_pos(a, x) {
                assert(a[j].0 == x);
                assert(j != i);
                let j2 = if j < i { j } else { j - 1 };
                assert(b[j2] == a[j]);
            } else {
                assert forall|k: int| 0 <= k < b.len() implies #[trigger] b[k].0 != x by {
                    let k2 = if k < i { k } else { k + 1 };
                    assert(b[k] == a[k2]);
                }
            }
        }
    }
}

/// The position of `conn`'s entry once it is found at `i`, or when it is nowhere.
proof fn lemma_subs_found(c: Seq<ConnView>, y: u64)
    requires
        entries_ok(c),
    ensures
        forall|i: int| 0 <= i < c.len() && c[i].0 == y ==> subs_of(c, y) == #[trigger] c[i].1,
        (forall|i: int| 0 <= i < c.len() ==> #[trigger] c[i].0 != y) ==> subs_of(c, y)
            == Seq::<Seq<char>>::empty(),
{
    assert forall|i: int| 0 <= i < c.len() && c[i].0 == y implies subs_of(c, y)
        == #[trigger] c[i].1 by {
        lemma_entry_pos_at(c, y, i);
    }
}

/// After `conn` registers `id`, its ids gain `id` at the end; other
/// connections keep theirs.
pub proof fn lemma_subs_added(c: Seq<ConnView>, conn: u64, id: Seq<char>, y: u64)
    requires
        entries_ok(c),
    ensures
        entries_ok(sub_added(c, conn, id)),
        subs_of(sub_added(c, conn, id), y) == if y == conn {
            subs_of(c, conn).push(id)
        } else {
            subs_of(c, y)
        },
{
    let d = sub_added(c, conn, id);
    lemma_subs_found(c, y);
    lemma_subs_found(c, conn);
    match entry_pos(c, conn) {
        Some(i) => {
            assert(c[i].0 == conn);
            assert(entries_ok(d)) by {
                assert forall|u: int, v: int| 0 <= u < v < d.len() implies #[trigger] d[u].0
                    != #[trigger] d[v].0 by {
                    assert(d[u].0 == c[u].0 && d[v].0 == c[v].0);
                }
            }
            lemma_subs_found(d, y);
            assert(d[i].0 == conn);
            if y != conn {
                assert forall|k: int| 0 <= k < d.len() && d[k].0 == y implies d[k] == c[k] by {}
            }
        },
        None => {
            assert(entries_ok(d)) by {
                assert forall|u: int, v: int| 0 <= u < v < d.len() implies #[trigger] d[u].0
                    != #[trigger] d[v].0 by {
                    if v == c.len() {
                        assert(d[u] == c[u]);
                    }
                }
            }
            lemma_subs_found(d, y);
            assert(d[c.len() as int].0 == conn);
            assert(seq![id] =~= Seq::<Seq<char>>::empty().push(id));
            if y != conn {
                assert forall|k: int| 0 <= k < d.len() && d[k].0 == y implies d[k] == c[k] by {}
            }
        },
    }
}

/// `without_id` keeps exactly the ids other than the dropped one.
pub proof fn lemma_without_id_contains(ids: Seq<Seq<char>>, id: Seq<char>, x: Seq<char>)
    ensures
        without_id(ids, id).contains(x) <==> (ids.contains(x) && x != id),
    decreases ids.len(),
{
    if ids.len() > 0 {
        let d = ids.drop_last();
        lemma_without_id_contains(d, id, x);
        let w = without_id(d, id);
        if w.contains(x) {
            let k = choose|k: int| 0 <= k < w.len() && w[k] == x;
            if ids.last() != id {
                assert(without_id(ids, id)[k] == x);
            }
        }
        if without_id(ids, id).contains(x) {
            let k = choose|k: int| 0 <= k < without_id(ids, id).len() && without_id(ids, id)[k] == x;
            if k < w.len() {
                assert(w[k] == x);
            } else {
                assert(ids[ids.len() - 1] == x);
            }
        }
        if ids.contains(x) && x != id {
            let k = choose|k: int| 0 <= k < ids.len() && ids[k] == x;
            if k < ids.len() - 1 {
                assert(d[k] == x);
            } else {
                assert(without_id(ids, id) == w.push(x));
                assert(without_id(ids, id)[w.len() as int] == x);
            }
        }
        if d.contains(x) {
            let k = choose|k: int| 0 <= k < d.len() && d[k] == x;
            assert(ids[k] == x);
        }
    }
}

/// After `conn` drops `id`, its ids are the others; other connections keep theirs.
#[verifier::rlimit(50)]
pub proof fn lemma_subs_dropped(c: Seq<ConnView>, conn: u64, id: Seq<char>, y: u64)
    requires
        entries_ok(c),
    ensures
        entries_ok(sub_dropped(c, conn, id)),
        subs_of(sub_dropped(c, conn, id), y) == if y == conn {
            without_id(subs_of(c, conn), id)
        } else {
            subs_of(c, y)
        },
{
    let d = sub_dropped(c, conn, id);
    lemma_subs_found(c, y);
    lemma_subs_found(c, conn);
    match entry_pos(c, conn) {
        Some(i) => {
            assert(c[i].0 == conn);
            let w = without_id(c[i].1, id);
            if w.len() == 0 {
                assert(entries_ok(d)) by {
                    assert forall|u: int, v: int| 0 <= u < v < d.len() implies #[trigger] d[u].0
                        != #[trigger] d[v].0 by {
                        let u2 = if u < i { u } else { u + 1 };
                        let v2 = if v < i { v } else { v + 1 };
                        assert(d[u] == c[u2] && d[v] == c[v2]);
                    }
                    assert forall|k: int| 0 <= k < d.len() implies #[trigger] d[k].1.len() > 0 by {
                        let k2 = if k < i { k } else { k + 1 };
                        assert(d[k] == c[k2]);
                    }
                }
                lemma_subs_found(d, y);
                assert forall|k: int| 0 <= k < d.len() implies #[trigger] d[k] == c[if k < i {
                    k
                } else {
                    k + 1
                }] by {}
                if y == conn {
                    assert forall|k: int| 0 <= k < d.len() implies #[trigger] d[k].0 != y by {
                        let k2 = if k < i { k } else { k + 1 };
                        assert(d[k] == c[k2]);
                        if k2 < i {
                            assert(c[k2].0 != c[i].0);
                        } else {
                            assert(c[i].0 != c[k2].0);
                        }
                    }
                    assert(w =~= Seq::<Seq<char>>::empty());
                } else {
                    if let Some(j) = entry_pos(c, y) {
                        assert(c[j].0 == y);
                        let j2 = if j < i { j } else { j - 1 };
                        assert(d[j2] == c[j]);
                    } else {
                        assert forall|k: int| 0 <= k < d.len() implies #[trigger] d[k].0 != y by {
                            let k2 = if k < i { k } else { k + 1 };
                            assert(d[k] == c[k2]);
                        }
                    }
                }
            } else {
                assert(entries_ok(d)) by {
                    assert forall|u: int, v: int| 0 <= u < v < d.len() implies #[trigger] d[u].0
                        != #[trigger] d[v].0 by {
                        assert(d[u].0 == c[u].0 && d[v].0 == c[v].0);
                    }
                }
                lemma_subs_found(d, y);
                assert(d[i].0 == conn);
                if y != conn {
                    assert forall|k: int| 0 <= k < d.len() && d[k].0 == y implies d[k] == c[k] by {}
                }
            }
        },
        None => {
            if y == conn {
                assert(without_id(Seq::<Seq<char>>::empty(), id) =~= Seq::<Seq<char>>::empty());
            }
        },
    }
}

/// After the entry of `conn` goes, `conn` has no ids; others keep theirs.
#[verifier::rlimit(50)]
pub proof fn lemma_entry_removed(c: Seq<ConnView>, conn: u64, y: u64)
    requires
        entries_ok(c),
    ensures
        entries_ok(entry_removed(c, conn)),
        subs_of(entry_removed(c, conn), y) == if y == conn {
            Seq::<Seq<char>>::empty()
        } else {
            subs_of(c, y)
        },
{
    let d = entry_removed(c, conn);
    lemma_subs_found(c, y);
    if let Some(i) = entry_pos(c, conn) {
        assert(c[i].0 == conn);
        assert forall|k: int| 0 <= k < d.len() implies #[trigger] d[k] == c[if k < i {
            k
        } else {
            k + 1
        }] by {}
        assert(entries_ok(d)) by {
            assert forall|u: int, v: int| 0 <= u < v < d.len() implies #[trigger] d[u].0
                != #[trigger] d[v].0 by {
                let u2 = if u < i { u } else { u + 1 };
                let v2 = if v < i { v } else { v + 1 };
                assert(d[u] == c[u2] && d[v] == c[v2]);
            }
            assert forall|k: int| 0 <= k < d.len() implies #[trigger] d[k].1.len() > 0 by {
                let k2 = if k < i { k } else { k + 1 };
                assert(d[k] == c[k2]);
            }
        }
        lemma_subs_found(d, y);
        if y == conn {
            assert forall|k: int| 0 <= k < d.len() implies #[trigger] d[k].0 != y by {
                let k2 = if k < i { k } else { k + 1 };
                assert(d[k] == c[k2]);
                if k2 < i {
                    assert(c[k2].0 != c[i].0);
                } else {
                    assert(c[i].0 != c[k2].0);
                }
            }
        } else {
            if let Some(j) = entry_pos(c, y) {
                assert(c[j].0 == y);
                let j2 = if j < i { j } else { j - 1 };
                assert(d[j2] == c[j]);
            } else {
                assert forall|k: int| 0 <= k < d.len() implies #[trigger] d[k].0 != y by {
                    let k2 = if k < i { k } else { k + 1 };
                    assert(d[k] == c[k2]);
                }
            }
        }
    } else {
        if y == conn {
            lemma_subs_found(c, conn);
        }
    }
}

/// Dropping the subscriptions with ids in `ids`: they have no owner after;
/// every other id keeps its owner.
pub proof fn lemma_owner_without_ids(a: Seq<ActiveView>, ids: Seq<Seq<char>>, x: Seq<char>)
    requires
        ids_unique(a),
    ensures
        ids_unique(without_ids(a, ids)),
        forall|k: int| 0 <= k < without_ids(a, ids).len() ==> a.contains(
            #[trigger] without_ids(a, ids)[k],
        ),
        owner_of(without_ids(a, ids), x) == if ids.contains(x) {
            None
        } else {
            owner_of(a, x)
        },
    decreases a.len(),
{
    let b = without_ids(a, ids);
    lemma_owner_found(a, x);
    if a.len() == 0 {
        assert(b.len() == 0);
    }
    if a.len() > 0 {
        let d = a.drop_last();
        let l = a.last();
        assert(ids_unique(d)) by {
            assert forall|u: int, v: int| 0 <= u < v < d.len() implies #[trigger] d[u].0
                != #[trigger] d[v].0 by {
                assert(d[u] == a[u] && d[v] == a[v]);
            }
        }
        lemma_owner_without_ids(d, ids, x);
        let e = without_ids(d, ids);
        lemma_owner_found(d, x);
        assert forall|k: int| 0 <= k < e.len() implies #[trigger] e[k].0 != l.0 by {
            assert(d.contains(e[k]));
            let j = choose|j: int| 0 <= j < d.len() && d[j] == e[k];
            assert(a[j] == d[j]);
            assert(a[j].0 != a[a.len() - 1].0);
        }
        assert forall|k: int| 0 <= k < b.len() implies a.contains(#[trigger] b[k]) by {
            if k < e.len() {
                assert(b[k] == e[k]);
                assert(d.contains(e[k]));
                let j = choose|j: int| 0 <= j < d.len() && d[j] == e[k];
                assert(a[j] == d[j]);
            } else {
                assert(b[k] == l);
                assert(a[a.len() - 1] == l);
            }
        }
        assert(ids_unique(b)) by {
            assert forall|u: int, v: int| 0 <= u < v < b.len() implies #[trigger] b[u].0
                != #[trigger] b[v].0 by {
                if v < e.len() {
                    assert(b[u] == e[u] && b[v] == e[v]);
                } else {
                    assert(b[u] == e[u]);
                    assert(b[v] == l);
                }
            }
        }
        lemma_owner_found(e, x);
        lemma_owner_found(b, x);
        if x == l.0 {
            assert(a[a.len() - 1].0 == x);
            assert forall|k: int| 0 <= k < d.len() implies #[trigger] d[k].0 != x by {
                assert(a[k] == d[k]);
                assert(a[k].0 != a[a.len() - 1].0);
            }
            if !ids.contains(x) {
                assert(b[e.len() as int] == l);
            } else {
                assert forall|k: int| 0 <= k < b.len() implies #[trigger] b[k].0 != x by {
                    assert(b[k] == e[k]);
                }
            }
        } else {
            assert forall|k: int| 0 <= k < a.len() && a[k].0 == x implies k < d.len()
                && #[trigger] d[k] == a[k] by {}
            if let Some(j) = active_pos(d, x) {
                assert(d[j].0 == x);
                assert(a[j] == d[j]);
            } else {
                assert forall|k: int| 0 <= k < a.len() implies #[trigger] a[k].0 != x by {
                    if k < d.len() {
                        assert(d[k] == a[k]);
                    }
                }
            }
            if let Some(j) = active_pos(e, x) {
                assert(e[j].0 == x);
                assert(b[j] == e[j]);
            } else {
                assert forall|k: int| 0 <= k < b.len() implies #[trigger] b[k].0 != x by {
                    if k < e.len() {
                        assert(b[k] == e[k]);
                    }
                }
            }
        }
    }
}

/// Registering `id` on `conn` keeps the manager's invariant, when `id` is
/// inactive or already active on `conn`.
pub proof fn lemma_registration_keeps_wf(
    a: Seq<ActiveView>,
    c: Seq<ConnView>,
    id: Seq<char>,
    p: PatternView,
    conn: u64,
)
    requires
        registry_wf(a, c),
        owner_of(a, id) is None || owner_of(a, id) == Some(conn),
    ensures
        registry_wf(activated(a, id, p, conn), sub_added(c, conn, id)),
        owner_of(activated(a, id, p, conn), id) == Some(conn),
{
    let a2 = activated(a, id, p, conn);
    let c2 = sub_added(c, conn, id);
    lemma_owner_activated(a, id, p, conn, id);
    lemma_subs_added(c, conn, id, conn);
    assert forall|y: u64, x: Seq<char>| #[trigger] subs_of(c2, y).contains(x) <==> owner_of(a2, x)
        == Some(y) by {
        lemma_owner_activated(a, id, p, conn, x);
        lemma_subs_added(c, conn, id, y);
        if y == conn {
            let s = subs_of(c, conn);
            if s.push(id).contains(x) && x != id {
                let k = choose|k: int| 0 <= k < s.push(id).len() && s.push(id)[k] == x;
                assert(s[k] == x);
            }
            if s.contains(x) {
                let k = choose|k: int| 0 <= k < s.len() && s[k] == x;
                assert(s.push(id)[k] == x);
            }
            if x == id {
                assert(s.push(id)[s.len() as int] == id);
            }
        } else {
            assert(subs_of(c, y).contains(x) <==> owner_of(a, x) == Some(y));
        }
    }
}

/// Dropping `id` from its owner `conn` keeps the manager's invariant.
pub proof fn lemma_unsubscribe_keeps_wf(a: Seq<ActiveView>, c: Seq<ConnView>, id: Seq<char>, conn: u64)
    requires
        registry_wf(a, c),
        owner_of(a, id) == Some(conn),
    ensures
        registry_wf(deactivated(a, id), sub_dropped(c, conn, id)),
        owner_of(deactivated(a, id), id) is None,
{
    let a2 = deactivated(a, id);
    let c2 = sub_dropped(c, conn, id);
    lemma_owner_deactivated(a, id, id);
    lemma_subs_dropped(c, conn, id, conn);
    assert forall|y: u64, x: Seq<char>| #[trigger] subs_of(c2, y).contains(x) <==> owner_of(a2, x)
        == Some(y) by {
        lemma_owner_deactivated(a, id, x);
        lemma_subs_dropped(c, conn, id, y);
        if y == conn {
            lemma_without_id_contains(subs_of(c, conn), id, x);
        } else {
            assert(subs_of(c, y).contains(x) <==> owner_of(a, x) == Some(y));
        }
    }
}

/// Removing connection `conn` keeps the manager's invariant, and leaves no
/// subscription active on it.
pub proof fn lemma_remove_connection_keeps_wf(a: Seq<ActiveView>, c: Seq<ConnView>, conn: u64)
    requires
        registry_wf(a, c),
    ensures
        registry_wf(without_ids(a, subs_of(c, conn)), entry_removed(c, conn)),
        forall|x: Seq<char>| #[trigger] owner_of(without_ids(a, subs_of(c, conn)), x) != Some(conn),
{
    let ids = subs_of(c, conn);
    let a2 = without_ids(a, ids);
    let c2 = entry_removed(c, conn);
    lemma_owner_without_ids(a, ids, Seq::empty());
    lemma_entry_removed(c, conn, conn);
    assert forall|y: u64, x: Seq<char>| #[trigger] subs_of(c2, y).contains(x) <==> owner_of(a2, x)
        == Some(y) by {
        lemma_owner_without_ids(a, ids, x);
        lemma_entry_removed(c, conn, y);
        assert(subs_of(c, y).contains(x) <==> owner_of(a, x) == Some(y));
        assert(subs_of(c, conn).contains(x) <==> owner_of(a, x) == Some(conn));
    }
    assert forall|x: Seq<char>| #[trigger] owner_of(a2, x) != Some(conn) by {
        lemma_owner_without_ids(a, ids, x);
        assert(subs_of(c, conn).contains(x) <==> owner_of(a, x) == Some(conn));
    }
}

/// Dropping no ids keeps every subscription.
proof fn lemma_without_ids_none(a: Seq<ActiveView>, ids: Seq<Seq<char>>)
    requires
        ids.len() == 0,
    ensures
        without_ids(a, ids) == a,
    decreases a.len(),
{
    if a.len() > 0 {
        lemma_without_ids_none(a.drop_last(), ids);
        assert(a.drop_last().push(a.last()) =~= a);
    }
}

/// With unique ids, the subscription `id` is at `i` when `a[i]` has that id.
pub proof fn lemma_active_pos_at(a: Seq<ActiveView>, id: Seq<char>, i: int)
    requires
        forall|x: int, y: int| 0 <= x < y < a.len() ==> #[trigger] a[x].0 != #[trigger] a[y].0,
        0 <= i < a.len(),
        a[i].0 == id,
    ensures
        active_pos(a, id) == Some(i),
{
    let k = choose|k: int| 0 <= k < a.len() && a[k].0 == id;
    if k < i {
        assert(a[k].0 != a[i].0);
    } else if k > i {
        assert(a[i].0 != a[k].0);
    }
}

/// With unique connections, the entry of `conn` is at `i` when `c[i]` is its.
pub proof fn lemma_entry_pos_at(c: Seq<ConnView>, conn: u64, i: int)
    requires
        forall|x: int, y: int| 0 <= x < y < c.len() ==> #[trigger] c[x].0 != #[trigger] c[y].0,
        0 <= i < c.len(),
        c[i].0 == conn,
    ensures
        entry_pos(c, conn) == Some(i),
{
    let k = choose|k: int| 0 <= k < c.len() && c[k].0 == conn;
    if k < i {
        assert(c[k].0 != c[i].0);
    } else if k > i {
        assert(c[i].0 != c[k].0);
    }
}

} // verus!
