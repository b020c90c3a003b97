//! Retention policies for persistent messages.
//!
//! A policy limits how long messages are kept: by age, by count (keep the
//! latest N), or by total size. A message is kept only when it satisfies every
//! limit that is set; when a count or size limit is exceeded, the oldest
//! messages go first.
use vstd::prelude::*;

use std::time::Duration;

verus! {

/// The whole seconds held by a duration (`Duration::as_secs`).
pub uninterp spec fn duration_secs(d: Duration) -> u64;

/// `Duration::as_secs`: the number of whole seconds in `d`.
#[verifier::external_body]
pub(crate) fn whole_secs(d: Duration) -> (s: u64)
    ensures
        s == duration_secs(d),
{
    d.as_secs()
}

/// Retention policy for a topic. `None` leaves a criterion unlimited.
#[derive(Debug, Clone, Copy)]
pub struct RetentionPolicy {
    /// Maximum age of messages
    pub max_age: Option<Duration>,
    /// Maximum number of messages to keep
    pub max_count: Option<usize>,
    /// Maximum total size in bytes
    pub max_bytes: Option<usize>,
}

/// `a - b`, or 0 when `b` exceeds `a`.
pub open spec fn sat_sub(a: int, b: int) -> int {
    if a >= b {
        a - b
    } else {
        0
    }
}

/// The age limit of a policy, in whole seconds.
pub open spec fn age_limit(p: RetentionPolicy) -> Option<u64> {
    match p.max_age {
        Some(d) => Some(duration_secs(d)),
        None => None,
    }
}

/// Whether a message stamped `ts` is young enough at time `now`.
pub open spec fn retains_by_age(p: RetentionPolicy, ts: u64, now: u64) -> bool {
    match age_limit(p) {
        Some(limit) => sat_sub(now as int, ts as int) <= limit,
        None => true,
    }
}

/// Whether any limit is set.
pub open spec fn limited(p: RetentionPolicy) -> bool {
    p.max_age is Some || p.max_count is Some || p.max_bytes is Some
}

impl RetentionPolicy {
    /// A policy with no limits.
    pub fn unlimited() -> (p: Self)
        ensures
            p.max_age is None,
            p.max_count is None,
            p.max_bytes is None,
    {
        RetentionPolicy { max_age: None, max_count: None, max_bytes: None }
    }

    /// A policy with only an age limit.
    pub fn by_age(duration: Duration) -> (p: Self)
        ensures
            p.max_age == Some(duration),
            p.max_count is None,
            p.max_bytes is None,
    {
        RetentionPolicy { max_age: Some(duration), max_count: None, max_bytes: None }
    }

    /// A policy with only a count limit.
    pub fn by_count(count: usize) -> (p: Self)
        ensures
            p.max_age is None,
            p.max_count == Some(count),
            p.max_bytes is None,
    {
        RetentionPolicy { max_age: None, max_count: Some(count), max_bytes: None }
    }

    /// A policy with only a size limit.
    pub fn by_size(bytes: usize) -> (p: Self)
        ensures
            p.max_age is None,
            p.max_count is None,
            p.max_bytes == Some(bytes),
    {
        RetentionPolicy { max_age: None, max_count: None, max_bytes: Some(bytes) }
    }

    /// Whether a message stamped `message_timestamp` is within the age limit
    /// at `current_timestamp` (a message from the future has age 0).
    pub fn should_retain_by_age(&self, message_timestamp: u64, current_timestamp: u64) -> (r: bool)
        ensures
            r == retains_by_age(*self, message_timestamp, current_timestamp),
    {
        match self.max_age {
            Some(max_age) => {
                let age_secs = current_timestamp.saturating_sub(message_timestamp);
                age_secs <= whole_secs(max_age)
            },
            None => true,
        }
    }

    /// Whether `current_count` messages are within the count limit.
    pub fn should_retain_by_count(&self, current_count: usize) -> (r: bool)
        ensures
            r == match self.max_count {
                Some(m) => current_count <= m,
                None => true,
            },
    {
        match self.max_count {
            Some(max_count) => current_count <= max_count,
            None => true,
        }
    }

    /// Whether `current_bytes` bytes are within the size limit.
    pub fn should_retain_by_size(&self, current_bytes: usize) -> (r: bool)
        ensures
            r == match self.max_bytes {
                Some(m) => current_bytes <= m,
                None => true,
            },
    {
        match self.max_bytes {
            Some(max_bytes) => current_bytes <= max_bytes,
            None => true,
        }
    }

    /// Whether any limit is configured.
    pub fn has_limits(&self) -> (r: bool)
        ensures
            r == limited(*self),
    {
        self.max_age.is_some() || self.max_count.is_some() || self.max_bytes.is_some()
    }
}

impl Default for RetentionPolicy {
    fn default() -> (p: Self)
        ensures
            !limited(p),
    {
        Self::unlimited()
    }
}

/// The total size of a sequence of (timestamp, size) message stamps.
pub open spec fn sum_sizes(msgs: Seq<(u64, usize)>) -> nat
    decreases msgs.len(),
{
    if msgs.len() == 0 {
        0
    } else {
        sum_sizes(msgs.drop_last()) + msgs.last().1 as nat
    }
}

/// The state of a retention pass: the message count and byte total that the
/// count and size limits are checked against.
pub struct RetentionState {
    pub count: nat,
    pub bytes: nat,
}

/// One step of a retention pass over the message stamped `ts` with `size`
/// bytes: whether it is deleted, and the next state. The count limit deletes
/// while the count exceeds it and counts each such deletion; the size limit
/// deletes while the byte total exceeds it and takes the message's size off
/// the total (not below 0); the age limit deletes old messages without
/// changing the state.
pub open spec fn retention_step(
    p: RetentionPolicy,
    now: u64,
    st: RetentionState,
    ts: u64,
    size: nat,
) -> (RetentionState, bool) {
    let by_age = !retains_by_age(p, ts, now);
    let by_count = match p.max_count {
        Some(m) => st.count > m,
        None => false,
    };
    let count2: nat = if by_count {
        (st.count - 1) as nat
    } else {
        st.count
    };
    let by_size = match p.max_bytes {
        Some(m) => st.bytes > m,
        None => false,
    };
    let bytes2: nat = if by_size {
        sat_sub(st.bytes as int, size as int) as nat
    } else {
        st.bytes
    };
    (RetentionState { count: count2, bytes: bytes2 }, by_age || by_count || by_size)
}

/// A retention pass over `msgs`, oldest first, from state `st`: which
/// messages are deleted, and the final state.
pub open spec fn retention_run(
    p: RetentionPolicy,
    now: u64,
    st: RetentionState,
    msgs: Seq<(u64, usize)>,
) -> (Seq<bool>, RetentionState)
    decreases msgs.len(),
{
    if msgs.len() == 0 {
        (Seq::empty(), st)
    } else {
        let (flags, mid) = retention_run(p, now, st, msgs.drop_last());
        let (next, del) = retention_step(p, now, mid, msgs.last().0, msgs.last().1 as nat);
        (flags.push(del), next)
    }
}

/// The retention pass over all the messages of a topic: it starts from their
/// number and their total size.
pub open spec fn retention_pass(p: RetentionPolicy, now: u64, msgs: Seq<(u64, usize)>) -> (
    Seq<bool>,
    RetentionState,
) {
    retention_run(p, now, RetentionState { count: msgs.len(), bytes: sum_sizes(msgs) }, msgs)
}

/// The outcome of a retention pass.
pub struct RetentionSelection {
    /// For each message, oldest first, whether it is to be deleted
    pub delete: Vec<bool>,
    /// How many messages are to be deleted
    pub deleted_count: usize,
    /// The byte total that the size limit ended with
    pub remaining_bytes: usize,
}

/// The number of `true` flags.
pub open spec fn count_true(flags: Seq<bool>) -> nat
    decreases flags.len(),
{
    if flags.len() == 0 {
        0
    } else {
        count_true(flags.drop_last()) + if flags.last() {
            1nat
        } else {
            0nat
        }
    }
}

/// The sizes of a prefix never exceed those of the whole.
pub proof fn lemma_sum_sizes_prefix(msgs: Seq<(u64, usize)>, k: int)
    requires
        0 <= k <= msgs.len(),
    ensures
        sum_sizes(msgs.take(k)) <= sum_sizes(msgs),
    decreases msgs.len() - k,
{
    if k < msgs.len() {
        lemma_sum_sizes_prefix(msgs, k + 1);
        assert(msgs.take(k + 1).drop_last() =~= msgs.take(k));
    } else {
        assert(msgs.take(k) =~= msgs);
    }
}

/// A retention pass never raises the count or the byte total.
pub proof fn lemma_retention_run_bounds(
    p: RetentionPolicy,
    now: u64,
    st: RetentionState,
    msgs: Seq<(u64, usize)>,
)
    ensures
        retention_run(p, now, st, msgs).0.len() == msgs.len(),
        retention_run(p, now, st, msgs).1.count <= st.count,
        retention_run(p, now, st, msgs).1.bytes <= st.bytes,
        count_true(retention_run(p, now, st, msgs).0) <= msgs.len(),
    decreases msgs.len(),
{
    if msgs.len() > 0 {
        lemma_retention_run_bounds(p, now, st, msgs.drop_last());
        let flags = retention_run(p, now, st, msgs.drop_last()).0;
        let del = retention_run(p, now, st, msgs).0.last();
        assert(retention_run(p, now, st, msgs).0.drop_last() =~= flags);
    }
}

/// The flag of message `i` in a pass is decided by the step on message `i`
/// from the state the pass reached on the messages before it.
pub proof fn lemma_run_flag(
    p: RetentionPolicy,
    now: u64,
    st: RetentionState,
    msgs: Seq<(u64, usize)>,
    i: int,
)
    requires
        0 <= i < msgs.len(),
    ensures
        retention_run(p, now, st, msgs).0[i] == retention_step(
            p,
            now,
            retention_run(p, now, st, msgs.take(i)).1,
            msgs[i].0,
            msgs[i].1 as nat,
        ).1,
    decreases msgs.len(),
{
    let d = msgs.drop_last();
    lemma_retention_run_bounds(p, now, st, d);
    if i == msgs.len() - 1 {
        assert(msgs.take(i) =~= d);
    } else {
        lemma_run_flag(p, now, st, d, i);
        assert(d.take(i) =~= msgs.take(i));
        assert(d[i] == msgs[i]);
    }
}

/// A policy without limits deletes nothing.
pub proof fn lemma_unlimited_deletes_nothing(
    p: RetentionPolicy,
    now: u64,
    msgs: Seq<(u64, usize)>,
    i: int,
)
    requires
        !limited(p),
        0 <= i < msgs.len(),
    ensures
        !retention_pass(p, now, msgs).0[i],
{
    let st = RetentionState { count: msgs.len(), bytes: sum_sizes(msgs) };
    lemma_run_flag(p, now, st, msgs, i);
}

/// Every message that a pass keeps is within the age limit: a message is kept
/// only if it satisfies all the limits that are set.
pub proof fn lemma_kept_within_age(p: RetentionPolicy, now: u64, msgs: Seq<(u64, usize)>, i: int)
    requires
        0 <= i < msgs.len(),
        !retention_pass(p, now, msgs).0[i],
    ensures
        retains_by_age(p, msgs[i].0, now),
{
    let st = RetentionState { count: msgs.len(), bytes: sum_sizes(msgs) };
    lemma_run_flag(p, now, st, msgs, i);
}

/// Under an age limit alone, a message is deleted exactly when it is too old.
pub proof fn lemma_age_only_deletes_old(
    p: RetentionPolicy,
    now: u64,
    msgs: Seq<(u64, usize)>,
    i: int,
)
    requires
        p.max_count is None,
        p.max_bytes is None,
        0 <= i < msgs.len(),
    ensures
        retention_pass(p, now, msgs).0[i] == !retains_by_age(p, msgs[i].0, now),
{
    let st = RetentionState { count: msgs.len(), bytes: sum_sizes(msgs) };
    lemma_run_flag(p, now, st, msgs, i);
}

/// The count a count-only pass reaches: it drops one per message while the
/// count exceeds the limit.
proof fn lemma_count_only_state(
    p: RetentionPolicy,
    now: u64,
    st: RetentionState,
    msgs: Seq<(u64, usize)>,
    m: usize,
)
    requires
        p.max_age is None,
        p.max_bytes is None,
        p.max_count == Some(m),
    ensures
        retention_run(p, now, st, msgs).1.count == st.count - (if msgs.len() < sat_sub(
            st.count as int,
            m as int,
        ) {
            msgs.len() as int
        } else {
            sat_sub(st.count as int, m as int)
        }),
    decreases msgs.len(),
{
    if msgs.len() > 0 {
        lemma_count_only_state(p, now, st, msgs.drop_last(), m);
    }
}

/// Under a count limit alone, exactly the oldest messages beyond the limit
/// are deleted: the latest `max_count` are kept.
pub proof fn lemma_count_only_keeps_latest(
    p: RetentionPolicy,
    now: u64,
    msgs: Seq<(u64, usize)>,
    m: usize,
    i: int,
)
    requires
        p.max_age is None,
        p.max_bytes is None,
        p.max_count == Some(m),
        0 <= i < msgs.len(),
    ensures
        retention_pass(p, now, msgs).0[i] == (i < msgs.len() - m),
{
    let st = RetentionState { count: msgs.len(), bytes: sum_sizes(msgs) };
    lemma_run_flag(p, now, st, msgs, i);
    lemma_count_only_state(p, now, st, msgs.take(i), m);
}

/// The sizes of the first `k` messages and of the rest add up to the total.
pub proof fn lemma_sum_sizes_split(msgs: Seq<(u64, usize)>, k: int)
    requires
        0 <= k <= msgs.len(),
    ensures
        sum_sizes(msgs.take(k)) + sum_sizes(msgs.skip(k)) == sum_sizes(msgs),
    decreases msgs.len(),
{
    if k == msgs.len() {
        assert(msgs.take(k) =~= msgs);
        assert(msgs.skip(k).len() == 0);
    } else {
        let d = msgs.drop_last();
        lemma_sum_sizes_split(d, k);
        assert(d.take(k) =~= msgs.take(k));
        assert(msgs.skip(k).drop_last() =~= d.skip(k));
        assert(msgs.skip(k).last() == msgs.last());
    }
}

/// The byte total a size-only pass reaches after the first `j` messages,
/// where `rest` is the size of the messages from `j` on: while `rest` is over
/// the limit the total is `rest`; after that it stays between `rest` and the limit.
proof fn lemma_size_only_state(p: RetentionPolicy, now: u64, msgs: Seq<(u64, usize)>, m: usize, j: int)
    requires
        p.max_age is None,
        p.max_count is None,
        p.max_bytes == Some(m),
        0 <= j <= msgs.len(),
    ensures
        ({
            let b = retention_run(
                p,
                now,
                RetentionState { count: msgs.len(), bytes: sum_sizes(msgs) },
                msgs.take(j),
            ).1.bytes;
            let rest = sum_sizes(msgs) - sum_sizes(msgs.take(j));
            &&& rest > m ==> b == rest
            &&& rest <= m ==> rest <= b <= m
        }),
    decreases j,
{
    let st = RetentionState { count: msgs.len(), bytes: sum_sizes(msgs) };
    lemma_sum_sizes_prefix(msgs, j);
    if j == 0 {
        assert(msgs.take(0) =~= Seq::<(u64, usize)>::empty());
    } else {
        lemma_size_only_state(p, now, msgs, m, j - 1);
        lemma_sum_sizes_prefix(msgs, j - 1);
        assert(msgs.take(j).drop_last() =~= msgs.take(j - 1));
        assert(msgs.take(j).last() == msgs[j - 1]);
    }
}

/// Under a size limit alone, a message is deleted exactly when it and the
/// newer messages together exceed the limit: the oldest go first, and the
/// kept messages fit within the limit.
pub proof fn lemma_size_only_keeps_newest_that_fit(
    p: RetentionPolicy,
    now: u64,
    msgs: Seq<(u64, usize)>,
    m: usize,
    i: int,
)
    requires
        p.max_age is None,
        p.max_count is None,
        p.max_bytes == Some(m),
        0 <= i < msgs.len(),
    ensures
        retention_pass(p, now, msgs).0[i] == (sum_sizes(msgs.skip(i)) > m),
{
    let st = RetentionState { count: msgs.len(), bytes: sum_sizes(msgs) };
    lemma_run_flag(p, now, st, msgs, i);
    lemma_size_only_state(p, now, msgs, m, i);
    lemma_sum_sizes_split(msgs, i);
}

/// The total size of the messages a pass keeps (those flagged `false`).
pub open spec fn kept_size(flags: Seq<bool>, msgs: Seq<(u64, usize)>) -> nat
    decreases msgs.len(),
{
    if msgs.len() == 0 || flags.len() == 0 {
        0
    } else {
        kept_size(flags.drop_last(), msgs.drop_last()) + if flags.last() {
            0nat
        } else {
            msgs.last().1 as nat
        }
    }
}

/// The pass over the first `j` messages, from the initial state of the whole.
pub open spec fn pass_prefix(p: RetentionPolicy, now: u64, msgs: Seq<(u64, usize)>, j: int) -> (
    Seq<bool>,
    RetentionState,
) {
    retention_run(
        p,
        now,
        RetentionState { count: msgs.len(), bytes: sum_sizes(msgs) },
        msgs.take(j),
    )
}

/// One more message extends the pass by one step.
proof fn lemma_pass_prefix_step(p: RetentionPolicy, now: u64, msgs: Seq<(u64, usize)>, j: int)
    requires
        0 <= j < msgs.len(),
    ensures
        pass_prefix(p, now, msgs, j + 1) == ({
            let (flags, st) = pass_prefix(p, now, msgs, j);
            let (next, del) = retention_step(p, now, st, msgs[j].0, msgs[j].1 as nat);
            (flags.push(del), next)
        }),
        pass_prefix(p, now, msgs, j + 1).0.drop_last() == pass_prefix(p, now, msgs, j).0,
        pass_prefix(p, now, msgs, j).0.len() == j,
{
    assert(msgs.take(j + 1).drop_last() =~= msgs.take(j));
    assert(msgs.take(j + 1).last() == msgs[j]);
    let st = RetentionState { count: msgs.len(), bytes: sum_sizes(msgs) };
    lemma_retention_run_bounds(p, now, st, msgs.take(j));
    let flags = pass_prefix(p, now, msgs, j).0;
    let del = retention_step(p, now, pass_prefix(p, now, msgs, j).1, msgs[j].0, msgs[j].1 as nat).1;
    assert(flags.push(del).drop_last() =~= flags);
}

/// Under a count limit, while the count stays over the limit every message
/// so far was deleted; the messages kept so far and those still to come
/// never outnumber the count.
proof fn lemma_count_state(p: RetentionPolicy, now: u64, msgs: Seq<(u64, usize)>, m: usize, j: int)
    requires
        p.max_count == Some(m),
        0 <= j <= msgs.len(),
    ensures
        ({
            let (flags, st) = pass_prefix(p, now, msgs, j);
            &&& (j - count_true(flags)) + (msgs.len() - j) <= st.count
            &&& st.count > m ==> st.count == msgs.len() - j && count_true(flags) == j
        }),
    decreases j,
{
    if j == 0 {
        assert(msgs.take(0) =~= Seq::<(u64, usize)>::empty());
    } else {
        lemma_count_state(p, now, msgs, m, j - 1);
        lemma_pass_prefix_step(p, now, msgs, j - 1);
        let st = RetentionState { count: msgs.len(), bytes: sum_sizes(msgs) };
        lemma_retention_run_bounds(p, now, st, msgs.take(j - 1));
        lemma_retention_run_bounds(p, now, st, msgs.take(j));
    }
}

/// A pass under a count limit keeps at most that many messages.
pub proof fn lemma_kept_within_count(p: RetentionPolicy, now: u64, msgs: Seq<(u64, usize)>, m: usize)
    requires
        p.max_count == Some(m),
    ensures
        msgs.len() - count_true(retention_pass(p, now, msgs).0) <= m,
{
    lemma_count_state(p, now, msgs, m, msgs.len() as int);
    assert(msgs.take(msgs.len() as int) =~= msgs);
}

/// Under a size limit, the messages kept so far and those still to come
/// never outweigh the byte total; while the total stays over the limit,
/// nothing was kept.
proof fn lemma_size_state(p: RetentionPolicy, now: u64, msgs: Seq<(u64, usize)>, m: usize, j: int)
    requires
        p.max_bytes == Some(m),
        0 <= j <= msgs.len(),
    ensures
        ({
            let (flags, st) = pass_prefix(p, now, msgs, j);
            &&& kept_size(flags, msgs.take(j)) + sum_sizes(msgs.skip(j)) <= st.bytes
            &&& st.bytes > m ==> kept_size(flags, msgs.take(j)) == 0
        }),
    decreases j,
{
    lemma_sum_sizes_split(msgs, j);
    if j == 0 {
        assert(msgs.take(0) =~= Seq::<(u64, usize)>::empty());
        assert(msgs.skip(0) =~= msgs);
    } else {
        lemma_size_state(p, now, msgs, m, j - 1);
        lemma_pass_prefix_step(p, now, msgs, j - 1);
        lemma_sum_sizes_split(msgs, j - 1);
        assert(msgs.take(j).drop_last() =~= msgs.take(j - 1));
        assert(msgs.take(j).last() == msgs[j - 1]);
        let st = RetentionState { count: msgs.len(), bytes: sum_sizes(msgs) };
        lemma_retention_run_bounds(p, now, st, msgs.take(j - 1));
        lemma_retention_run_bounds(p, now, st, msgs.take(j));
        let flags = pass_prefix(p, now, msgs, j).0;
        assert(flags.last() == pass_prefix(p, now, msgs, j).0[j - 1]);
    }
}

/// A pass under a size limit keeps messages whose sizes add up to at most
/// the limit.
pub proof fn lemma_kept_within_size(p: RetentionPolicy, now: u64, msgs: Seq<(u64, usize)>, m: usize)
    requires
        p.max_bytes == Some(m),
    ensures
        kept_size(retention_pass(p, now, msgs).0, msgs) <= m,
{
    lemma_size_state(p, now, msgs, m, msgs.len() as int);
    assert(msgs.take(msgs.len() as int) =~= msgs);
    assert(msgs.skip(msgs.len() as int) =~= Seq::<(u64, usize)>::empty());
}

/// Selects the messages of a topic to delete under `policy` at time `now`.
/// `messages` holds each message's (timestamp, size in bytes), oldest first.
pub fn select_expired(policy: &RetentionPolicy, now: u64, messages: &Vec<(u64, usize)>) -> (r:
    RetentionSelection)
    requires
        sum_sizes(messages@) <= usize::MAX,
    ensures
        r.delete@ == retention_pass(*policy, now, messages@).0,
        r.remaining_bytes == retention_pass(*policy, now, messages@).1.bytes,
        r.deleted_count == count_true(r.delete@),
{
    let ghost msgs = messages@;
    let ghost init = RetentionState { count: msgs.len(), bytes: sum_sizes(msgs) };
    let mut total_bytes: usize = 0;
    let mut k: usize = 0;
    while k < messages.len()
        invariant
            msgs == messages@,
            k <= messages.len(),
            total_bytes == sum_sizes(msgs.take(k as int)),
            sum_sizes(msgs) <= usize::MAX,
        decreases messages.len() - k,
    {
        assert(msgs.take(k + 1).drop_last() =~= msgs.take(k as int));
        proof {
            lemma_sum_sizes_prefix(msgs, k + 1);
        }
        total_bytes = total_bytes + messages[k].1;
        k = k + 1;
    }
    assert(msgs.take(msgs.len() as int) =~= msgs);
    let mut total_count: usize = messages.len();
    let mut delete: Vec<bool> = Vec::new();
    let mut deleted_count: usize = 0;
    let mut i: usize = 0;
    while i < messages.len()
        invariant
            msgs == messages@,
            i <= messages.len(),
            init == (RetentionState { count: msgs.len(), bytes: sum_sizes(msgs) }),
            delete@ == retention_run(*policy, now, init, msgs.take(i as int)).0,
            total_count == retention_run(*policy, now, init, msgs.take(i as int)).1.count,
            total_bytes == retention_run(*policy, now, init, msgs.take(i as int)).1.bytes,
            deleted_count == count_true(delete@),
            deleted_count <= i,
        decreases messages.len() - i,
    {
        let ghost prefix = msgs.take(i as int);
        assert(msgs.take(i + 1).drop_last() =~= prefix);
        proof {
            lemma_retention_run_bounds(*policy, now, init, prefix);
        }
        let (timestamp, size_bytes) = messages[i];
        let mut should_delete = false;
        if !policy.should_retain_by_age(timestamp, now) {
            should_delete = true;
        }
        match policy.max_count {
            Some(max_count) => {
                if total_count > max_count {
                    should_delete = true;
                    total_count = total_count - 1;
                }
            },
            None => {},
        }
        match policy.max_bytes {
            Some(max_bytes) => {
                if total_bytes > max_bytes {
                    should_delete = true;
                    total_bytes = total_bytes.saturating_sub(size_bytes);
                }
            },
            None => {},
        }
        let ghost before = delete@;
        delete.push(should_delete);
        assert(delete@.drop_last() =~= before);
        if should_delete {
            deleted_count = deleted_count + 1;
        }
        i = i + 1;
    }
    assert(msgs.take(msgs.len() as int) =~= msgs);
    RetentionSelection { delete, deleted_count, remaining_bytes: total_bytes }
}

} // verus!
