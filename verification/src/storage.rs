//! The records of persistent storage and the decisions made on them.
//!
//! Messages are stored under the key `"{topic}:{sequence_id:020}"`, so that
//! the keys of one topic sort by sequence number. Each topic has metadata:
//! the last sequence number handed out, its retention policy, and the count
//! and size of its stored messages. Subscriptions record the last sequence
//! number they acknowledged.
use vstd::prelude::*;

use crate::retention;
use crate::retention::{RetentionPolicy, RetentionSelection};
use crate::nats_pattern;
use crate::nats_pattern::NatsPattern;
use crate::text;
use crate::text::{chars_eq, chars_le_exec, str_chars};

verus! {

/// A persistent message stored in the database.
#[derive(Debug, Clone)]
pub struct PersistentMessage {
    pub sequence_id: u64,
    pub topic: String,
    /// The message's JSON text
    pub data: String,
    pub timestamp: u64,
    /// The size of `data` in bytes
    pub size_bytes: usize,
}

/// `serde_json::Value`, a parsed JSON value; opaque here.
#[verifier::external_type_specification]
#[verifier::external_body]
pub struct ExJsonValue(serde_json::Value);

/// `serde_json::Error`, a JSON parsing error; opaque here.
#[verifier::external_type_specification]
#[verifier::external_body]
pub struct ExJsonError(serde_json::Error);

/// Whether `serde_json` parses the text as a JSON value (valid JSON,
/// nested at most as deep as its recursion limit).
pub uninterp spec fn serde_json_accepts(text: Seq<char>) -> bool;

/// `serde_json::from_str::<serde_json::Value>`: parses the text; succeeds
/// exactly when the parser accepts the text. What value it gives is not stated.
#[verifier::external_body]
fn parse_json_value(text: &str) -> (r: Result<serde_json::Value, serde_json::Error>)
    ensures
        r is Ok <==> serde_json_accepts(text@),
{
    serde_json::from_str(text)
}

/// The text of a JSON parsing error (`serde_json::Error`'s `Display`); its
/// content is not stated.
#[verifier::external_body]
fn json_error_text(e: &serde_json::Error) -> (s: String) {
    e.to_string()
}

/// The message of a stored message whose data does not parse.
pub open spec fn parse_failure_prefix() -> Seq<char> {
    "Failed to parse message data: "@
}

impl PersistentMessage {
    /// The message's data as a JSON value: an internal error, with the
    /// parser's message, when the stored text is not valid JSON.
    pub fn data_as_value(&self) -> (r: Result<serde_json::Value, crate::error::ServerError>)
        ensures
            r is Ok <==> serde_json_accepts(self.data@),
            r is Err ==> (r->Err_0 is Internal && r->Err_0->Internal_0@.len()
                >= parse_failure_prefix().len() && r->Err_0->Internal_0@.take(
                parse_failure_prefix().len() as int,
            ) == parse_failure_prefix()),
    {
        match parse_json_value(self.data.as_str()) {
            Ok(v) => Ok(v),
            Err(e) => {
                let detail = json_error_text(&e);
                let m = crate::text::concat_str("Failed to parse message data: ", detail.as_str());
                proof {
                    let p = "Failed to parse message data: "@;
                    assert((p + detail@).take(p.len() as int) =~= p);
                }
                Err(crate::error::ServerError::Internal(m))
            },
        }
    }
}

/// Subscription state for persistent tracking.
#[derive(Debug, Clone)]
pub struct SubscriptionState {
    pub subscription_id: String,
    pub topic: String,
    /// The pattern the subscription was registered with
    pub topic_pattern: Option<String>,
    pub last_ack_seq: u64,
    /// The topic of the last acknowledged message
    pub last_ack_topic: Option<String>,
    pub created_at: u64,
    pub last_activity: u64,
}

/// Topic metadata including retention configuration.
#[derive(Debug, Clone)]
pub struct TopicMetadata {
    pub topic: String,
    pub max_sequence: u64,
    pub retention_policy: RetentionPolicy,
    pub message_count: usize,
    pub total_bytes: usize,
}

/// The decimal digits of `n`, zero-padded on the left to `width` digits
/// (the last `width` digits when `n` has more).
pub open spec fn padded_decimal(n: nat, width: nat) -> Seq<char>
    decreases width,
{
    if width == 0 {
        Seq::empty()
    } else {
        padded_decimal(n / 10, (width - 1) as nat).push(digit_of(n % 10))
    }
}

/// The character of a decimal digit.
pub open spec fn digit_of(d: nat) -> char {
    if d == 0 {
        '0'
    } else if d == 1 {
        '1'
    } else if d == 2 {
        '2'
    } else if d == 3 {
        '3'
    } else if d == 4 {
        '4'
    } else if d == 5 {
        '5'
    } else if d == 6 {
        '6'
    } else if d == 7 {
        '7'
    } else if d == 8 {
        '8'
    } else {
        '9'
    }
}

/// The key a message of `topic` with sequence number `seq` is stored under.
pub open spec fn key_of(topic: Seq<char>, seq: nat) -> Seq<char> {
    topic + seq![':'] + padded_decimal(seq, 20)
}

/// The character of the decimal digit `d`.
pub(crate) fn digit_char(d: u64) -> (c: char)
    requires
        d < 10,
    ensures
        c == digit_of(d as nat),
{
    if d == 0 {
        '0'
    } else if d == 1 {
        '1'
    } else if d == 2 {
        '2'
    } else if d == 3 {
        '3'
    } else if d == 4 {
        '4'
    } else if d == 5 {
        '5'
    } else if d == 6 {
        '6'
    } else if d == 7 {
        '7'
    } else if d == 8 {
        '8'
    } else {
        '9'
    }
}

/// Appends the `width` zero-padded decimal digits of `n` to `out`.
fn push_padded_digits(n: u64, width: usize, out: &mut String)
    ensures
        final(out)@ == old(out)@ + padded_decimal(n as nat, width as nat),
    decreases width,
{
    if width > 0 {
        push_padded_digits(n / 10, width - 1, out);
        let c = digit_char(n % 10);
        crate::text::push_char(out, c);
        assert(old(out)@ + padded_decimal(n as nat, width as nat) =~= old(out)@ + padded_decimal(
            (n / 10) as nat,
            (width - 1) as nat,
        ) + seq![c]);
    } else {
        assert(old(out)@ + padded_decimal(n as nat, width as nat) =~= old(out)@);
    }
}

/// Ten to the power `n`.
pub open spec fn pow10(n: nat) -> nat
    decreases n,
{
    if n == 0 {
        1
    } else {
        10 * pow10((n - 1) as nat)
    }
}

/// Larger numbers have later zero-padded decimals of the same width.
proof fn lemma_padded_decimal_order(a: nat, b: nat, w: nat)
    requires
        a < b < pow10(w),
    ensures
        text::chars_le(padded_decimal(a, w), padded_decimal(b, w)),
        padded_decimal(a, w) != padded_decimal(b, w),
    decreases w,
{
    if w > 0 {
        let w1 = (w - 1) as nat;
        lemma_padded_decimal_len(a / 10, w1);
        lemma_padded_decimal_len(b / 10, w1);
        text::lemma_chars_le_push(
            padded_decimal(a / 10, w1),
            padded_decimal(b / 10, w1),
            digit_of(a % 10),
            digit_of(b % 10),
        );
        if a / 10 < b / 10 {
            lemma_padded_decimal_order(a / 10, b / 10, w1);
            assert(padded_decimal(a, w).drop_last() == padded_decimal(a / 10, w1));
            assert(padded_decimal(b, w).drop_last() == padded_decimal(b / 10, w1));
        } else {
            assert(a % 10 < b % 10);
            assert(padded_decimal(a, w).last() != padded_decimal(b, w).last());
        }
    }
}

/// Zero-padded decimals have exactly their width.
proof fn lemma_padded_decimal_len(n: nat, w: nat)
    ensures
        padded_decimal(n, w).len() == w,
    decreases w,
{
    if w > 0 {
        lemma_padded_decimal_len(n / 10, (w - 1) as nat);
    }
}

/// The keys of one topic sort by sequence number: a message stored later
/// (with a larger sequence number) has a strictly later key.
pub proof fn lemma_message_keys_ordered(topic: Seq<char>, a: u64, b: u64)
    requires
        a < b,
    ensures
        text::chars_le(key_of(topic, a as nat), key_of(topic, b as nat)),
        key_of(topic, a as nat) != key_of(topic, b as nat),
{
    assert(pow10(20) == 100000000000000000000nat) by {
        reveal_with_fuel(pow10, 21);
    }
    lemma_padded_decimal_order(a as nat, b as nat, 20);
    let p = topic + seq![':'];
    text::lemma_chars_le_common_prefix(p, padded_decimal(a as nat, 20), padded_decimal(b as nat, 20));
    if key_of(topic, a as nat) == key_of(topic, b as nat) {
        assert(key_of(topic, a as nat).skip(p.len() as int) =~= padded_decimal(a as nat, 20));
        assert(key_of(topic, b as nat).skip(p.len() as int) =~= padded_decimal(b as nat, 20));
    }
}

/// The key of message `sequence_id` of `topic`: the topic, `:`, and the
/// sequence number as 20 zero-padded decimal digits.
pub fn message_key(topic: &str, sequence_id: u64) -> (key: String)
    ensures
        key@ == key_of(topic@, sequence_id as nat),
{
    let mut key = topic_prefix(topic);
    push_padded_digits(sequence_id, 20, &mut key);
    key
}

/// The key a range read of `topic` after sequence number `since_seq` starts
/// at: the key of the next sequence number.
pub fn first_key_after(topic: &str, since_seq: u64) -> (key: String)
    requires
        since_seq < u64::MAX,
    ensures
        key@ == key_of(topic@, since_seq as nat + 1),
{
    message_key(topic, since_seq + 1)
}

/// Resuming after acknowledging `acked`: a replay of `topic` starts at the
/// key of sequence number `acked + 1`, so among the topic's messages it
/// reaches exactly the later ones. The key of an acknowledged message sorts
/// strictly before the start; the key of any later message at or after it.
pub proof fn lemma_replay_skips_acknowledged(topic: Seq<char>, acked: u64, m: u64)
    requires
        acked < u64::MAX,
    ensures
        m <= acked ==> text::chars_le(key_of(topic, m as nat), key_of(topic, acked as nat + 1))
            && key_of(topic, m as nat) != key_of(topic, acked as nat + 1),
        m > acked ==> text::chars_le(key_of(topic, acked as nat + 1), key_of(topic, m as nat)),
{
    let next = (acked + 1) as u64;
    if m <= acked {
        lemma_message_keys_ordered(topic, m, next);
    } else if m == next {
        text::lemma_chars_le_total(key_of(topic, m as nat), key_of(topic, m as nat));
    } else {
        lemma_message_keys_ordered(topic, next, m);
    }
}

/// Every key of a topic's message starts with the topic's key prefix.
pub proof fn lemma_key_has_topic_prefix(topic: Seq<char>, seq: nat)
    ensures
        key_of(topic, seq).len() >= topic.len() + 1,
        key_of(topic, seq).take(topic.len() + 1int) == topic + seq![':'],
{
    lemma_padded_decimal_len(seq, 20);
    assert(key_of(topic, seq).take(topic.len() + 1int) =~= topic + seq![':']);
}

/// The prefix shared by the keys of the messages of `topic`: the topic and `:`.
pub fn topic_prefix(topic: &str) -> (prefix: String)
    ensures
        prefix@ == topic@ + seq![':'],
{
    let mut prefix = topic.to_owned();
    crate::text::push_char(&mut prefix, ':');
    prefix
}

/// The metadata of a topic that has stored nothing yet.
pub fn new_topic_metadata(topic: &str, retention_policy: RetentionPolicy) -> (m: TopicMetadata)
    ensures
        m.topic@ == topic@,
        m.max_sequence == 0,
        m.retention_policy == retention_policy,
        m.message_count == 0,
        m.total_bytes == 0,
{
    TopicMetadata {
        topic: topic.to_owned(),
        max_sequence: 0,
        retention_policy,
        message_count: 0,
        total_bytes: 0,
    }
}

/// The metadata to record when `topic` is registered with a retention
/// policy: an existing topic keeps its sequence number and counts and only
/// takes the new policy; a new topic starts from nothing.
pub fn metadata_for_registration(
    existing: Option<TopicMetadata>,
    topic: &str,
    retention_policy: RetentionPolicy,
) -> (m: TopicMetadata)
    ensures
        match existing {
            Some(e) => m == (TopicMetadata { retention_policy, ..e }),
            None => {
                &&& m.topic@ == topic@
                &&& m.max_sequence == 0
                &&& m.retention_policy == retention_policy
                &&& m.message_count == 0
                &&& m.total_bytes == 0
            },
        },
{
    match existing {
        Some(mut e) => {
            e.retention_policy = retention_policy;
            e
        },
        None => new_topic_metadata(topic, retention_policy),
    }
}

/// The byte length of the UTF-8 encoding of a text.
pub open spec fn utf8_len(s: Seq<char>) -> nat {
    vstd::utf8::encode_utf8(s).len()
}

/// What storing one message writes: the message, its key, and the topic's
/// metadata after it.
pub struct StorePlan {
    pub message: PersistentMessage,
    pub key: String,
    pub metadata: TopicMetadata,
}

/// The metadata that storing into `topic` starts from: the known metadata,
/// or that of a new topic without limits.
pub open spec fn store_base(existing: Option<TopicMetadata>) -> (u64, usize, usize) {
    match existing {
        Some(e) => (e.max_sequence, e.message_count, e.total_bytes),
        None => (0, 0, 0),
    }
}

/// Plans storing the JSON text `data` in `topic` at `timestamp`: the message
/// takes the next sequence number of the topic, is stored under its key, and
/// the topic's count and byte total grow by one message and its size.
pub fn prepare_store(existing: Option<TopicMetadata>, topic: &str, data: String, timestamp: u64) -> (p:
    StorePlan)
    requires
        store_base(existing).0 < u64::MAX,
        store_base(existing).1 < usize::MAX,
        store_base(existing).2 + utf8_len(data@) <= usize::MAX,
    ensures
        p.message.sequence_id == store_base(existing).0 + 1,
        p.message.topic@ == topic@,
        p.message.data@ == data@,
        p.message.timestamp == timestamp,
        p.message.size_bytes == utf8_len(data@),
        p.key@ == key_of(topic@, p.message.sequence_id as nat),
        p.metadata.max_sequence == p.message.sequence_id,
        p.metadata.message_count == store_base(existing).1 + 1,
        p.metadata.total_bytes == store_base(existing).2 + p.message.size_bytes,
        match existing {
            Some(e) => p.metadata.topic == e.topic && p.metadata.retention_policy
                == e.retention_policy,
            None => p.metadata.topic@ == topic@ && !retention::limited(
                p.metadata.retention_policy,
            ),
        },
{
    let mut metadata = match existing {
        Some(e) => e,
        None => new_topic_metadata(topic, RetentionPolicy::unlimited()),
    };
    metadata.max_sequence = metadata.max_sequence + 1;
    let sequence_id = metadata.max_sequence;
    let size_bytes = data.as_str().len();
    let message = PersistentMessage {
        sequence_id,
        topic: topic.to_owned(),
        data,
        timestamp,
        size_bytes,
    };
    let key = message_key(topic, sequence_id);
    metadata.message_count = metadata.message_count + 1;
    metadata.total_bytes = metadata.total_bytes + size_bytes;
    StorePlan { message, key, metadata }
}

/// The state to record when subscription `subscription_id` on `topic` is
/// created at `now`: an existing subscription only records the activity; a
/// new one starts with nothing acknowledged.
pub fn subscription_on_create(
    existing: Option<SubscriptionState>,
    subscription_id: &str,
    topic: &str,
    now: u64,
) -> (st: SubscriptionState)
    ensures
        match existing {
            Some(e) => st == (SubscriptionState { last_activity: now, ..e }),
            None => {
                &&& st.subscription_id@ == subscription_id@
                &&& st.topic@ == topic@
                &&& st.topic_pattern is None
                &&& st.last_ack_seq == 0
                &&& st.last_ack_topic is None
                &&& st.created_at == now
                &&& st.last_activity == now
            },
        },
{
    match existing {
        Some(mut e) => {
            e.last_activity = now;
            e
        },
        None => SubscriptionState {
            subscription_id: subscription_id.to_owned(),
            topic: topic.to_owned(),
            topic_pattern: None,
            last_ack_seq: 0,
            last_ack_topic: None,
            created_at: now,
            last_activity: now,
        },
    }
}

/// The state to record when subscription `subscription_id` acknowledges
/// `sequence_id` at `now`: the acknowledged position and the activity time
/// change; an unknown subscription is recorded with an empty topic.
pub fn subscription_on_ack(
    existing: Option<SubscriptionState>,
    subscription_id: &str,
    sequence_id: u64,
    now: u64,
) -> (st: SubscriptionState)
    ensures
        match existing {
            Some(e) => st == (SubscriptionState { last_ack_seq: sequence_id, last_activity: now, ..e }),
            None => {
                &&& st.subscription_id@ == subscription_id@
                &&& st.topic@ == Seq::<char>::empty()
                &&& st.topic_pattern is None
                &&& st.last_ack_seq == sequence_id
                &&& st.last_ack_topic is None
                &&& st.created_at == now
                &&& st.last_activity == now
            },
        },
{
    let mut st = match existing {
        Some(e) => e,
        None => SubscriptionState {
            subscription_id: subscription_id.to_owned(),
            topic: String::new(),
            topic_pattern: None,
            last_ack_seq: 0,
            last_ack_topic: None,
            created_at: now,
            last_activity: now,
        },
    };
    st.last_ack_seq = sequence_id;
    st.last_activity = now;
    st
}

/// What a retention pass over one topic decided.
pub struct RetentionPlan {
    /// The messages' selection, oldest first
    pub selection: RetentionSelection,
    /// The topic's metadata afterwards, when something is deleted
    pub metadata: Option<TopicMetadata>,
}

/// The (timestamp, size) stamps of a sequence of messages.
pub open spec fn stamps_of(msgs: Seq<PersistentMessage>) -> Seq<(u64, usize)> {
    msgs.map_values(|m: PersistentMessage| (m.timestamp, m.size_bytes))
}

/// Plans the retention pass over the messages of a topic (oldest first)
/// at `now`: `None` when the topic's policy sets no limit; otherwise the
/// selection, and, when it deletes anything, the metadata with the count
/// lowered by the deletions (not below 0) and the byte total the pass ended with.
pub fn plan_retention(metadata: &TopicMetadata, now: u64, messages: &Vec<PersistentMessage>) -> (r:
    Option<RetentionPlan>)
    requires
        retention::sum_sizes(stamps_of(messages@)) <= usize::MAX,
    ensures
        !retention::limited(metadata.retention_policy) <==> r is None,
        r matches Some(plan) ==> {
            &&& plan.selection.delete@ == retention::retention_pass(
                metadata.retention_policy,
                now,
                stamps_of(messages@),
            ).0
            &&& plan.selection.remaining_bytes == retention::retention_pass(
                metadata.retention_policy,
                now,
                stamps_of(messages@),
            ).1.bytes
            &&& plan.selection.deleted_count == retention::count_true(plan.selection.delete@)
            &&& (plan.selection.deleted_count == 0 <==> plan.metadata is None)
            &&& plan.metadata matches Some(m) ==> m == (TopicMetadata {
                message_count: retention::sat_sub(
                    metadata.message_count as int,
                    plan.selection.deleted_count as int,
                ) as usize,
                total_bytes: plan.selection.remaining_bytes,
                ..*metadata
            })
        },
{
    if !metadata.retention_policy.has_limits() {
        return None;
    }
    let mut stamps: Vec<(u64, usize)> = Vec::new();
    let mut i: usize = 0;
    while i < messages.len()
        invariant
            i <= messages.len(),
            stamps@ == stamps_of(messages@.take(i as int)),
        decreases messages.len() - i,
    {
        stamps.push((messages[i].timestamp, messages[i].size_bytes));
        assert(stamps_of(messages@.take(i + 1)) =~= stamps_of(messages@.take(i as int)).push(
            (messages@[i as int].timestamp, messages@[i as int].size_bytes),
        ));
        i = i + 1;
    }
    assert(messages@.take(messages.len() as int) =~= messages@);
    let selection = retention::select_expired(&metadata.retention_policy, now, &stamps);
    if selection.deleted_count == 0 {
        return Some(RetentionPlan { selection, metadata: None });
    }
    let updated = TopicMetadata {
        topic: metadata.topic.clone(),
        max_sequence: metadata.max_sequence,
        retention_policy: metadata.retention_policy,
        message_count: metadata.message_count.saturating_sub(selection.deleted_count),
        total_bytes: selection.remaining_bytes,
    };
    Some(RetentionPlan { selection, metadata: Some(updated) })
}

/// Messages in order of topic (lexicographically), then sequence number.
pub open spec fn message_le(a: PersistentMessage, b: PersistentMessage) -> bool {
    if a.topic@ == b.topic@ {
        a.sequence_id <= b.sequence_id
    } else {
        text::chars_le(a.topic@, b.topic@)
    }
}

/// Whether the messages are in (topic, sequence number) order.
pub open spec fn sorted_messages(s: Seq<PersistentMessage>) -> bool {
    forall|i: int, j: int| 0 <= i < j < s.len() ==> message_le(#[trigger] s[i], #[trigger] s[j])
}

/// The message order is total.
pub proof fn lemma_message_le_total(a: PersistentMessage, b: PersistentMessage)
    ensures
        message_le(a, b) || message_le(b, a),
{
    text::lemma_chars_le_total(a.topic@, b.topic@);
}

/// The message order is transitive.
pub proof fn lemma_message_le_transitive(
    a: PersistentMessage,
    b: PersistentMessage,
    c: PersistentMessage,
)
    requires
        message_le(a, b),
        message_le(b, c),
    ensures
        message_le(a, c),
{
    if a.topic@ != b.topic@ && b.topic@ != c.topic@ {
        if a.topic@ == c.topic@ {
            text::lemma_chars_le_antisymmetric(a.topic@, b.topic@);
        } else {
            text::lemma_chars_le_transitive(a.topic@, b.topic@, c.topic@);
        }
    }
}

/// Whether `a` comes no later than `b` in (topic, sequence number) order.
fn message_le_exec(a: &PersistentMessage, b: &PersistentMessage) -> (r: bool)
    ensures
        r == message_le(*a, *b),
{
    let ta = str_chars(a.topic.as_str());
    let tb = str_chars(b.topic.as_str());
    if chars_eq(&ta, &tb) {
        a.sequence_id <= b.sequence_id
    } else {
        chars_le_exec(&ta, &tb)
    }
}

/// The messages of `s` with topic `topic` and sequence number `seq`, in order.
pub open spec fn at_place(s: Seq<PersistentMessage>, topic: Seq<char>, seq: u64) -> Seq<
    PersistentMessage,
>
    decreases s.len(),
{
    if s.len() == 0 {
        Seq::empty()
    } else {
        let rest = at_place(s.drop_last(), topic, seq);
        if s.last().topic@ == topic && s.last().sequence_id == seq {
            rest.push(s.last())
        } else {
            rest
        }
    }
}

/// Picking the messages at one place distributes over concatenation.
proof fn lemma_at_place_add(a: Seq<PersistentMessage>, b: Seq<PersistentMessage>, t: Seq<char>, q: u64)
    ensures
        at_place(a + b, t, q) == at_place(a, t, q) + at_place(b, t, q),
    decreases b.len(),
{
    if b.len() == 0 {
        assert(a + b =~= a);
        assert(at_place(a, t, q) + at_place(b, t, q) =~= at_place(a, t, q));
    } else {
        lemma_at_place_add(a, b.drop_last(), t, q);
        assert((a + b).drop_last() =~= a + b.drop_last());
        assert((a + b).last() == b.last());
        if b.last().topic@ == t && b.last().sequence_id == q {
            assert(at_place(a, t, q) + at_place(b.drop_last(), t, q).push(b.last()) =~= (at_place(
                a,
                t,
                q,
            ) + at_place(b.drop_last(), t, q)).push(b.last()));
        }
    }
}

/// A sequence without messages at a place has none to pick there.
proof fn lemma_at_place_none(s: Seq<PersistentMessage>, t: Seq<char>, q: u64)
    requires
        forall|k: int| 0 <= k < s.len() ==> !(#[trigger] s[k].topic@ == t && s[k].sequence_id == q),
    ensures
        at_place(s, t, q) == Seq::<PersistentMessage>::empty(),
    decreases s.len(),
{
    if s.len() > 0 {
        lemma_at_place_none(s.drop_last(), t, q);
    }
}

/// Inserting `x` before every message at its place but after all the others
/// of `s` that come earlier picks, at every place, what appending it picks.
proof fn lemma_at_place_insert(s: Seq<PersistentMessage>, p: int, x: PersistentMessage, t: Seq<char>, q: u64)
    requires
        0 <= p <= s.len(),
        forall|k: int|
            p <= k < s.len() ==> !(#[trigger] s[k].topic@ == x.topic@ && s[k].sequence_id
                == x.sequence_id),
    ensures
        at_place(s.insert(p, x), t, q) == at_place(s.push(x), t, q),
{
    let a = s.take(p);
    let b = s.skip(p);
    let xs = seq![x];
    assert(s.insert(p, x) =~= a + xs + b);
    assert(s.push(x) =~= a + b + xs);
    lemma_at_place_add(a + xs, b, t, q);
    lemma_at_place_add(a, xs, t, q);
    lemma_at_place_add(a + b, xs, t, q);
    lemma_at_place_add(a, b, t, q);
    assert(xs.drop_last() =~= Seq::<PersistentMessage>::empty());
    assert(at_place(xs.drop_last(), t, q) =~= Seq::<PersistentMessage>::empty());
    assert(xs.last() == x);
    if x.topic@ == t && x.sequence_id == q {
        assert forall|k: int| 0 <= k < b.len() implies !(#[trigger] b[k].topic@ == t
            && b[k].sequence_id == q) by {
            assert(b[k] == s[p + k]);
        }
        lemma_at_place_none(b, t, q);
        assert(at_place(b, t, q) + at_place(xs, t, q) =~= at_place(xs, t, q));
        assert(at_place(xs, t, q) + at_place(b, t, q) =~= at_place(xs, t, q));
    } else {
        assert(at_place(xs, t, q) =~= Seq::<PersistentMessage>::empty());
        assert(at_place(b, t, q) + at_place(xs, t, q) =~= at_place(b, t, q));
        assert(at_place(xs, t, q) + at_place(b, t, q) =~= at_place(b, t, q));
    }
}

/// Sorts messages by (topic, sequence number); messages that tie (same topic
/// and sequence number) keep their relative order.
pub fn sort_messages(messages: Vec<PersistentMessage>) -> (r: Vec<PersistentMessage>)
    ensures
        sorted_messages(r@),
        r@.to_multiset() == messages@.to_multiset(),
        forall|t: Seq<char>, q: u64| #[trigger] at_place(r@, t, q) == at_place(messages@, t, q),
{
    broadcast use vstd::seq_lib::group_to_multiset_ensures;

    let ghost input = messages@;
    let mut out: Vec<PersistentMessage> = Vec::new();
    for x in it: messages
        invariant
            it.seq() == input,
            sorted_messages(out@),
            out@.to_multiset() == input.take(it.index() as int).to_multiset(),
            forall|t: Seq<char>, q: u64| #[trigger]
                at_place(out@, t, q) == at_place(input.take(it.index() as int), t, q),
    {
        let mut p: usize = 0;
        while p < out.len() && message_le_exec(&out[p], &x)
            invariant
                p <= out.len(),
                forall|k: int| 0 <= k < p ==> message_le(#[trigger] out@[k], x),
            decreases out.len() - p,
        {
            p = p + 1;
        }
        proof {
            assert forall|k: int| p <= k < out@.len() implies message_le(x, #[trigger] out@[k]) by {
                if message_le(out@[k], x) {
                    lemma_message_le_transitive(out@[p as int], out@[k], x);
                }
                lemma_message_le_total(out@[k], x);
            }
        }
        let ghost before = out@;
        proof {
            assert forall|k: int| p <= k < before.len() implies !(#[trigger] before[k].topic@
                == x.topic@ && before[k].sequence_id == x.sequence_id) by {
                if before[k].topic@ == x.topic@ && before[k].sequence_id == x.sequence_id {
                    assert(message_le(before[k], x));
                    if p < k {
                        lemma_message_le_transitive(before[p as int], before[k], x);
                    }
                }
            }
        }
        out.insert(p, x);
        proof {
            let prev = input.take(it.index() as int);
            assert(input.take(it.index() + 1) =~= prev.push(x));
            assert forall|t: Seq<char>, q: u64| #[trigger] at_place(out@, t, q) == at_place(
                input.take(it.index() + 1),
                t,
                q,
            ) by {
                lemma_at_place_insert(before, p as int, x, t, q);
                assert(before.push(x).drop_last() =~= before);
                assert(prev.push(x).drop_last() =~= prev);
                assert(at_place(before, t, q) == at_place(prev, t, q));
            }
        }
        proof {
            assert forall|i: int, j: int| 0 <= i < j < out@.len() implies message_le(
                #[trigger] out@[i],
                #[trigger] out@[j],
            ) by {
                if i < p && j > p {
                    lemma_message_le_transitive(out@[i], x, out@[j]);
                }
            }
            assert(out@.remove(p as int) =~= before);
            assert(out@[p as int] == x);
            assert(input.take(it.index() + 1) =~= input.take(it.index() as int).push(x));
            input.take(it.index() as int).to_multiset_ensures();
            assert(input.take(it.index() as int).push(x).to_multiset() =~= input.take(
                it.index() as int,
            ).to_multiset().insert(x));
            out@.to_multiset_ensures();
            assert(out@.contains(x));
            assert(out@.to_multiset().count(x) > 0);
            assert(out@.remove(p as int).to_multiset() =~= out@.to_multiset().remove(out@[p as int]));
            assert(before.to_multiset() =~= out@.to_multiset().remove(x));
            assert(out@.to_multiset() =~= before.to_multiset().insert(x));
        }
    }
    assert(input.take(input.len() as int) =~= input);
    out
}

/// The topics, among `topics`, that match `pattern`, in their order.
pub fn matching_topics(pattern: &NatsPattern, topics: &Vec<String>) -> (r: Vec<String>)
    ensures
        r@.map_values(|t: String| t@) == topics@.map_values(|t: String| t@).filter(
            |t: Seq<char>| nats_pattern::pattern_matches(pattern@, t),
        ),
{
    let ghost tv = topics@.map_values(|t: String| t@);
    let ghost pred = |t: Seq<char>| nats_pattern::pattern_matches(pattern@, t);
    let mut r: Vec<String> = Vec::new();
    let mut i: usize = 0;
    while i < topics.len()
        invariant
            i <= topics.len(),
            tv == topics@.map_values(|t: String| t@),
            pred == (|t: Seq<char>| nats_pattern::pattern_matches(pattern@, t)),
            r@.map_values(|t: String| t@) == tv.take(i as int).filter(pred),
        decreases topics.len() - i,
    {
        let ghost before = r@;
        proof {
            assert(tv.take(i + 1) =~= tv.take(i as int).push(tv[i as int]));
            tv.take(i as int).lemma_filter_push(tv[i as int], pred);
        }
        if pattern.matches(topics[i].as_str()) {
            r.push(topics[i].as_str().to_owned());
            assert(r@.map_values(|t: String| t@) =~= before.map_values(|t: String| t@).push(
                tv[i as int],
            ));
        }
        i = i + 1;
    }
    assert(tv.take(tv.len() as int) =~= tv);
    r
}

/// The topics whose messages a replay for `pattern` reads: the pattern's own
/// text when it has no wildcard, else the known topics that match it.
pub fn replay_topics(pattern: &NatsPattern, all_topics: &Vec<String>) -> (r: Vec<String>)
    ensures
        !pattern.is_pattern_view() ==> r@.map_values(|t: String| t@) == seq![
            nats_pattern::pattern_text(pattern@),
        ],
        pattern.is_pattern_view() ==> r@.map_values(|t: String| t@) == all_topics@.map_values(
            |t: String| t@,
        ).filter(|t: Seq<char>| nats_pattern::pattern_matches(pattern@, t)),
{
    if !pattern.is_pattern() {
        let mut r: Vec<String> = Vec::new();
        r.push(pattern.as_str().to_owned());
        assert(r@.map_values(|t: String| t@) =~= seq![nats_pattern::pattern_text(pattern@)]);
        r
    } else {
        matching_topics(pattern, all_topics)
    }
}

/// The order a replay for `pattern` delivers the messages it read: as read
/// (by sequence number) for a pattern without wildcard, else sorted by
/// (topic, sequence number).
pub fn order_replay(pattern: &NatsPattern, messages: Vec<PersistentMessage>) -> (r: Vec<
    PersistentMessage,
>)
    ensures
        !pattern.is_pattern_view() ==> r@ == messages@,
        pattern.is_pattern_view() ==> sorted_messages(r@) && r@.to_multiset()
            == messages@.to_multiset() && forall|t: Seq<char>, q: u64| #[trigger]
            at_place(r@, t, q) == at_place(messages@, t, q),
{
    if pattern.is_pattern() {
        sort_messages(messages)
    } else {
        messages
    }
}

/// Whether `c` is a decimal digit.
pub open spec fn is_digit(c: char) -> bool {
    48 <= (c as u32) <= 57
}

/// Whether `key` is the key of a message of the topic whose key prefix is
/// `prefix`: exactly the prefix followed by 20 decimal digits.
pub open spec fn is_topic_key(key: Seq<char>, prefix: Seq<char>) -> bool {
    &&& key.len() == prefix.len() + 20
    &&& key.take(prefix.len() as int) == prefix
    &&& forall|i: int| prefix.len() <= i < key.len() ==> is_digit(#[trigger] key[i])
}

/// Whether the stored key `key` is the key of a message of the topic whose
/// key prefix is `prefix`: the prefix and then the 20 digits of a sequence
/// number, nothing more. A key of another topic that only starts with the
/// prefix (as one of topic `a:b` does for topic `a`) is not.
pub fn key_in_topic(key: &str, prefix: &str) -> (r: bool)
    ensures
        r == is_topic_key(key@, prefix@),
{
    if !text::starts_with(key, prefix) {
        return false;
    }
    let kc = str_chars(key);
    let pc = str_chars(prefix);
    if kc.len() - pc.len() != 20 {
        return false;
    }
    let mut i: usize = pc.len();
    while i < kc.len()
        invariant
            kc@ == key@,
            pc@ == prefix@,
            kc.len() == pc.len() + 20,
            pc.len() <= i <= kc.len(),
            forall|j: int| pc.len() <= j < i ==> is_digit(#[trigger] kc@[j]),
        decreases kc.len() - i,
    {
        let d = kc[i] as u32;
        if d < 48 || d > 57 {
            return false;
        }
        i = i + 1;
    }
    true
}

/// Whether the stored key `key` starts with `prefix`. The keys of a topic
/// all do (`lemma_key_has_topic_prefix`), and the keys that start with a
/// prefix sort together, so a range read of a topic ends at the first key
/// for which this is false.
pub fn key_in_range(key: &str, prefix: &str) -> (r: bool)
    ensures
        r == (prefix@.len() <= key@.len() && key@.take(prefix@.len() as int) == prefix@),
{
    text::starts_with(key, prefix)
}

/// Zero-padded decimals are made of digits.
proof fn lemma_padded_decimal_digits(n: nat, w: nat)
    ensures
        forall|i: int| 0 <= i < padded_decimal(n, w).len() ==> is_digit(
            #[trigger] padded_decimal(n, w)[i],
        ),
    decreases w,
{
    if w > 0 {
        lemma_padded_decimal_digits(n / 10, (w - 1) as nat);
        let d = n % 10;
        assert(is_digit(digit_of(d)));
        assert forall|i: int| 0 <= i < padded_decimal(n, w).len() implies is_digit(
            #[trigger] padded_decimal(n, w)[i],
        ) by {
            if i < padded_decimal(n, w).len() - 1 {
                assert(padded_decimal(n, w)[i] == padded_decimal(n / 10, (w - 1) as nat)[i]);
            }
        }
    }
}

/// The key of a message of topic `other` passes the test of `topic` exactly
/// when `other` is `topic`: a topic's reads take its own messages and no
/// other topic's, even one whose name starts with `topic` and `:`.
pub proof fn lemma_topic_key_exact(topic: Seq<char>, other: Seq<char>, seq: u64)
    ensures
        is_topic_key(key_of(other, seq as nat), topic + seq![':']) <==> other == topic,
{
    let k = key_of(other, seq as nat);
    let p = topic + seq![':'];
    lemma_padded_decimal_len(seq as nat, 20);
    lemma_padded_decimal_digits(seq as nat, 20);
    let pd = padded_decimal(seq as nat, 20);
    if other == topic {
        assert(k.take(p.len() as int) =~= p);
        assert forall|i: int| p.len() <= i < k.len() implies is_digit(#[trigger] k[i]) by {
            assert(k[i] == pd[i - p.len()]);
        }
    }
    if is_topic_key(k, p) {
        assert(other.len() == topic.len());
        assert forall|i: int| 0 <= i < topic.len() implies other[i] == topic[i] by {
            assert(k.take(p.len() as int)[i] == p[i]);
            assert(k[i] == other[i]);
        }
        assert(other =~= topic);
    }
}

} // verus!

