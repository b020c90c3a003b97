//! The built-in subscription methods of a connection, and the errors and
//! per-item results their requests are answered with.
use vstd::prelude::*;

use crate::error::{error_message, ServerError, RpcErrorData, INTERNAL_ERROR, INVALID_PARAMS};
use crate::filter;
use crate::filter::{FilteredSubscriptionManager, TopicFilter};
use crate::index;
use crate::nats_pattern;
use crate::nats_pattern::PatternError;
use crate::subscription::SubscriptionManager;
use crate::text::{concat_str, str_eq};

verus! {

/// The methods a connection handles itself, before the router.
#[derive(Debug, Clone, Copy, PartialEq, Eq, Structural)]
pub enum BuiltinMethod {
    /// `rpc.subscribe`
    Subscribe,
    /// `rpc.unsubscribe`
    Unsubscribe,
    /// `rpc.subscribe_persistent`
    SubscribePersistent,
    /// `rpc.ack_persistent`
    AckPersistent,
    /// `rpc.unsubscribe_persistent`
    UnsubscribePersistent,
    /// `rpc.subscribe_persistent_batch`
    SubscribePersistentBatch,
    /// `rpc.ack_persistent_batch`
    AckPersistentBatch,
    /// `rpc.unsubscribe_persistent_batch`
    UnsubscribePersistentBatch,
}

/// The built-in method a method name denotes, if any.
pub open spec fn builtin_of(method: Seq<char>) -> Option<BuiltinMethod> {
    if method == "rpc.subscribe"@ {
        Some(BuiltinMethod::Subscribe)
    } else if method == "rpc.unsubscribe"@ {
        Some(BuiltinMethod::Unsubscribe)
    } else if method == "rpc.subscribe_persistent"@ {
        Some(BuiltinMethod::SubscribePersistent)
    } else if method == "rpc.ack_persistent"@ {
        Some(BuiltinMethod::AckPersistent)
    } else if method == "rpc.unsubscribe_persistent"@ {
        Some(BuiltinMethod::UnsubscribePersistent)
    } else if method == "rpc.subscribe_persistent_batch"@ {
        Some(BuiltinMethod::SubscribePersistentBatch)
    } else if method == "rpc.ack_persistent_batch"@ {
        Some(BuiltinMethod::AckPersistentBatch)
    } else if method == "rpc.unsubscribe_persistent_batch"@ {
        Some(BuiltinMethod::UnsubscribePersistentBatch)
    } else {
        None
    }
}

/// The method name of each built-in method.
pub open spec fn builtin_name(m: BuiltinMethod) -> Seq<char> {
    match m {
        BuiltinMethod::Subscribe => "rpc.subscribe"@,
        BuiltinMethod::Unsubscribe => "rpc.unsubscribe"@,
        BuiltinMethod::SubscribePersistent => "rpc.subscribe_persistent"@,
        BuiltinMethod::AckPersistent => "rpc.ack_persistent"@,
        BuiltinMethod::UnsubscribePersistent => "rpc.unsubscribe_persistent"@,
        BuiltinMethod::SubscribePersistentBatch => "rpc.subscribe_persistent_batch"@,
        BuiltinMethod::AckPersistentBatch => "rpc.ack_persistent_batch"@,
        BuiltinMethod::UnsubscribePersistentBatch => "rpc.unsubscribe_persistent_batch"@,
    }
}

/// Each built-in method's name denotes that method and no other, and a name
/// denotes a built-in method only when it is that method's name: every other
/// method name goes to the router.
pub proof fn lemma_builtin_names(m: BuiltinMethod, method: Seq<char>)
    ensures
        builtin_of(builtin_name(m)) == Some(m),
        builtin_of(method) matches Some(b) ==> method == builtin_name(b),
        builtin_of(method) is None ==> forall|b: BuiltinMethod| method != #[trigger] builtin_name(b),
{
    reveal_strlit("rpc.subscribe");
    reveal_strlit("rpc.unsubscribe");
    reveal_strlit("rpc.subscribe_persistent");
    reveal_strlit("rpc.ack_persistent");
    reveal_strlit("rpc.unsubscribe_persistent");
    reveal_strlit("rpc.subscribe_persistent_batch");
    reveal_strlit("rpc.ack_persistent_batch");
    reveal_strlit("rpc.unsubscribe_persistent_batch");
    assert("rpc.subscribe_persistent"@[4] != "rpc.ack_persistent_batch"@[4]);
    assert("rpc.subscribe"@.len() == 13);
    assert("rpc.unsubscribe"@.len() == 15);
    assert("rpc.subscribe_persistent"@.len() == 24);
    assert("rpc.ack_persistent"@.len() == 18);
    assert("rpc.unsubscribe_persistent"@.len() == 26);
    assert("rpc.subscribe_persistent_batch"@.len() == 30);
    assert("rpc.ack_persistent_batch"@.len() == 24);
    assert("rpc.unsubscribe_persistent_batch"@.len() == 32);
}

/// The built-in method a request's method name denotes; `None` sends the
/// request to the router.
pub fn classify_method(method: &str) -> (r: Option<BuiltinMethod>)
    ensures
        r == builtin_of(method@),
        r matches Some(b) ==> method@ == builtin_name(b),
        forall|b: BuiltinMethod| method@ == #[trigger] builtin_name(b) ==> r == Some(b),
{
    proof {
        assert forall|b: BuiltinMethod| method@ == #[trigger] builtin_name(b) implies builtin_of(
            method@,
        ) == Some(b) by {
            lemma_builtin_names(b, method@);
        }
        lemma_builtin_names(BuiltinMethod::Subscribe, method@);
    }
    if str_eq(method, "rpc.subscribe") {
        Some(BuiltinMethod::Subscribe)
    } else if str_eq(method, "rpc.unsubscribe") {
        Some(BuiltinMethod::Unsubscribe)
    } else if str_eq(method, "rpc.subscribe_persistent") {
        Some(BuiltinMethod::SubscribePersistent)
    } else if str_eq(method, "rpc.ack_persistent") {
        Some(BuiltinMethod::AckPersistent)
    } else if str_eq(method, "rpc.unsubscribe_persistent") {
        Some(BuiltinMethod::UnsubscribePersistent)
    } else if str_eq(method, "rpc.subscribe_persistent_batch") {
        Some(BuiltinMethod::SubscribePersistentBatch)
    } else if str_eq(method, "rpc.ack_persistent_batch") {
        Some(BuiltinMethod::AckPersistentBatch)
    } else if str_eq(method, "rpc.unsubscribe_persistent_batch") {
        Some(BuiltinMethod::UnsubscribePersistentBatch)
    } else {
        None
    }
}

/// The built-in method of a request inside a batch: only exact-topic
/// subscribing and unsubscribing are handled there; anything else goes to
/// the router.
pub fn classify_batch_method(method: &str) -> (r: Option<BuiltinMethod>)
    ensures
        r == match builtin_of(method@) {
            Some(BuiltinMethod::Subscribe) => Some(BuiltinMethod::Subscribe),
            Some(BuiltinMethod::Unsubscribe) => Some(BuiltinMethod::Unsubscribe),
            _ => None,
        },
{
    if str_eq(method, "rpc.subscribe") {
        Some(BuiltinMethod::Subscribe)
    } else if str_eq(method, "rpc.unsubscribe") {
        Some(BuiltinMethod::Unsubscribe)
    } else {
        None
    }
}

/// The error object for a request the router refused: method-not-found and
/// invalid-params keep their kind; any other error is internal.
pub fn route_error(e: &ServerError) -> (d: RpcErrorData)
    ensures
        match e {
            ServerError::MethodNotFound(m) => d.code == crate::error::METHOD_NOT_FOUND && d.message@
                == "Method not found: "@ + m@,
            ServerError::InvalidParams(m) => d.code == INVALID_PARAMS && d.message@ == m@,
            _ => d.code == INTERNAL_ERROR && d.message@ == error_message(*e),
        },
{
    match e {
        ServerError::MethodNotFound(m) => RpcErrorData::method_not_found(m.as_str()),
        ServerError::InvalidParams(m) => RpcErrorData::invalid_params(m.as_str()),
        _ => {
            let m = e.to_string();
            RpcErrorData::internal_error(m.as_str())
        },
    }
}

/// The message for a built-in request that came without parameters.
pub open spec fn missing_params_message(m: BuiltinMethod) -> Seq<char> {
    match m {
        BuiltinMethod::Subscribe => "Missing 'topic' parameter"@,
        BuiltinMethod::Unsubscribe => "Missing 'topic' parameter"@,
        BuiltinMethod::SubscribePersistent => "Missing 'subscription_id' and 'topic' parameters"@,
        BuiltinMethod::AckPersistent => "Missing 'subscription_id' and 'sequence_id' parameters"@,
        BuiltinMethod::UnsubscribePersistent => "Missing 'subscription_id' parameter"@,
        BuiltinMethod::SubscribePersistentBatch => "Missing subscriptions array"@,
        BuiltinMethod::AckPersistentBatch => "Missing acknowledgments array"@,
        BuiltinMethod::UnsubscribePersistentBatch => "Missing subscription IDs array"@,
    }
}

/// The invalid-params error for a built-in request without parameters.
pub fn missing_params(m: BuiltinMethod) -> (d: RpcErrorData)
    ensures
        d.code == INVALID_PARAMS,
        d.message@ == missing_params_message(m),
{
    match m {
        BuiltinMethod::Subscribe => RpcErrorData::invalid_params("Missing 'topic' parameter"),
        BuiltinMethod::Unsubscribe => RpcErrorData::invalid_params("Missing 'topic' parameter"),
        BuiltinMethod::SubscribePersistent => RpcErrorData::invalid_params(
            "Missing 'subscription_id' and 'topic' parameters",
        ),
        BuiltinMethod::AckPersistent => RpcErrorData::invalid_params(
            "Missing 'subscription_id' and 'sequence_id' parameters",
        ),
        BuiltinMethod::UnsubscribePersistent => RpcErrorData::invalid_params(
            "Missing 'subscription_id' parameter",
        ),
        BuiltinMethod::SubscribePersistentBatch => RpcErrorData::invalid_params(
            "Missing subscriptions array",
        ),
        BuiltinMethod::AckPersistentBatch => RpcErrorData::invalid_params(
            "Missing acknowledgments array",
        ),
        BuiltinMethod::UnsubscribePersistentBatch => RpcErrorData::invalid_params(
            "Missing subscription IDs array",
        ),
    }
}

/// The text put before a parameter decoding error of a built-in request.
pub open spec fn bad_params_prefix(m: BuiltinMethod) -> Seq<char> {
    match m {
        BuiltinMethod::SubscribePersistentBatch => "Expected array of subscriptions: "@,
        BuiltinMethod::AckPersistentBatch => "Expected array of acknowledgments: "@,
        BuiltinMethod::UnsubscribePersistentBatch => "Expected array of subscription IDs: "@,
        _ => Seq::empty(),
    }
}

/// The invalid-params error for a built-in request whose parameters did not
/// decode, with the decoder's message `detail`.
pub fn bad_params(m: BuiltinMethod, detail: &str) -> (d: RpcErrorData)
    ensures
        d.code == INVALID_PARAMS,
        d.message@ == bad_params_prefix(m) + detail@,
{
    let message = match m {
        BuiltinMethod::SubscribePersistentBatch => concat_str(
            "Expected array of subscriptions: ",
            detail,
        ),
        BuiltinMethod::AckPersistentBatch => concat_str("Expected array of acknowledgments: ", detail),
        BuiltinMethod::UnsubscribePersistentBatch => concat_str(
            "Expected array of subscription IDs: ",
            detail,
        ),
        _ => {
            let s = detail.to_owned();
            assert(bad_params_prefix(m) + detail@ =~= detail@);
            s
        },
    };
    RpcErrorData { code: INVALID_PARAMS, message }
}

/// The error for a persistent method when no persistent storage is configured.
pub fn not_configured() -> (d: RpcErrorData)
    ensures
        d.code == INTERNAL_ERROR,
        d.message@ == "Persistent storage not configured"@,
{
    RpcErrorData::internal_error("Persistent storage not configured")
}

/// Subscribes connection `conn_id` to `topic`: a topic holding `*` or `>`
/// becomes a pattern subscription (refused when it is not a valid pattern),
/// any other an exact one. Gives whether it was a pattern.
pub fn subscribe_topic(
    conn_id: u64,
    topic: &str,
    exact: &mut SubscriptionManager,
    patterns: &mut FilteredSubscriptionManager,
) -> (r: Result<bool, RpcErrorData>)
    requires
        old(exact).wf(),
        old(patterns).wf(),
    ensures
        final(exact).wf(),
        final(patterns).wf(),
        filter::has_wildcard(topic@) ==> match filter::parse_filter(topic@) {
            Ok(f) => {
                &&& r == Ok::<bool, RpcErrorData>(true)
                &&& final(patterns)@ == filter::subscribed(old(patterns)@, conn_id, f)
                &&& final(exact).topics_view() == old(exact).topics_view()
                &&& final(exact).conns_view() == old(exact).conns_view()
            },
            Err(e) => {
                &&& r is Err
                &&& r->Err_0.code == INVALID_PARAMS
                &&& r->Err_0.message@ == "Invalid pattern: "@ + filter::invalid_pattern_message(
                    nats_pattern::pattern_error_message(e),
                )
                &&& final(patterns)@ == old(patterns)@
                &&& final(exact).topics_view() == old(exact).topics_view()
                &&& final(exact).conns_view() == old(exact).conns_view()
            },
        },
        !filter::has_wildcard(topic@) ==> {
            &&& r == Ok::<bool, RpcErrorData>(false)
            &&& final(exact).topics_view() == index::ix_insert(
                old(exact).topics_view(),
                topic@,
                conn_id,
            )
            &&& final(exact).conns_view() == index::ix_insert(old(exact).conns_view(), conn_id, topic@)
            &&& final(patterns)@ == old(patterns)@
        },
{
    let chars = crate::text::str_chars(topic);
    let is_pattern = crate::text::has_char(&chars, '*') || crate::text::has_char(&chars, '>');
    if is_pattern {
        match TopicFilter::new(topic) {
            Ok(f) => {
                patterns.subscribe(conn_id, f);
                Ok(true)
            },
            Err(e) => {
                let m = e.to_string();
                Err(RpcErrorData::invalid_params(concat_str("Invalid pattern: ", m.as_str()).as_str()))
            },
        }
    } else {
        let _ = exact.subscribe(conn_id, topic);
        Ok(false)
    }
}

/// Unsubscribes connection `conn_id` from `topic`, both as an exact topic
/// and as a pattern; `true` when either subscription existed.
pub fn unsubscribe_topic(
    conn_id: u64,
    topic: &str,
    exact: &mut SubscriptionManager,
    patterns: &mut FilteredSubscriptionManager,
) -> (r: bool)
    requires
        old(exact).wf(),
        old(patterns).wf(),
    ensures
        final(exact).wf(),
        final(patterns).wf(),
        final(exact).topics_view() == index::ix_remove(old(exact).topics_view(), topic@, conn_id),
        final(exact).conns_view() == index::ix_remove(old(exact).conns_view(), conn_id, topic@),
        final(patterns)@ == filter::unsubscribed(old(patterns)@, conn_id, topic@),
        r == (old(exact).is_subscribed(conn_id, topic@) || filter::without_text(
            filter::conn_filters(old(patterns)@, conn_id),
            topic@,
        ).len() < filter::conn_filters(old(patterns)@, conn_id).len()),
{
    let was_exact = exact.unsubscribe(conn_id, topic);
    let was_pattern = patterns.unsubscribe(conn_id, topic);
    was_exact || was_pattern
}

/// The error answering a persistent subscription whose registration failed.
pub fn registration_failed(e: &ServerError) -> (d: RpcErrorData)
    ensures
        d.code == INTERNAL_ERROR,
        d.message@ == "Failed to register subscription: "@ + error_message(*e),
{
    prefixed_internal("Failed to register subscription: ", e)
}

/// The error answering a persistent subscription whose backlog could not be read.
pub fn retrieval_failed(e: &ServerError) -> (d: RpcErrorData)
    ensures
        d.code == INTERNAL_ERROR,
        d.message@ == "Failed to retrieve messages: "@ + error_message(*e),
{
    prefixed_internal("Failed to retrieve messages: ", e)
}

/// The error answering an acknowledgment that failed.
pub fn acknowledge_failed(e: &ServerError) -> (d: RpcErrorData)
    ensures
        d.code == INTERNAL_ERROR,
        d.message@ == "Failed to acknowledge: "@ + error_message(*e),
{
    prefixed_internal("Failed to acknowledge: ", e)
}

/// The error answering a persistent unsubscription that failed.
pub fn unsubscribe_failed(e: &ServerError) -> (d: RpcErrorData)
    ensures
        d.code == INTERNAL_ERROR,
        d.message@ == "Failed to unsubscribe: "@ + error_message(*e),
{
    prefixed_internal("Failed to unsubscribe: ", e)
}

/// The error answering a persistent subscription whose topic is not a valid pattern.
pub fn invalid_topic_pattern(e: PatternError) -> (d: RpcErrorData)
    ensures
        d.code == INVALID_PARAMS,
        d.message@ == "Invalid topic pattern: "@ + nats_pattern::pattern_error_message(e),
{
    let m = e.to_string();
    RpcErrorData::invalid_params(concat_str("Invalid topic pattern: ", m.as_str()).as_str())
}

/// An internal error whose message is `prefix` and the error's text.
fn prefixed_internal(prefix: &str, e: &ServerError) -> (d: RpcErrorData)
    ensures
        d.code == INTERNAL_ERROR,
        d.message@ == prefix@ + error_message(*e),
{
    let m = e.to_string();
    RpcErrorData::internal_error(concat_str(prefix, m.as_str()).as_str())
}

/// The result of one subscription of a persistent batch subscription.
#[derive(Debug, Clone, PartialEq, Eq)]
pub struct SubscribeItemResult {
    pub subscription_id: String,
    pub topic: String,
    pub success: bool,
    pub resumed_from_seq: u64,
    pub undelivered_count: usize,
    pub error: Option<String>,
}

/// The result of one acknowledgment of a batch acknowledgment.
#[derive(Debug, Clone, PartialEq, Eq)]
pub struct AckItemResult {
    pub subscription_id: String,
    pub sequence_id: u64,
    pub acknowledged: bool,
    pub error: Option<String>,
}

/// The result of one unsubscription of a batch unsubscription.
#[derive(Debug, Clone, PartialEq, Eq)]
pub struct UnsubscribeItemResult {
    pub subscription_id: String,
    pub unsubscribed: bool,
    pub error: Option<String>,
}

/// What happened to one subscription of a persistent batch subscription.
pub enum SubscribeItemOutcome {
    /// The registration failed
    RegistrationFailed(ServerError),
    /// The topic is not a valid pattern; the subscription resumes from the given position
    InvalidPattern(u64, PatternError),
    /// The backlog could not be read
    RetrievalFailed(u64, ServerError),
    /// Registered; resumed from the given position with that many backlog messages
    Delivered(u64, usize),
}

/// The result reported for one subscription of a persistent batch subscription.
pub fn subscribe_item_result(subscription_id: String, topic: String, outcome: SubscribeItemOutcome) -> (r:
    SubscribeItemResult)
    ensures
        r.subscription_id == subscription_id,
        r.topic == topic,
        match outcome {
            SubscribeItemOutcome::RegistrationFailed(e) => {
                &&& !r.success
                &&& r.resumed_from_seq == 0
                &&& r.undelivered_count == 0
                &&& r.error matches Some(m) && m@ == error_message(e)
            },
            SubscribeItemOutcome::InvalidPattern(resumed, e) => {
                &&& !r.success
                &&& r.resumed_from_seq == resumed
                &&& r.undelivered_count == 0
                &&& r.error matches Some(m) && m@ == "Invalid topic pattern: "@
                    + nats_pattern::pattern_error_message(e)
            },
            SubscribeItemOutcome::RetrievalFailed(resumed, e) => {
                &&& !r.success
                &&& r.resumed_from_seq == resumed
                &&& r.undelivered_count == 0
                &&& r.error matches Some(m) && m@ == "Failed to retrieve messages: "@ + error_message(
                    e,
                )
            },
            SubscribeItemOutcome::Delivered(resumed, count) => {
                &&& r.success
                &&& r.resumed_from_seq == resumed
                &&& r.undelivered_count == count
                &&& r.error is None
            },
        },
{
    match outcome {
        SubscribeItemOutcome::RegistrationFailed(e) => SubscribeItemResult {
            subscription_id,
            topic,
            success: false,
            resumed_from_seq: 0,
            undelivered_count: 0,
            error: Some(e.to_string()),
        },
        SubscribeItemOutcome::InvalidPattern(resumed, e) => {
            let m = e.to_string();
            SubscribeItemResult {
                subscription_id,
                topic,
                success: false,
                resumed_from_seq: resumed,
                undelivered_count: 0,
                error: Some(concat_str("Invalid topic pattern: ", m.as_str())),
            }
        },
        SubscribeItemOutcome::RetrievalFailed(resumed, e) => {
            let m = e.to_string();
            SubscribeItemResult {
                subscription_id,
                topic,
                success: false,
                resumed_from_seq: resumed,
                undelivered_count: 0,
                error: Some(concat_str("Failed to retrieve messages: ", m.as_str())),
            }
        },
        SubscribeItemOutcome::Delivered(resumed, count) => SubscribeItemResult {
            subscription_id,
            topic,
            success: true,
            resumed_from_seq: resumed,
            undelivered_count: count,
            error: None,
        },
    }
}

/// The result reported for one acknowledgment of a batch acknowledgment.
pub fn ack_item_result(subscription_id: String, sequence_id: u64, outcome: Result<(), ServerError>) -> (r:
    AckItemResult)
    ensures
        r.subscription_id == subscription_id,
        r.sequence_id == sequence_id,
        r.acknowledged == outcome is Ok,
        match outcome {
            Ok(()) => r.error is None,
            Err(e) => r.error matches Some(m) && m@ == error_message(e),
        },
{
    match outcome {
        Ok(()) => AckItemResult { subscription_id, sequence_id, acknowledged: true, error: None },
        Err(e) => AckItemResult {
            subscription_id,
            sequence_id,
            acknowledged: false,
            error: Some(e.to_string()),
        },
    }
}

/// The result reported for one unsubscription of a batch unsubscription.
pub fn unsubscribe_item_result(subscription_id: String, outcome: Result<bool, ServerError>) -> (r:
    UnsubscribeItemResult)
    ensures
        r.subscription_id == subscription_id,
        match outcome {
            Ok(b) => r.unsubscribed == b && r.error is None,
            Err(e) => !r.unsubscribed && (r.error matches Some(m) && m@ == error_message(e)),
        },
{
    match outcome {
        Ok(b) => UnsubscribeItemResult { subscription_id, unsubscribed: b, error: None },
        Err(e) => UnsubscribeItemResult {
            subscription_id,
            unsubscribed: false,
            error: Some(e.to_string()),
        },
    }
}

} // verus!
