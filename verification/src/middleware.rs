//! Middleware: the order in which a chain runs its middlewares around a
//! handler, and the built-in middlewares' own state.
//!
//! A chain runs each middleware's pre-handler in order; a pre-handler may
//! let the request continue, answer it at once (short-circuit), or fail. When
//! all continue, the handler runs, then each post-handler in reverse order;
//! post-handler failures are ignored and the handler's result is returned.
use vstd::prelude::*;

use crate::text::{concat_str, push_char, str_chars};

verus! {

/// Where a chain of `len` middlewares is in handling one request.
#[derive(Debug, Clone, Copy, PartialEq, Eq, Structural)]
pub enum ChainState {
    /// The pre-handler of middleware `next` is to run
    Before { next: usize },
    /// The handler is running
    Handling,
    /// The post-handlers of the first `remaining` middlewares are still to run
    After { remaining: usize },
    /// The request is answered
    Finished,
}

/// What the chain does next.
#[derive(Debug, Clone, Copy, PartialEq, Eq, Structural)]
pub enum ChainAction {
    /// Run the pre-handler of middleware `i`
    RunPre(usize),
    /// Run the handler
    RunHandler,
    /// Run the post-handler of middleware `i`
    RunPost(usize),
    /// Answer with the short-circuit value
    AnswerShortCircuit,
    /// Answer with the pre-handler's error
    AnswerPreError,
    /// Answer with the handler's result
    AnswerResult,
}

/// What a pre-handler decided.
#[derive(Debug, Clone, Copy, PartialEq, Eq, Structural)]
pub enum PreOutcome {
    Continue,
    ShortCircuit,
    Failed,
}

/// The state and action when a chain of `len` middlewares starts a request.
pub open spec fn chain_start_spec(len: nat) -> (ChainState, ChainAction) {
    if len == 0 {
        (ChainState::Handling, ChainAction::RunHandler)
    } else {
        (ChainState::Before { next: 0 }, ChainAction::RunPre(0))
    }
}

/// After the handler finished: the post-handlers from the last, or the answer.
pub open spec fn after_handler_spec(len: nat) -> (ChainState, ChainAction) {
    if len == 0 {
        (ChainState::Finished, ChainAction::AnswerResult)
    } else {
        (ChainState::After { remaining: (len - 1) as usize }, ChainAction::RunPost((len - 1) as usize))
    }
}

/// Starts a request through a chain of `len` middlewares.
pub fn chain_start(len: usize) -> (r: (ChainState, ChainAction))
    ensures
        r == chain_start_spec(len as nat),
{
    if len == 0 {
        (ChainState::Handling, ChainAction::RunHandler)
    } else {
        (ChainState::Before { next: 0 }, ChainAction::RunPre(0))
    }
}

/// The step after pre-handler `i` of a chain of `len` middlewares decided
/// `outcome`: the next pre-handler or the handler when it continues; the
/// answer when it short-circuits or fails (no handler and no post-handler run).
pub fn after_pre(len: usize, i: usize, outcome: PreOutcome) -> (r: (ChainState, ChainAction))
    requires
        i < len,
    ensures
        match outcome {
            PreOutcome::Continue => if i + 1 < len {
                r == (ChainState::Before { next: (i + 1) as usize }, ChainAction::RunPre(
                    (i + 1) as usize,
                ))
            } else {
                r == (ChainState::Handling, ChainAction::RunHandler)
            },
            PreOutcome::ShortCircuit => r == (ChainState::Finished, ChainAction::AnswerShortCircuit),
            PreOutcome::Failed => r == (ChainState::Finished, ChainAction::AnswerPreError),
        },
{
    match outcome {
        PreOutcome::Continue => {
            if i + 1 < len {
                (ChainState::Before { next: i + 1 }, ChainAction::RunPre(i + 1))
            } else {
                (ChainState::Handling, ChainAction::RunHandler)
            }
        },
        PreOutcome::ShortCircuit => (ChainState::Finished, ChainAction::AnswerShortCircuit),
        PreOutcome::Failed => (ChainState::Finished, ChainAction::AnswerPreError),
    }
}

/// The step after the handler of a chain of `len` middlewares finished.
pub fn after_handler(len: usize) -> (r: (ChainState, ChainAction))
    ensures
        r == after_handler_spec(len as nat),
{
    if len == 0 {
        (ChainState::Finished, ChainAction::AnswerResult)
    } else {
        (ChainState::After { remaining: len - 1 }, ChainAction::RunPost(len - 1))
    }
}

/// The step after post-handler `i` ran (whatever it returned): the one
/// before it, or the handler's result once the first has run.
pub fn after_post(i: usize) -> (r: (ChainState, ChainAction))
    ensures
        if i > 0 {
            r == (ChainState::After { remaining: (i - 1) as usize }, ChainAction::RunPost(
                (i - 1) as usize,
            ))
        } else {
            r == (ChainState::Finished, ChainAction::AnswerResult)
        },
{
    if i > 0 {
        (ChainState::After { remaining: i - 1 }, ChainAction::RunPost(i - 1))
    } else {
        (ChainState::Finished, ChainAction::AnswerResult)
    }
}

/// The actions of a chain of `len` middlewares whose pre-handlers all
/// continue, from pre-handler `i` on: the remaining pre-handlers in order,
/// the handler, every post-handler in reverse order, the answer.
pub open spec fn continuing_trace(len: nat, i: nat) -> Seq<ChainAction>
    decreases len - i,
{
    if i >= len {
        seq![ChainAction::RunHandler] + post_trace(len)
    } else {
        seq![ChainAction::RunPre(i as usize)] + continuing_trace(len, i + 1)
    }
}

/// The actions after the handler of a chain of `len` middlewares: every
/// post-handler from the last to the first, then the answer.
pub open spec fn post_trace(len: nat) -> Seq<ChainAction>
    decreases len,
{
    if len == 0 {
        seq![ChainAction::AnswerResult]
    } else {
        seq![ChainAction::RunPost((len - 1) as usize)] + post_trace((len - 1) as nat)
    }
}

/// The actions the step functions produce, starting from `(state, action)`,
/// when every pre-handler continues.
pub open spec fn run_continuing(len: nat, state: ChainState, action: ChainAction, fuel: nat) -> Seq<
    ChainAction,
>
    decreases fuel,
{
    if fuel == 0 {
        seq![action]
    } else {
        match state {
            ChainState::Before { next } => {
                let (s2, a2) = if next + 1 < len {
                    (ChainState::Before { next: (next + 1) as usize }, ChainAction::RunPre(
                        (next + 1) as usize,
                    ))
                } else {
                    (ChainState::Handling, ChainAction::RunHandler)
                };
                seq![action] + run_continuing(len, s2, a2, (fuel - 1) as nat)
            },
            ChainState::Handling => {
                let (s2, a2) = after_handler_spec(len);
                seq![action] + run_continuing(len, s2, a2, (fuel - 1) as nat)
            },
            ChainState::After { remaining } => {
                let (s2, a2) = if remaining > 0 {
                    (ChainState::After { remaining: (remaining - 1) as usize }, ChainAction::RunPost(
                        (remaining - 1) as usize,
                    ))
                } else {
                    (ChainState::Finished, ChainAction::AnswerResult)
                };
                seq![action] + run_continuing(len, s2, a2, (fuel - 1) as nat)
            },
            ChainState::Finished => seq![action],
        }
    }
}

/// The post-handlers run from the last to the first, then the answer.
proof fn lemma_post_steps(len: nat, r: nat, fuel: nat)
    requires
        r < len,
        len <= usize::MAX,
        fuel == r + 1,
    ensures
        run_continuing(
            len,
            ChainState::After { remaining: r as usize },
            ChainAction::RunPost(r as usize),
            fuel,
        ) == post_trace(r + 1),
    decreases r,
{
    if r > 0 {
        lemma_post_steps(len, (r - 1) as nat, r);
    } else {
        assert(run_continuing(len, ChainState::Finished, ChainAction::AnswerResult, 0) == seq![
            ChainAction::AnswerResult,
        ]);
        assert(post_trace(0) == seq![ChainAction::AnswerResult]);
    }
}

/// From pre-handler `i`, the steps run the rest of the pre-handlers, the
/// handler, and the post-handlers in reverse.
proof fn lemma_pre_steps(len: nat, i: nat)
    requires
        i < len,
        len <= usize::MAX,
    ensures
        run_continuing(
            len,
            ChainState::Before { next: i as usize },
            ChainAction::RunPre(i as usize),
            ((len - i) + 1 + len) as nat,
        ) == continuing_trace(len, i),
    decreases len - i,
{
    let fuel = ((len - i) + 1 + len) as nat;
    if i + 1 < len {
        lemma_pre_steps(len, i + 1);
    } else {
        lemma_handler_steps(len);
        assert(continuing_trace(len, i + 1) == seq![ChainAction::RunHandler] + post_trace(len));
    }
}

/// From the handler, the steps run the post-handlers in reverse, then answer.
proof fn lemma_handler_steps(len: nat)
    requires
        len <= usize::MAX,
    ensures
        run_continuing(len, ChainState::Handling, ChainAction::RunHandler, len + 1) == seq![
            ChainAction::RunHandler,
        ] + post_trace(len),
{
    if len > 0 {
        lemma_post_steps(len, (len - 1) as nat, len);
    } else {
        assert(run_continuing(0, ChainState::Finished, ChainAction::AnswerResult, 0) == seq![
            ChainAction::AnswerResult,
        ]);
    }
}

/// When every pre-handler continues, a chain runs all pre-handlers in order,
/// then the handler, then all post-handlers in reverse order, then answers
/// with the handler's result.
pub proof fn lemma_chain_order(len: nat)
    requires
        len <= usize::MAX,
    ensures
        run_continuing(len, chain_start_spec(len).0, chain_start_spec(len).1, 2 * len + 1)
            == continuing_trace(len, 0),
{
    if len > 0 {
        lemma_pre_steps(len, 0);
    } else {
        lemma_handler_steps(0);
    }
}

/// Logs each request and response.
#[derive(Debug, Clone, Copy)]
pub struct LoggingMiddleware;

impl LoggingMiddleware {
    /// A logging middleware.
    pub fn new() -> (m: Self) {
        LoggingMiddleware
    }
}

impl Default for LoggingMiddleware {
    fn default() -> (m: Self) {
        Self::new()
    }
}

/// The decimal digits of a `u64`.
pub open spec fn decimal_u64(n: u64) -> Seq<char> {
    crate::error::decimal(n as nat)
}

/// Appends the decimal digits of `n` to `out`.
pub(crate) fn push_decimal_u64(n: u64, out: &mut String)
    ensures
        final(out)@ == old(out)@ + crate::error::decimal(n as nat),
    decreases n,
{
    if n >= 10 {
        push_decimal_u64(n / 10, out);
    }
    let c = crate::storage::digit_char(n % 10);
    push_char(out, c);
    if n >= 10 {
        assert(old(out)@ + crate::error::decimal(n as nat) =~= old(out)@ + crate::error::decimal(
            (n / 10) as nat,
        ) + seq![c]);
    } else {
        assert(old(out)@ + crate::error::decimal(n as nat) =~= old(out)@ + seq![c]);
    }
}

/// The line logged for a request: `[Middleware] Request: method=M, conn_id=N`.
pub fn request_log_line(method: &str, conn_id: u64) -> (s: String)
    ensures
        s@ == "[Middleware] Request: method="@ + method@ + ", conn_id="@ + decimal_u64(conn_id),
{
    let head = concat_str("[Middleware] Request: method=", method);
    let mut s = concat_str(head.as_str(), ", conn_id=");
    push_decimal_u64(conn_id, &mut s);
    s
}

/// The first `n` characters of `s` (all of it when shorter).
pub fn first_chars(s: &str, n: usize) -> (r: String)
    ensures
        r@ == if s@.len() <= n {
            s@
        } else {
            s@.take(n as int)
        },
{
    let cs = str_chars(s);
    let mut r = String::new();
    let mut i: usize = 0;
    while i < cs.len() && i < n
        invariant
            cs@ == s@,
            i <= cs.len(),
            i <= n,
            r@ == s@.take(i as int),
        decreases cs.len() - i,
    {
        push_char(&mut r, cs[i]);
        assert(s@.take(i + 1) =~= s@.take(i as int).push(cs@[i as int]));
        i = i + 1;
    }
    proof {
        if s@.len() <= n {
            assert(s@.take(s@.len() as int) =~= s@);
        }
    }
    r
}

/// Counts requests.
#[derive(Debug, Clone, Copy)]
pub struct MetricsMiddleware {
    request_count: u64,
}

impl MetricsMiddleware {
    /// The number of requests counted so far.
    pub closed spec fn count(&self) -> u64 {
        self.request_count
    }

    /// A metrics middleware that has counted nothing.
    pub fn new() -> (m: Self)
        ensures
            m.count() == 0,
    {
        MetricsMiddleware { request_count: 0 }
    }

    /// The number of requests counted so far.
    pub fn get_request_count(&self) -> (n: u64)
        ensures
            n == self.count(),
    {
        self.request_count
    }

    /// Counts one more request (wrapping around past the largest count).
    pub fn count_request(&mut self)
        ensures
            final(self).count() == if old(self).count() == u64::MAX {
                0
            } else {
                (old(self).count() + 1) as u64
            },
    {
        self.request_count = self.request_count.wrapping_add(1);
    }
}

impl Default for MetricsMiddleware {
    fn default() -> (m: Self)
        ensures
            m.count() == 0,
    {
        Self::new()
    }
}

/// The time a request took, in milliseconds, from its start and end times.
pub fn elapsed_ms(start_ms: u64, now_ms: u64) -> (d: u64)
    requires
        start_ms <= now_ms,
    ensures
        d == now_ms - start_ms,
{
    now_ms - start_ms
}

/// The line logged for a request's duration: `[Metrics] method=M, duration=Dms`.
pub fn metrics_log_line(method: &str, duration_ms: u64) -> (s: String)
    ensures
        s@ == "[Metrics] method="@ + method@ + ", duration="@ + decimal_u64(duration_ms) + "ms"@,
{
    let head = concat_str("[Metrics] method=", method);
    let mut s = concat_str(head.as_str(), ", duration=");
    push_decimal_u64(duration_ms, &mut s);
    concat_str(s.as_str(), "ms")
}

/// Traces each request in a span.
#[derive(Debug, Clone, Copy)]
pub struct TracingMiddleware;

impl TracingMiddleware {
    /// A tracing middleware.
    pub fn new() -> (m: Self) {
        TracingMiddleware
    }
}

impl Default for TracingMiddleware {
    fn default() -> (m: Self) {
        Self::new()
    }
}

} // verus!
