//! JSON-RPC batch requests: the size limit and what each batch element gets.
use vstd::prelude::*;

use crate::error::{ServerError, RpcErrorData, INVALID_REQUEST};

verus! {

/// How the elements of a batch are processed.
#[derive(Debug, Clone, Copy, PartialEq, Eq, Structural)]
pub enum BatchMode {
    /// All elements at once
    Parallel,
    /// One element after the other
    Sequential,
}

impl Default for BatchMode {
    fn default() -> (m: Self)
        ensures
            m == BatchMode::Parallel,
    {
        BatchMode::Parallel
    }
}

/// Processes batches in a mode, up to an optional size limit.
#[derive(Debug, Clone, Copy)]
pub struct BatchProcessor {
    mode: BatchMode,
    max_size: Option<usize>,
}

impl BatchProcessor {
    /// The processing mode.
    pub closed spec fn mode_spec(&self) -> BatchMode {
        self.mode
    }

    /// The size limit, if any.
    pub closed spec fn max_size_spec(&self) -> Option<usize> {
        self.max_size
    }

    /// A processor without size limit.
    pub fn new(mode: BatchMode) -> (p: Self)
        ensures
            p.mode_spec() == mode,
            p.max_size_spec() is None,
    {
        BatchProcessor { mode, max_size: None }
    }

    /// A processor with an optional size limit.
    pub fn with_limit(mode: BatchMode, max_size: Option<usize>) -> (p: Self)
        ensures
            p.mode_spec() == mode,
            p.max_size_spec() == max_size,
    {
        BatchProcessor { mode, max_size }
    }

    /// The processing mode.
    pub fn mode(&self) -> (m: BatchMode)
        ensures
            m == self.mode_spec(),
    {
        self.mode
    }

    /// The size limit, if any.
    pub fn max_size(&self) -> (m: Option<usize>)
        ensures
            m == self.max_size_spec(),
    {
        self.max_size
    }

    /// Checks the size of a batch of `len` elements: over the limit, the
    /// whole batch is answered by one batch-size error.
    pub fn check_size(&self, len: usize) -> (r: Result<(), RpcErrorData>)
        ensures
            match self.max_size_spec() {
                Some(max) => if len > max {
                    &&& r is Err
                    &&& r->Err_0.code == INVALID_REQUEST
                    &&& r->Err_0.message@ == "Batch size limit exceeded: "@ + crate::error::decimal(
                        len as nat,
                    ) + " > "@ + crate::error::decimal(max as nat)
                } else {
                    r is Ok
                },
                None => r is Ok,
            },
    {
        match self.max_size {
            Some(max) => {
                if len > max {
                    Err(RpcErrorData::batch_size_exceeded(max, len))
                } else {
                    Ok(())
                }
            },
            None => Ok(()),
        }
    }
}

/// What one element of a batch turned out to be once decoded.
#[derive(Debug, Clone, PartialEq, Eq)]
pub enum BatchElement {
    /// A request: it is answered
    Request,
    /// A notification: it is handled, and not answered
    Notification,
    /// A nested batch: refused
    Batch,
    /// A response: ignored
    Response,
    /// Not a JSON-RPC message: refused with the decoding error
    Invalid(ServerError),
}

/// What is done with one element of a batch.
#[derive(Debug, Clone, PartialEq, Eq)]
pub enum BatchElementAction {
    /// Process the request and add its response
    Respond,
    /// Route the notification; add nothing
    Notify,
    /// Add this error response (with a null id)
    Reject(RpcErrorData),
    /// Add nothing
    Skip,
}

/// The error response for nested batches.
pub open spec fn nested_batch_message() -> Seq<char> {
    "Nested batches are not allowed"@
}

/// What is done with one decoded element of a batch.
pub fn element_action(element: &BatchElement) -> (a: BatchElementAction)
    ensures
        match element {
            BatchElement::Request => a == BatchElementAction::Respond,
            BatchElement::Notification => a == BatchElementAction::Notify,
            BatchElement::Response => a == BatchElementAction::Skip,
            BatchElement::Batch => a matches BatchElementAction::Reject(e) && e.code
                == INVALID_REQUEST && e.message@ == nested_batch_message(),
            BatchElement::Invalid(err) => a matches BatchElementAction::Reject(e) && e.code
                == INVALID_REQUEST && e.message@ == crate::error::error_message(*err),
        },
{
    match element {
        BatchElement::Request => BatchElementAction::Respond,
        BatchElement::Notification => BatchElementAction::Notify,
        BatchElement::Response => BatchElementAction::Skip,
        BatchElement::Batch => BatchElementAction::Reject(
            RpcErrorData::invalid_request("Nested batches are not allowed"),
        ),
        BatchElement::Invalid(err) => {
            let m = err.to_string();
            BatchElementAction::Reject(RpcErrorData::invalid_request(m.as_str()))
        },
    }
}

/// The answers present among the outcomes, in order.
pub open spec fn present<R>(outcomes: Seq<Option<R>>) -> Seq<R>
    decreases outcomes.len(),
{
    if outcomes.len() == 0 {
        Seq::empty()
    } else {
        let rest = present(outcomes.drop_last());
        match outcomes.last() {
            Some(r) => rest.push(r),
            None => rest,
        }
    }
}

/// The answers among the outcomes are exactly the outcomes that are `Some`,
/// unwrapped, in the order of the outcomes: one response per answered
/// element, none dropped, none added, none reordered.
pub proof fn lemma_present_keeps_every_answer<R>(outcomes: Seq<Option<R>>)
    ensures
        present(outcomes) == outcomes.filter(|o: Option<R>| o is Some).map_values(
            |o: Option<R>| o->Some_0,
        ),
        present(outcomes).len() == outcomes.filter(|o: Option<R>| o is Some).len(),
    decreases outcomes.len(),
{
    reveal(Seq::filter);
    if outcomes.len() > 0 {
        lemma_present_keeps_every_answer(outcomes.drop_last());
        let f = outcomes.drop_last().filter(|o: Option<R>| o is Some);
        if outcomes.last() is Some {
            assert(f.push(outcomes.last()).map_values(|o: Option<R>| o->Some_0) =~= f.map_values(
                |o: Option<R>| o->Some_0,
            ).push(outcomes.last()->Some_0));
        }
    } else {
        assert(present(outcomes) =~= outcomes.filter(|o: Option<R>| o is Some).map_values(
            |o: Option<R>| o->Some_0,
        ));
    }
}

/// The responses of a batch: the answers of the elements that have one, in
/// the order of the elements.
pub fn collect_responses<R>(outcomes: Vec<Option<R>>) -> (r: Vec<R>)
    ensures
        r@ == present(outcomes@),
        r@ == outcomes@.filter(|o: Option<R>| o is Some).map_values(|o: Option<R>| o->Some_0),
{
    proof {
        lemma_present_keeps_every_answer(outcomes@);
    }
    let ghost s = outcomes@;
    let mut r: Vec<R> = Vec::new();
    for o in it: outcomes
        invariant
            it.seq() == s,
            r@ == present(s.take(it.index() as int)),
    {
        assert(s.take(it.index() + 1).drop_last() =~= s.take(it.index() as int));
        assert(s.take(it.index() + 1).last() == o);
        match o {
            Some(x) => r.push(x),
            None => {},
        }
    }
    assert(s.take(s.len() as int) =~= s);
    r
}

} // verus!
