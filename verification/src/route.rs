//! Routing client requests against current slice ownership.
//!
//! A request is served only when its subject's hash key falls into an owned
//! slice; otherwise it is rejected at once and no subprocess is contacted.
//! For a served request, the caller performs one exchange with the subject's
//! subprocess and hands the outcome back to be interpreted.

use vstd::prelude::*;

use crate::face::Expression;
use crate::hashspace::expression_is_assigned;
use crate::hashspace::slice_key_of;
use crate::message::RejectReason;
use crate::message::Request;
use crate::message::Response;
use crate::message::sp_request;
use crate::slices::AssignmentStore;
use crate::slices::covers;

verus! {

/// What the node does with a parsed request.
#[derive(Clone, Copy, Debug, PartialEq, Eq, Structural)]
pub enum RouteDecision {
    /// Answer at once, without contacting any subprocess.
    Respond(Response),
    /// The subject is owned: exchange one classification round with its
    /// subprocess, then interpret the reply.
    Dispatch(Expression),
}

/// A violation of the subprocess protocol.
#[derive(Clone, Copy, Debug, PartialEq, Eq, Structural)]
pub enum ProtocolError {
    /// The subprocess replied with a byte that is neither prediction digit.
    UnexpectedPrediction(u8),
}

/// What came back from one exchange with a subject's subprocess.
#[derive(Clone, Copy, Debug, PartialEq, Eq, Structural)]
pub enum DispatchOutcome {
    /// The first byte of the subprocess's reply.
    Reply(u8),
    /// The exchange failed before a reply byte could be read.
    Failed,
}

/// Decide a request against current ownership.
///
/// A subject whose hash key lies outside every owned slice is rejected with
/// the routing reason, and no subprocess is ever contacted for it; an owned
/// subject is dispatched.
pub fn handle_request(store: &AssignmentStore, request: &Request) -> (decision: RouteDecision)
    ensures
        covers(store@, slice_key_of(request.subject)) ==> decision == RouteDecision::Dispatch(
            request.subject,
        ),
        !covers(store@, slice_key_of(request.subject)) ==> decision == RouteDecision::Respond(
            Response::Reject {
                reason: RejectReason::NotAssigned,
                subject: request.subject,
            },
        ),
{
    if expression_is_assigned(store, &request.subject) {
        RouteDecision::Dispatch(request.subject)
    } else {
        RouteDecision::Respond(
            Response::Reject { reason: RejectReason::NotAssigned, subject: request.subject },
        )
    }
}

/// Turn the outcome of one subprocess exchange into the client-visible
/// result.
///
/// The ASCII digit `1` accepts with a match and `0` accepts without one; any
/// other reply byte is a protocol violation, surfaced as an internal error
/// distinct from any rejection. A failed exchange rejects with its own
/// reason, so a backend outage can be told apart from a routing rejection.
pub fn generate_response(subject: Expression, outcome: DispatchOutcome) -> (r: Result<
    Response,
    ProtocolError,
>)
    ensures
        match outcome {
            DispatchOutcome::Reply(b) => if b == 49 {
                r == Ok::<Response, ProtocolError>(Response::Accept { matches: true })
            } else if b == 48 {
                r == Ok::<Response, ProtocolError>(Response::Accept { matches: false })
            } else {
                r == Err::<Response, ProtocolError>(ProtocolError::UnexpectedPrediction(b))
            },
            DispatchOutcome::Failed => r == Ok::<Response, ProtocolError>(
                Response::Reject { reason: RejectReason::DispatchFailed, subject },
            ),
        },
{
    match outcome {
        DispatchOutcome::Reply(b) => {
            if b == 49 {
                Ok(Response::Accept { matches: true })
            } else if b == 48 {
                Ok(Response::Accept { matches: false })
            } else {
                Err(ProtocolError::UnexpectedPrediction(b))
            }
        },
        DispatchOutcome::Failed => Ok(
            Response::Reject { reason: RejectReason::DispatchFailed, subject },
        ),
    }
}

/// One step of the per-connection read loop: what to do with one raw line.
#[derive(Debug, PartialEq, Eq)]
pub enum ClientStep {
    /// The line is not a request record: skip it, keep the connection open.
    Skip,
    /// Answer at once, without contacting any subprocess.
    Respond(Response),
    /// The subject is owned: exchange the payload with the subject's
    /// subprocess, then interpret the reply.
    Dispatch(Expression, Vec<u8>),
}

/// Process one raw line from a client connection: decode it and route it.
pub fn process_client_line(store: &AssignmentStore, line: &[u8]) -> (step: ClientStep)
    ensures
        match sp_request(line@) {
            Option::None => step == ClientStep::Skip,
            Option::Some((subject, payload)) => if covers(store@, slice_key_of(subject)) {
                step matches ClientStep::Dispatch(e, p) && e == subject && p@ == payload
            } else {
                step == ClientStep::Respond(
                    Response::Reject { reason: RejectReason::NotAssigned, subject },
                )
            },
        },
{
    match Request::deserialize(line) {
        Err(_) => ClientStep::Skip,
        Ok(request) => {
            match handle_request(store, &request) {
                RouteDecision::Respond(resp) => ClientStep::Respond(resp),
                RouteDecision::Dispatch(subject) => ClientStep::Dispatch(subject, request.payload),
            }
        },
    }
}

} // verus!
