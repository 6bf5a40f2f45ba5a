//! The way of one request through a session: the target is looked up, the
//! policies are asked, and the call is handed on, bound to the
//! cancellation signal of the target's entry.

use crate::outbound::Target;
use crate::rbac::{Identity, ResourceKind, ResourceType, ResourceTypeView};
use crate::xds::{clone_token, policies_permit, XdsStore};
use tokio_util::sync::CancellationToken;
use vstd::prelude::*;

verus! {

/// Why a request was not served.
#[derive(Clone, Copy, Debug, PartialEq, Eq, Structural)]
pub enum RelayError {
    /// The store holds no target of the name asked for.
    NotFound,
    /// No policy permits the caller to reach the resource.
    PermissionDenied,
    /// The target was removed or replaced while the call was under way.
    TargetGone,
}

impl RelayError {
    /// The error in words.
    pub fn message(&self) -> (text: &'static str)
        ensures
            text@ == match *self {
                RelayError::NotFound => "target not found"@,
                RelayError::PermissionDenied => "permission denied"@,
                RelayError::TargetGone => "target gone"@,
            },
    {
        match self {
            RelayError::NotFound => "target not found",
            RelayError::PermissionDenied => "permission denied",
            RelayError::TargetGone => "target gone",
        }
    }
}

/// A call that a session received.
#[derive(Clone, Debug)]
pub struct Request {
    pub kind: ResourceKind,
    pub target: String,
    pub operation: String,
    pub args: Vec<u8>,
}

impl Request {
    /// The resource that the call reaches.
    pub open spec fn resource(&self) -> ResourceTypeView {
        ResourceTypeView { kind: self.kind, target: self.target@, operation: self.operation@ }
    }
}

/// What is to be done with a call.
#[derive(Debug)]
pub enum Route {
    /// Answer with this error.
    Refuse(RelayError),
    /// Hand the call on to `target`, and abort it when `cancel` fires.
    Forward { target: Target, cancel: CancellationToken },
}

/// Decides what is to be done with a call, on a store that the caller
/// holds for reading. A call that is handed on takes a copy of the target
/// and a handle of its cancellation signal with it, so that the store can
/// be let go of before the call is made.
pub fn route(state: &XdsStore, request: &Request, identity: &Identity) -> (r: Route)
    requires
        state.wf(),
        identity.wf(),
    ensures
        match r {
            Route::Refuse(RelayError::NotFound) => !state.targets@.entries.contains_key(
                request.target@,
            ),
            Route::Refuse(RelayError::PermissionDenied) => state.targets@.entries.contains_key(
                request.target@,
            ) && !policies_permit(state.policies@, request.resource(), identity@),
            Route::Refuse(RelayError::TargetGone) => false,
            Route::Forward { target, cancel } => {
                &&& state.targets@.entries.contains_key(request.target@)
                &&& policies_permit(state.policies@, request.resource(), identity@)
                &&& target.wf()
                &&& target@ == state.targets@.entries[request.target@].target
                &&& cancel == state.targets@.entries[request.target@].cancel
            },
        },
{
    let (target, cancel) = match state.targets.get(request.target.as_str()) {
        Some(found) => found,
        None => {
            return Route::Refuse(RelayError::NotFound);
        },
    };
    let resource = ResourceType::new(
        request.kind,
        request.target.clone(),
        request.operation.clone(),
    );
    if !state.policies.validate(&resource, identity) {
        return Route::Refuse(RelayError::PermissionDenied);
    }
    Route::Forward { target: target.duplicate(), cancel: clone_token(cancel) }
}

/// How a call that was handed on ended.
#[derive(Debug, PartialEq, Eq)]
pub enum Outcome {
    /// The cancellation signal fired before the target answered.
    Cancelled,
    /// The target answered, with a payload or with a failure of its own.
    Completed(Result<Vec<u8>, String>),
}

/// What the session gets to see of a call.
#[derive(Debug, PartialEq, Eq)]
pub enum Response {
    /// The payload of the target, as it came.
    Success(Vec<u8>),
    /// The failure that the target reported, as it came.
    Failure(String),
    /// The call was not served.
    Error(RelayError),
}

/// The answer to a call that was not handed on.
pub fn refuse(error: RelayError) -> (response: Response)
    ensures
        response == Response::Error(error),
{
    Response::Error(error)
}

/// The answer to a call that was handed on: what the target answered,
/// unchanged, or `TargetGone` where the call was aborted.
pub fn settle(outcome: Outcome) -> (response: Response)
    ensures
        response == match outcome {
            Outcome::Cancelled => Response::Error(RelayError::TargetGone),
            Outcome::Completed(Ok(payload)) => Response::Success(payload),
            Outcome::Completed(Err(failure)) => Response::Failure(failure),
        },
{
    match outcome {
        Outcome::Cancelled => Response::Error(RelayError::TargetGone),
        Outcome::Completed(Ok(payload)) => Response::Success(payload),
        Outcome::Completed(Err(failure)) => Response::Failure(failure),
    }
}

} // verus!
