//! State that answers calls one at a time, for a mailbox to drive.
use vstd::prelude::*;

verus! {

#[verifier::external_type_specification]
#[verifier::external_body]
pub struct ExAnyhowError(anyhow::Error);

/// State that answers calls one at a time, each of which may change it.
pub trait HandleCall: Sized {
    type Request;

    type Reply;

    /// Whether answering `request` may take the state from `self` to `next`
    /// and give `reply`.
    spec fn handles(self, request: Self::Request, next: Self, reply: Self::Reply) -> bool;

    /// Whether answering `request` may fail.
    spec fn may_fail(self, request: Self::Request) -> bool;

    /// Answers `request`, updating the state.
    fn handle_call(&mut self, request: &Self::Request) -> (r: Result<Self::Reply, anyhow::Error>)
        ensures
            r matches Ok(reply) ==> old(self).handles(*request, *final(self), reply),
            r is Err ==> old(self).may_fail(*request),
    ;
}

} // verus!
