//! A stripped-down parachain validation function: it polls the logical
//! clock, enqueues one message, and has the clock send what is enqueued.

use crate::error::Error;
use crate::parachain::{dispatched, ParachainHostEnv};
use crate::primitives::{Req, ReqView};
use crate::spree::ModuleState;
use crate::wire::{try_encode, Wire};
use vstd::prelude::*;
use vstd::slice::slice_to_vec;
use vstd::string::StringSliceAdditionalSpecFns;

pub mod ext;

verus! {

/// The handle under which the logical clock is registered.
pub const LAMPORT_CLOCK: ext::SpreeHandle = 0;

/// The time slice that each call to the logical clock gets.
pub const TIME_SLICE: u32 = 1337;

/// The recipient of the message that the validation function enqueues.
pub const RECIPIENT: u32 = 1;

/// The payload of the message that the validation function enqueues.
pub const PAYLOAD: &'static str = "foo";

/// What a request to the logical clock does to the registered modules: the
/// clock is called under its handle, with `TIME_SLICE` and the request.
pub open spec fn requested(
    pre: Seq<ModuleState>,
    req: ReqView,
    r: Result<(), Error>,
    post: Seq<ModuleState>,
) -> bool {
    dispatched(pre, LAMPORT_CLOCK, TIME_SLICE, Req::wire(req), r, post)
}

/// Sends `req` to the logical clock. A request that cannot be written is not
/// sent.
pub fn call_lamport_clock(env: &mut ParachainHostEnv, req: Req) -> (r: Result<(), Error>)
    ensures
        if Req::fits(req.deep_view()) {
            requested(old(env)@, req.deep_view(), r, final(env)@)
        } else {
            r matches Err(e) && e is Overflow && final(env)@ == old(env)@
        },
{
    let blob = try_encode(&req)?;
    ext::call_spree(env, LAMPORT_CLOCK, TIME_SLICE, blob.as_slice())
}

/// The request that enqueues the validation function's message.
pub open spec fn enqueue_request() -> ReqView {
    ReqView::Enqueue { recipient: RECIPIENT, payload: PAYLOAD.spec_bytes() }
}

/// What the validation function does after its `Enqueue` ended with `second`
/// in the state `enqueued`: it stops at a failure, and else goes on with its
/// `FanOut`.
pub open spec fn after_enqueue(
    second: Result<(), Error>,
    enqueued: Seq<ModuleState>,
    r: Result<(), Error>,
    post: Seq<ModuleState>,
) -> bool {
    if second is Err {
        r == second && post == enqueued
    } else {
        requested(enqueued, ReqView::FanOut, r, post)
    }
}

/// What the validation function does after its `Poll` ended with `first` in
/// the state `polled`: it stops at a failure, and else goes on with its
/// `Enqueue`.
pub open spec fn after_poll(
    first: Result<(), Error>,
    polled: Seq<ModuleState>,
    r: Result<(), Error>,
    post: Seq<ModuleState>,
) -> bool {
    if first is Err {
        r == first && post == polled
    } else {
        exists|second: Result<(), Error>, enqueued: Seq<ModuleState>|
            #[trigger] requested(polled, enqueue_request(), second, enqueued) && after_enqueue(
                second,
                enqueued,
                r,
                post,
            )
    }
}

/// What the validation function does to the registered modules: three
/// requests to the logical clock, one after the other, up to the first that
/// fails.
pub open spec fn validated(
    pre: Seq<ModuleState>,
    r: Result<(), Error>,
    post: Seq<ModuleState>,
) -> bool {
    exists|first: Result<(), Error>, polled: Seq<ModuleState>|
        #[trigger] requested(pre, ReqView::Poll, first, polled) && after_poll(
            first,
            polled,
            r,
            post,
        )
}

/// Validates a block: polls the logical clock, enqueues one message for
/// `RECIPIENT`, and fans the queue out. The first request that fails ends the
/// validation with its failure.
pub fn validate_block(env: &mut ParachainHostEnv) -> (r: Result<(), Error>)
    ensures
        validated(old(env)@, r, final(env)@),
{
    broadcast use vstd::string::group_string_axioms;

    call_lamport_clock(env, Req::Poll)?;
    let payload = slice_to_vec(PAYLOAD.as_bytes());
    proof {
        reveal_strlit("foo");
        assert(PAYLOAD.is_ascii());
    }
    call_lamport_clock(env, Req::Enqueue { recipient: RECIPIENT, payload })?;
    call_lamport_clock(env, Req::FanOut)
}

} // verus!
