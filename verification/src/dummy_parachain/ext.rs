//! Bindings to the host API, as a parachain's validation function sees it.

use crate::error::Error;
use crate::parachain::{dispatched, ParachainHostEnv};
use vstd::prelude::*;
use vstd::slice::slice_to_vec;

verus! {

/// Names a shared module that is registered for the parachain.
pub type SpreeHandle = u32;

/// Call into a shared module specified by a given `handle`, with
/// `time_slice` as its time slice and `blob` as the argument.
pub fn call_spree(
    env: &mut ParachainHostEnv,
    handle: SpreeHandle,
    time_slice: u32,
    blob: &[u8],
) -> (r: Result<(), Error>)
    ensures
        dispatched(old(env)@, handle, time_slice, blob@, r, final(env)@),
{
    env.dispatch(handle, time_slice, slice_to_vec(blob))
}

} // verus!
