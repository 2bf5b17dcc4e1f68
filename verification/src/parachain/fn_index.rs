//! The indexes under which the parachain gateway knows its host functions.

use vstd::prelude::*;

verus! {

pub const CALL_SHARED_MODULE: usize = 0;

} // verus!
