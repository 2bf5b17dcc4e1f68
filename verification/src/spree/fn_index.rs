//! The indexes under which the shared-module gateway knows its host
//! functions.

use vstd::prelude::*;

verus! {

pub const SCRATCH_BUF_SIZE: usize = 1;

pub const SCRATCH_BUF_READ: usize = 2;

pub const SEND: usize = 3;

pub const POLL: usize = 4;

pub const STORAGE_READ: usize = 5;

pub const STORAGE_WRITE: usize = 6;

} // verus!
