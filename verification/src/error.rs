//! Errors that abort a call.

use vstd::prelude::*;

verus! {

/// A fatal condition. Each one aborts the operation that met it; nothing that
/// was written before it is rolled back.
#[derive(Debug)]
pub enum Error {
    /// The host exports no function of this name.
    UnknownFunction(String),
    /// The host exports the function, with another signature than was asked for.
    WrongSignature(String),
    /// A byte range lies outside the guest's memory.
    OutOfBounds,
    /// No runtime is registered under this handle.
    HandleNotFound(u32),
    /// A blob is not the encoding of the value that was expected.
    Decode,
    /// A counter or a length left the range that its encoding can hold.
    Overflow,
}

} // verus!
