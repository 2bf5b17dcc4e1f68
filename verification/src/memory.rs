//! The memory marshaller: every byte that crosses between the host and a
//! guest's linear memory goes through `read` and `write`.
//!
//! The memory is the interpreter's. What its two accessors do is stated in
//! the contracts of `memory_get` and `memory_set`, as the interpreter's source
//! shows it, and is not proved here.

use crate::error::Error;
use vstd::prelude::*;
use wasmi::Error as InterpreterError;
use wasmi::MemoryRef;

verus! {

/// `wasmi::MemoryRef`: a guest's linear memory.
#[verifier::external_type_specification]
#[verifier::external_body]
pub struct ExMemoryRef(MemoryRef);

/// `wasmi::Error`: why the interpreter refused an access. It is never looked
/// into: the accessors fail for one reason only.
#[verifier::external_type_specification]
#[verifier::external_body]
pub struct ExInterpreterError(InterpreterError);

/// The bytes that a linear memory holds, from address 0 to its current size.
///
/// The host reads and writes them during a host call, while the guest that
/// owns the memory waits. What the guest does to them between two host calls
/// is not seen here: no contract relates the bytes of one host call to those
/// of another.
pub uninterp spec fn memory_bytes(memory: MemoryRef) -> Seq<u8>;

/// `bytes` with `patch` laid over it from `offset` on.
pub open spec fn overlay(bytes: Seq<u8>, offset: int, patch: Seq<u8>) -> Seq<u8>
    recommends
        0 <= offset,
        offset + patch.len() <= bytes.len(),
{
    Seq::new(
        bytes.len(),
        |i: int|
            if offset <= i < offset + patch.len() {
                patch[i - offset]
            } else {
                bytes[i]
            },
    )
}

/// `MemoryInstance::get`: a copy of the `size` bytes from `offset` on. It
/// fails exactly when that range does not lie within the memory.
#[verifier::external_body]
fn memory_get(memory: &MemoryRef, offset: u32, size: usize) -> (r: Result<
    Vec<u8>,
    InterpreterError,
>)
    ensures
        r is Ok <==> offset + size <= memory_bytes(*memory).len(),
        r matches Ok(bytes) ==> bytes@ == memory_bytes(*memory).subrange(
            offset as int,
            offset + size,
        ),
{
    memory.get(offset, size)
}

/// `MemoryInstance::set`: copies `value` into the memory from `offset` on and
/// leaves every other byte as it was. It fails exactly when that range does
/// not lie within the memory, and then changes nothing. The interpreter
/// writes through a shared reference; the memory is taken by `&mut` here so
/// that the change shows.
#[verifier::external_body]
fn memory_set(memory: &mut MemoryRef, offset: u32, value: &[u8]) -> (r: Result<
    (),
    InterpreterError,
>)
    ensures
        r is Ok <==> offset + value@.len() <= memory_bytes(*old(memory)).len(),
        r is Ok ==> memory_bytes(*final(memory)) == overlay(
            memory_bytes(*old(memory)),
            offset as int,
            value@,
        ),
        r is Err ==> memory_bytes(*final(memory)) == memory_bytes(*old(memory)),
{
    memory.set(offset, value)
}

/// Whether the `length` bytes from `address` on lie within `bytes`.
pub open spec fn in_bounds(bytes: Seq<u8>, address: int, length: int) -> bool {
    address + length <= bytes.len()
}

/// Copies `length` bytes out of the guest's memory, from `address` on.
pub fn read(memory: &MemoryRef, address: u32, length: u32) -> (r: Result<Vec<u8>, Error>)
    ensures
        match r {
            Ok(bytes) => in_bounds(memory_bytes(*memory), address as int, length as int)
                && bytes@ == memory_bytes(*memory).subrange(address as int, address + length),
            Err(e) => !in_bounds(memory_bytes(*memory), address as int, length as int)
                && e is OutOfBounds,
        },
{
    match memory_get(memory, address, length as usize) {
        Ok(bytes) => Ok(bytes),
        Err(_) => Err(Error::OutOfBounds),
    }
}

/// Copies `bytes` into the guest's memory, from `address` on. Out of bounds,
/// nothing is written.
pub fn write(memory: &mut MemoryRef, address: u32, bytes: &[u8]) -> (r: Result<(), Error>)
    ensures
        match r {
            Ok(()) => in_bounds(memory_bytes(*old(memory)), address as int, bytes@.len() as int)
                && memory_bytes(*final(memory)) == overlay(
                memory_bytes(*old(memory)),
                address as int,
                bytes@,
            ),
            Err(e) => !in_bounds(
                memory_bytes(*old(memory)),
                address as int,
                bytes@.len() as int,
            ) && e is OutOfBounds && memory_bytes(*final(memory)) == memory_bytes(*old(memory)),
        },
{
    match memory_set(memory, address, bytes) {
        Ok(()) => Ok(()),
        Err(_) => Err(Error::OutOfBounds),
    }
}

} // verus!
