//! The two fields that the logical clock keeps in its storage: the current
//! timestamp, and the queue of the messages that wait to be sent.
//!
//! Each field is read and written whole. A field that was never written
//! reads as its initial value: timestamp 0, an empty queue. A field whose
//! bytes are not an encoding of its type cannot be read: whatever needs it
//! fails with `Decode`.

use crate::error::Error;
use crate::lamport_clock::ext;
use crate::primitives::{TargetedMsg, TargetedMsgView, Timestamp};
use crate::spree::{storage_was_read, storage_written, HostState, SpreeModuleHostEnv};
use crate::wire::{decode_prefix, encode, parse, Wire};
use vstd::prelude::*;
use vstd::string::StringSliceAdditionalSpecFns;

verus! {

broadcast use vstd::string::group_string_axioms;

/// The key of the current timestamp.
pub const KEY_CURRENT_TIMESTAMP: &'static str = ":current_timestamp";

/// The key of the queue.
pub const KEY_QUEUE: &'static str = ":stack";

/// The key of the current timestamp, as bytes.
pub open spec fn timestamp_key() -> Seq<u8> {
    KEY_CURRENT_TIMESTAMP.spec_bytes()
}

/// The key of the queue, as bytes.
pub open spec fn queue_key() -> Seq<u8> {
    KEY_QUEUE.spec_bytes()
}

/// The two fields lie under different keys.
pub proof fn lemma_keys_differ()
    ensures
        timestamp_key() != queue_key(),
{
    reveal_strlit(":current_timestamp");
    reveal_strlit(":stack");
    assert(KEY_CURRENT_TIMESTAMP.is_ascii());
    assert(KEY_QUEUE.is_ascii());
}

/// Whether the timestamp of a storage can be read: none was written, or what
/// was written is a timestamp.
pub open spec fn timestamp_readable(storage: Map<Seq<u8>, Seq<u8>>) -> bool {
    storage.contains_key(timestamp_key()) ==> parse::<Timestamp>(storage[timestamp_key()])
        is Some
}

/// Whether the queue of a storage can be read: none was written, or what was
/// written is a queue.
pub open spec fn queue_readable(storage: Map<Seq<u8>, Seq<u8>>) -> bool {
    storage.contains_key(queue_key()) ==> parse::<Vec<TargetedMsg>>(storage[queue_key()])
        is Some
}

/// The timestamp that a storage holds, where it can be read: 0 where none
/// was written.
pub open spec fn timestamp_of(storage: Map<Seq<u8>, Seq<u8>>) -> Timestamp {
    if storage.contains_key(timestamp_key()) {
        match parse::<Timestamp>(storage[timestamp_key()]) {
            Some(timestamp) => timestamp,
            None => 0,
        }
    } else {
        0
    }
}

/// The queue that a storage holds, where it can be read, the message that
/// was enqueued first at the front: empty where none was written.
pub open spec fn queue_of(storage: Map<Seq<u8>, Seq<u8>>) -> Seq<TargetedMsgView> {
    if storage.contains_key(queue_key()) {
        match parse::<Vec<TargetedMsg>>(storage[queue_key()]) {
            Some(queue) => queue,
            None => Seq::empty(),
        }
    } else {
        Seq::empty()
    }
}

/// The state with `timestamp` written as the current one.
pub open spec fn timestamp_set(pre: HostState, timestamp: Timestamp) -> HostState {
    storage_written(pre, timestamp_key(), Timestamp::wire(timestamp))
}

/// The state with `queue` written as the queue.
pub open spec fn queue_set(pre: HostState, queue: Seq<TargetedMsgView>) -> HostState {
    storage_written(pre, queue_key(), Vec::<TargetedMsg>::wire(queue))
}

/// The bytes of the timestamp's key.
fn current_timestamp_key() -> (key: &'static [u8])
    ensures
        key@ == timestamp_key(),
{
    KEY_CURRENT_TIMESTAMP.as_bytes()
}

/// The bytes of the queue's key.
fn stack_key() -> (key: &'static [u8])
    ensures
        key@ == queue_key(),
{
    KEY_QUEUE.as_bytes()
}

/// The current timestamp: 0 where none was written, `Decode` where what was
/// written is no timestamp. Reading it leaves its bytes in the scratch
/// buffer.
pub fn current_timestamp(env: &mut SpreeModuleHostEnv) -> (r: Result<Timestamp, Error>)
    ensures
        final(env)@ == storage_was_read(old(env)@, timestamp_key()),
        match r {
            Ok(timestamp) => timestamp_readable(old(env)@.storage) && timestamp == timestamp_of(
                old(env)@.storage,
            ),
            Err(e) => e is Decode && !timestamp_readable(old(env)@.storage),
        },
{
    match ext::storage_read(env, current_timestamp_key()) {
        Some(raw_timestamp) => {
            let (timestamp, _) = decode_prefix::<Timestamp>(raw_timestamp.as_slice())?;
            Ok(timestamp)
        },
        None => Ok(0),
    }
}

/// Writes `timestamp` as the current one.
pub fn set_current_timestamp(env: &mut SpreeModuleHostEnv, timestamp: Timestamp)
    ensures
        final(env)@ == timestamp_set(old(env)@, timestamp),
{
    let raw_timestamp = encode(&timestamp);
    ext::storage_write(env, current_timestamp_key(), raw_timestamp.as_slice());
}

/// Whether there is a timestamp after the current one: the current one can
/// be read and is not the highest that there is.
pub open spec fn can_advance(storage: Map<Seq<u8>, Seq<u8>>) -> bool {
    timestamp_readable(storage) && timestamp_of(storage) < Timestamp::MAX
}

/// The state after `next_timestamp`: the timestamp was read, and written back
/// one higher where there is a timestamp after it.
pub open spec fn timestamp_advanced(pre: HostState) -> HostState {
    let read = storage_was_read(pre, timestamp_key());
    if can_advance(pre.storage) {
        timestamp_set(read, (timestamp_of(pre.storage) + 1) as Timestamp)
    } else {
        read
    }
}

/// Advances the current timestamp by one and returns the new one. Where the
/// current one cannot be read the call fails with `Decode`, and past the
/// highest timestamp with `Overflow`: it then writes nothing.
pub fn next_timestamp(env: &mut SpreeModuleHostEnv) -> (r: Result<Timestamp, Error>)
    ensures
        final(env)@ == timestamp_advanced(old(env)@),
        match r {
            Ok(next) => can_advance(old(env)@.storage) && next == timestamp_of(
                old(env)@.storage,
            ) + 1,
            Err(Error::Decode) => !timestamp_readable(old(env)@.storage),
            Err(Error::Overflow) => timestamp_readable(old(env)@.storage) && timestamp_of(
                old(env)@.storage,
            ) == Timestamp::MAX,
            Err(_) => false,
        },
{
    let current = current_timestamp(env)?;
    if current == Timestamp::MAX {
        return Err(Error::Overflow);
    }
    let next = current + 1;
    set_current_timestamp(env, next);
    Ok(next)
}

/// The queue: empty where none was written, `Decode` where what was written
/// is no queue. Reading it leaves its bytes in the scratch buffer.
pub fn read_queue(env: &mut SpreeModuleHostEnv) -> (r: Result<Vec<TargetedMsg>, Error>)
    ensures
        final(env)@ == storage_was_read(old(env)@, queue_key()),
        match r {
            Ok(queue) => queue_readable(old(env)@.storage) && queue.deep_view() == queue_of(
                old(env)@.storage,
            ) && Vec::<TargetedMsg>::fits(queue.deep_view()),
            Err(e) => e is Decode && !queue_readable(old(env)@.storage),
        },
{
    match ext::storage_read(env, stack_key()) {
        Some(raw_queue) => {
            let (queue, _) = decode_prefix::<Vec<TargetedMsg>>(raw_queue.as_slice())?;
            proof {
                crate::wire::lemma_parsed_fits::<Vec<TargetedMsg>>(
                    old(env)@.storage[queue_key()],
                );
            }
            Ok(queue)
        },
        None => Ok(Vec::new()),
    }
}

/// Writes `queue` as the queue.
pub fn write_queue(env: &mut SpreeModuleHostEnv, queue: Vec<TargetedMsg>)
    requires
        Vec::<TargetedMsg>::fits(queue.deep_view()),
    ensures
        final(env)@ == queue_set(old(env)@, queue.deep_view()),
{
    let raw_queue = encode(&queue);
    ext::storage_write(env, stack_key(), raw_queue.as_slice());
}

/// Whether `msg` can join `queue`: the message can be written, and the queue
/// has room for one more.
pub open spec fn has_room(queue: Seq<TargetedMsgView>, msg: TargetedMsgView) -> bool {
    queue.len() < u32::MAX && TargetedMsg::fits(msg)
}

/// Whether `msg` can join the queue of a storage: the queue can be read, and
/// has room for the message.
pub open spec fn can_join(storage: Map<Seq<u8>, Seq<u8>>, msg: TargetedMsgView) -> bool {
    queue_readable(storage) && has_room(queue_of(storage), msg)
}

/// The state after `enqueue_msg`: the queue was read, and written back with
/// `msg` at its end if `msg` can join it.
pub open spec fn enqueued(pre: HostState, msg: TargetedMsgView) -> HostState {
    let read = storage_was_read(pre, queue_key());
    if can_join(pre.storage, msg) {
        queue_set(read, queue_of(pre.storage).push(msg))
    } else {
        read
    }
}

/// Enqueue a given message into the queue. Where the queue cannot be read
/// the call fails with `Decode`, and where the queue with the message could
/// not be written with `Overflow`: it then writes nothing.
pub fn enqueue_msg(env: &mut SpreeModuleHostEnv, msg: TargetedMsg) -> (r: Result<(), Error>)
    ensures
        final(env)@ == enqueued(old(env)@, msg.deep_view()),
        match r {
            Ok(()) => can_join(old(env)@.storage, msg.deep_view()),
            Err(Error::Decode) => !queue_readable(old(env)@.storage),
            Err(Error::Overflow) => queue_readable(old(env)@.storage) && !has_room(
                queue_of(old(env)@.storage),
                msg.deep_view(),
            ),
            Err(_) => false,
        },
{
    let mut msgs = read_queue(env)?;
    if msgs.len() >= u32::MAX as usize || msg.msg.payload.len() > u32::MAX as usize {
        return Err(Error::Overflow);
    }
    let ghost before = msgs.deep_view();
    let ghost added = msg.deep_view();
    msgs.push(msg);
    proof {
        assert(msgs.deep_view() =~= before.push(added));
    }
    write_queue(env, msgs);
    Ok(())
}

/// The state after `take_queue`: the queue was read, and an empty one written
/// where it could be read.
pub open spec fn queue_taken(pre: HostState) -> HostState {
    let read = storage_was_read(pre, queue_key());
    if queue_readable(pre.storage) {
        queue_set(read, Seq::empty())
    } else {
        read
    }
}

/// Empty the queue returning its contents. Where the queue cannot be read
/// the call fails with `Decode` and writes nothing.
pub fn take_queue(env: &mut SpreeModuleHostEnv) -> (r: Result<Vec<TargetedMsg>, Error>)
    ensures
        final(env)@ == queue_taken(old(env)@),
        match r {
            Ok(msgs) => queue_readable(old(env)@.storage) && msgs.deep_view() == queue_of(
                old(env)@.storage,
            ) && Vec::<TargetedMsg>::fits(msgs.deep_view()),
            Err(e) => e is Decode && !queue_readable(old(env)@.storage),
        },
{
    let msgs = read_queue(env)?;
    write_queue(env, Vec::new());
    Ok(msgs)
}

/// A timestamp that was written can be read and is the timestamp that is
/// read, and writing it leaves the queue as it was.
pub proof fn lemma_timestamp_written(pre: HostState, timestamp: Timestamp)
    ensures
        timestamp_readable(timestamp_set(pre, timestamp).storage),
        timestamp_of(timestamp_set(pre, timestamp).storage) == timestamp,
        queue_readable(timestamp_set(pre, timestamp).storage) == queue_readable(pre.storage),
        queue_of(timestamp_set(pre, timestamp).storage) == queue_of(pre.storage),
{
    lemma_keys_differ();
    crate::wire::lemma_parse_wire::<Timestamp>(timestamp, Seq::empty());
}

/// A queue that was written can be read and is the queue that is read, and
/// writing it leaves the timestamp as it was.
pub proof fn lemma_queue_written(pre: HostState, queue: Seq<TargetedMsgView>)
    requires
        Vec::<TargetedMsg>::fits(queue),
    ensures
        queue_readable(queue_set(pre, queue).storage),
        queue_of(queue_set(pre, queue).storage) == queue,
        timestamp_readable(queue_set(pre, queue).storage) == timestamp_readable(pre.storage),
        timestamp_of(queue_set(pre, queue).storage) == timestamp_of(pre.storage),
{
    lemma_keys_differ();
    crate::wire::lemma_parse_wire::<Vec<TargetedMsg>>(queue, Seq::empty());
}

/// The queue that a storage holds can be written.
pub proof fn lemma_queue_fits(storage: Map<Seq<u8>, Seq<u8>>)
    ensures
        Vec::<TargetedMsg>::fits(queue_of(storage)),
{
    if storage.contains_key(queue_key()) && parse::<Vec<TargetedMsg>>(storage[queue_key()])
        is Some {
        crate::wire::lemma_parsed_fits::<Vec<TargetedMsg>>(storage[queue_key()]);
    }
}

} // verus!
