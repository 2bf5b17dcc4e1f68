//! What holds of the library as a whole: laws that relate several of its
//! functions, each stated over the models that the functions' own contracts
//! use.

use crate::dummy_parachain::{
    after_enqueue, after_poll, enqueue_request, requested, validated, PAYLOAD, RECIPIENT,
    TIME_SLICE,
};
use crate::error::Error;
use crate::lamport_clock::storage::{
    can_advance, lemma_keys_differ, lemma_queue_fits, lemma_queue_written,
    lemma_timestamp_written, queue_of, queue_readable, timestamp_advanced, timestamp_of,
    timestamp_readable,
};
use crate::lamport_clock::{all_decode, fanned, fanned_out, group_of, handled, stamped};
use crate::memory::{in_bounds, overlay};
use crate::parachain::dispatched;
use crate::primitives::{
    ParaId, Req, ReqView, TargetedMsgView, Timestamp, TimestampedMsg, TimestampedMsgView,
};
use crate::spree::{
    entered, invoked, left, pollable, scratch_buf_read_called, scratch_buf_size_called,
    send_status, sent, storage_read_status, storage_was_read, storage_written, HostState,
    ModuleState,
};
use crate::wire::{lemma_parse_wire, parse, Wire};
use vstd::prelude::*;
use vstd::string::StringSliceAdditionalSpecFns;

verus! {

/// A call to a handle under which a module is registered invokes that module
/// with the time slice and the blob of the call, and leaves every other
/// module as it was.
pub proof fn lemma_dispatch_registered(
    pre: Seq<ModuleState>,
    handle: u32,
    time_slice: u32,
    blob: Seq<u8>,
    r: Result<(), Error>,
    post: Seq<ModuleState>,
)
    requires
        handle < pre.len(),
        dispatched(pre, handle, time_slice, blob, r, post),
    ensures
        post.len() == pre.len(),
        invoked(pre[handle as int], time_slice, blob, r, post[handle as int]),
        forall|i: int| 0 <= i < pre.len() && i != handle ==> post[i] == pre[i],
{
}

/// A call to a handle under which no module is registered fails with that
/// handle, and changes no module.
pub proof fn lemma_dispatch_unregistered(
    pre: Seq<ModuleState>,
    handle: u32,
    time_slice: u32,
    blob: Seq<u8>,
    r: Result<(), Error>,
    post: Seq<ModuleState>,
)
    requires
        handle >= pre.len(),
        dispatched(pre, handle, time_slice, blob, r, post),
    ensures
        r matches Err(Error::HandleNotFound(h)) && h == handle,
        post == pre,
{
}

/// The request that enqueues `payload` for `recipient`.
pub open spec fn enqueue(recipient: ParaId, payload: Seq<u8>) -> ReqView {
    ReqView::Enqueue { recipient, payload }
}

/// A request that can be written is read back as itself.
pub proof fn lemma_request_round_trip(req: ReqView)
    requires
        Req::fits(req),
    ensures
        parse::<Req>(Req::wire(req)) == Some(req),
{
    lemma_parse_wire::<Req>(req, Seq::empty());
}

/// One successful `Enqueue` advances the timestamp by one and adds one entry
/// at the end of the queue: the payload for its recipient, with the new
/// timestamp. The mailbox stays as it was, and both stored values can be
/// read afterwards.
pub proof fn lemma_enqueue(
    pre: ModuleState,
    time_slice: u32,
    recipient: ParaId,
    payload: Seq<u8>,
    post: ModuleState,
)
    requires
        payload.len() <= u32::MAX,
        invoked(pre, time_slice, Req::wire(enqueue(recipient, payload)), Ok(()), post),
    ensures
        timestamp_readable(post.storage),
        queue_readable(post.storage),
        timestamp_of(post.storage) == timestamp_of(pre.storage) + 1,
        queue_of(post.storage) == queue_of(pre.storage).push(
            TargetedMsgView {
                recipient,
                msg: TimestampedMsgView {
                    at: (timestamp_of(pre.storage) + 1) as Timestamp,
                    payload,
                },
            },
        ),
        post.inbound == pre.inbound,
        post.outbound == pre.outbound,
{
    reveal(handled);
    let blob = Req::wire(enqueue(recipient, payload));
    lemma_request_round_trip(enqueue(recipient, payload));
    let start = entered(pre, blob);
    let now = timestamp_of(pre.storage);
    let next = (now + 1) as Timestamp;
    let read = storage_was_read(start, crate::lamport_clock::storage::timestamp_key());
    lemma_timestamp_written(read, next);
    let ticked = timestamp_advanced(start);
    let msg = stamped(start, recipient, payload);
    let reread = storage_was_read(ticked, crate::lamport_clock::storage::queue_key());
    let queue = queue_of(ticked.storage);
    lemma_queue_fits(ticked.storage);
    lemma_queue_written(reread, queue.push(msg));
}

/// An `Enqueue` succeeds exactly when both stored values can be read, there
/// is a timestamp left, and the queue has room for one more entry. It fails
/// with `Decode` on a stored value that cannot be read, and with `Overflow`
/// where there is no timestamp left or no room.
pub proof fn lemma_enqueue_succeeds(
    pre: ModuleState,
    time_slice: u32,
    recipient: ParaId,
    payload: Seq<u8>,
    r: Result<(), Error>,
    post: ModuleState,
)
    requires
        payload.len() <= u32::MAX,
        invoked(pre, time_slice, Req::wire(enqueue(recipient, payload)), r, post),
    ensures
        r is Ok <==> can_advance(pre.storage) && queue_readable(pre.storage) && queue_of(
            pre.storage,
        ).len() < u32::MAX,
        r matches Err(e) ==> if !timestamp_readable(pre.storage) || (can_advance(pre.storage)
            && !queue_readable(pre.storage)) {
            e is Decode
        } else {
            e is Overflow
        },
{
    reveal(handled);
    let blob = Req::wire(enqueue(recipient, payload));
    lemma_request_round_trip(enqueue(recipient, payload));
    let start = entered(pre, blob);
    if can_advance(pre.storage) {
        let read = storage_was_read(start, crate::lamport_clock::storage::timestamp_key());
        lemma_timestamp_written(read, (timestamp_of(pre.storage) + 1) as Timestamp);
    }
}

/// A stored value that cannot be read is never written over: an `Enqueue`
/// that finds the timestamp unreadable changes nothing that the module
/// keeps, and one that finds the queue unreadable leaves the queue's bytes
/// as they are.
pub proof fn lemma_enqueue_unreadable(
    pre: ModuleState,
    time_slice: u32,
    recipient: ParaId,
    payload: Seq<u8>,
    r: Result<(), Error>,
    post: ModuleState,
)
    requires
        payload.len() <= u32::MAX,
        invoked(pre, time_slice, Req::wire(enqueue(recipient, payload)), r, post),
    ensures
        !timestamp_readable(pre.storage) ==> post == pre,
        !queue_readable(pre.storage) ==> !queue_readable(post.storage) && post.storage[
            crate::lamport_clock::storage::queue_key()
        ] == pre.storage[crate::lamport_clock::storage::queue_key()],
{
    reveal(handled);
    lemma_request_round_trip(enqueue(recipient, payload));
    lemma_keys_differ();
}

/// An invocation with a `FanOut` succeeds exactly when the queue can be
/// read. It then empties the queue and leaves one blob for each recipient
/// that the queue named; the timestamp and the inbound slots stay as they
/// were. Where the queue cannot be read it fails with `Decode` and changes
/// nothing.
pub proof fn lemma_fan_out(
    pre: ModuleState,
    time_slice: u32,
    r: Result<(), Error>,
    post: ModuleState,
)
    requires
        invoked(pre, time_slice, Req::wire(ReqView::FanOut), r, post),
    ensures
        r is Ok <==> queue_readable(pre.storage),
        r is Ok ==> {
            &&& post.outbound == fanned_out(pre.outbound, queue_of(pre.storage))
            &&& queue_readable(post.storage)
            &&& queue_of(post.storage) == Seq::<TargetedMsgView>::empty()
            &&& timestamp_readable(post.storage) == timestamp_readable(pre.storage)
            &&& timestamp_of(post.storage) == timestamp_of(pre.storage)
        },
        r matches Err(e) ==> e is Decode && post == pre,
        post.inbound == pre.inbound,
{
    reveal(handled);
    lemma_request_round_trip(ReqView::FanOut);
    let start = entered(pre, Req::wire(ReqView::FanOut));
    if queue_readable(pre.storage) {
        lemma_fan_out_empties_queue(start);
    }
}

/// An invocation with a `Poll` changes nothing that the module keeps. It
/// succeeds exactly when the inbound slots can be written as one blob and
/// each of them holds a list of timestamped messages.
pub proof fn lemma_poll(pre: ModuleState, time_slice: u32, r: Result<(), Error>, post: ModuleState)
    requires
        invoked(pre, time_slice, Req::wire(ReqView::Poll), r, post),
    ensures
        post == pre,
        r is Ok <==> pollable(pre.inbound) && all_decode(pre.inbound),
        r matches Err(e) ==> if pollable(pre.inbound) {
            e is Decode
        } else {
            e is Overflow
        },
{
    reveal(handled);
    lemma_request_round_trip(ReqView::Poll);
}

/// An invocation whose blob is no request fails with `Decode` and changes
/// nothing.
pub proof fn lemma_no_request(
    pre: ModuleState,
    time_slice: u32,
    blob: Seq<u8>,
    r: Result<(), Error>,
    post: ModuleState,
)
    requires
        parse::<Req>(blob) is None,
        invoked(pre, time_slice, blob, r, post),
    ensures
        r matches Err(e) && e is Decode,
        post == pre,
{
    reveal(handled);
}

/// The state after `n` calls of `next_timestamp`, one after the other.
pub open spec fn ticked(pre: HostState, n: nat) -> HostState
    decreases n,
{
    if n == 0 {
        pre
    } else {
        timestamp_advanced(ticked(pre, (n - 1) as nat))
    }
}

/// N calls of `next_timestamp` in a row, from a timestamp that can be read
/// and has N timestamps after it: each call finds a timestamp to advance to,
/// so it succeeds and returns the timestamp it leaves, and after the k-th
/// call the timestamp is k higher than it was at the start. The queue stays
/// as it was.
pub proof fn lemma_next_timestamps(pre: HostState, n: nat, k: nat)
    requires
        timestamp_readable(pre.storage),
        timestamp_of(pre.storage) + n <= Timestamp::MAX,
        k <= n,
    ensures
        timestamp_readable(ticked(pre, k).storage),
        timestamp_of(ticked(pre, k).storage) == timestamp_of(pre.storage) + k,
        k < n ==> can_advance(ticked(pre, k).storage),
        queue_readable(ticked(pre, k).storage) == queue_readable(pre.storage),
        queue_of(ticked(pre, k).storage) == queue_of(pre.storage),
    decreases k,
{
    if k > 0 {
        let before = ticked(pre, (k - 1) as nat);
        lemma_next_timestamps(pre, n, (k - 1) as nat);
        let read = storage_was_read(before, crate::lamport_clock::storage::timestamp_key());
        lemma_timestamp_written(read, (timestamp_of(before.storage) + 1) as Timestamp);
    }
}

/// Whether `states` are the states of one module before, between and after
/// successful `Enqueue` requests, one for each of `msgs`, each with the time
/// slice that `slices` has for it.
pub open spec fn enqueue_run(
    states: Seq<ModuleState>,
    slices: Seq<u32>,
    msgs: Seq<(ParaId, Seq<u8>)>,
) -> bool {
    &&& states.len() == msgs.len() + 1
    &&& slices.len() == msgs.len()
    &&& forall|i: int|
        0 <= i < msgs.len() ==> (#[trigger] msgs[i]).1.len() <= u32::MAX && invoked(
            states[i],
            slices[i],
            Req::wire(enqueue(msgs[i].0, msgs[i].1)),
            Ok(()),
            states[i + 1],
        )
}

/// The entry that the request `i` of a run adds to the queue, when the
/// timestamp before the run was `start`.
pub open spec fn added(msgs: Seq<(ParaId, Seq<u8>)>, start: Timestamp, i: int) -> TargetedMsgView {
    TargetedMsgView {
        recipient: msgs[i].0,
        msg: TimestampedMsgView { at: (start + 1 + i) as Timestamp, payload: msgs[i].1 },
    }
}

/// After N successful `Enqueue` requests on one module the timestamp is N
/// higher and the queue N longer. The entries that were there are still
/// there, in their places, and the new ones follow them in the order of the
/// requests, each with the timestamp that its request advanced the clock to.
pub proof fn lemma_timestamps_advance(
    states: Seq<ModuleState>,
    slices: Seq<u32>,
    msgs: Seq<(ParaId, Seq<u8>)>,
)
    requires
        enqueue_run(states, slices, msgs),
    ensures
        timestamp_of(states.last().storage) == timestamp_of(states[0].storage) + msgs.len(),
        queue_of(states.last().storage).len() == queue_of(states[0].storage).len() + msgs.len(),
        queue_of(states[0].storage).is_prefix_of(queue_of(states.last().storage)),
        forall|k: int|
            queue_of(states[0].storage).len() <= k < queue_of(states.last().storage).len()
                ==> #[trigger] queue_of(states.last().storage)[k] == added(
                msgs,
                timestamp_of(states[0].storage),
                k - queue_of(states[0].storage).len(),
            ),
    decreases msgs.len(),
{
    let first = queue_of(states[0].storage);
    if msgs.len() > 0 {
        let n = msgs.len() - 1;
        let earlier = states.drop_last();
        let fewer = msgs.drop_last();
        lemma_timestamps_advance(earlier, slices.drop_last(), fewer);
        lemma_enqueue(states[n], slices[n], msgs[n].0, msgs[n].1, states[n + 1]);
        let after = queue_of(states.last().storage);
        let t0 = timestamp_of(states[0].storage);
        assert forall|k: int| first.len() <= k < after.len() implies #[trigger] after[k]
            == added(msgs, t0, k - first.len()) by {}
    }
}

/// Whether no entry of the queue has a timestamp past the current one. This
/// holds of a storage that was never written, and every request keeps it.
pub open spec fn clock_leads(storage: Map<Seq<u8>, Seq<u8>>) -> bool {
    forall|i: int|
        0 <= i < queue_of(storage).len() ==> (#[trigger] queue_of(storage)[i]).msg.at
            <= timestamp_of(storage)
}

/// In a storage that was never written both stored values can be read, and
/// the clock leads.
pub proof fn lemma_fresh_clock_leads()
    ensures
        timestamp_readable(Map::<Seq<u8>, Seq<u8>>::empty()),
        queue_readable(Map::<Seq<u8>, Seq<u8>>::empty()),
        clock_leads(Map::<Seq<u8>, Seq<u8>>::empty()),
        timestamp_of(Map::<Seq<u8>, Seq<u8>>::empty()) == 0,
        queue_of(Map::<Seq<u8>, Seq<u8>>::empty()) == Seq::<TargetedMsgView>::empty(),
{
}

/// Where the clock leads, the timestamp of each entry that a run of
/// `Enqueue` requests adds is higher than that of every entry before it in
/// the queue, and the clock still leads afterwards.
pub proof fn lemma_timestamps_increase(
    states: Seq<ModuleState>,
    slices: Seq<u32>,
    msgs: Seq<(ParaId, Seq<u8>)>,
)
    requires
        enqueue_run(states, slices, msgs),
        clock_leads(states[0].storage),
    ensures
        forall|j: int, k: int|
            0 <= j < k < queue_of(states.last().storage).len() && queue_of(
                states[0].storage,
            ).len() <= k ==> (#[trigger] queue_of(states.last().storage)[j]).msg.at < (
            #[trigger] queue_of(states.last().storage)[k]).msg.at,
        clock_leads(states.last().storage),
{
    lemma_timestamps_advance(states, slices, msgs);
    let first = queue_of(states[0].storage);
    let after = queue_of(states.last().storage);
    assert forall|j: int| 0 <= j < first.len() implies after[j] == first[j] by {}
}

/// A fan-out of an empty queue sends nothing: every outbound slot stays as it
/// was.
pub proof fn lemma_fan_out_of_nothing(pre: HostState)
    requires
        queue_readable(pre.storage),
        queue_of(pre.storage).len() == 0,
    ensures
        fanned(pre).outbound == pre.outbound,
{
}

/// After a fan-out of a queue that can be read the queue is empty, and the
/// timestamp is what it was.
pub proof fn lemma_fan_out_empties_queue(pre: HostState)
    requires
        queue_readable(pre.storage),
    ensures
        queue_readable(fanned(pre).storage),
        queue_of(fanned(pre).storage) == Seq::<TargetedMsgView>::empty(),
        timestamp_readable(fanned(pre).storage) == timestamp_readable(pre.storage),
        timestamp_of(fanned(pre).storage) == timestamp_of(pre.storage),
{
    let read = storage_was_read(pre, crate::lamport_clock::storage::queue_key());
    lemma_queue_written(read, Seq::empty());
}

/// A fan-out of a queue that cannot be read sends nothing and writes nothing.
pub proof fn lemma_fan_out_unreadable(pre: HostState)
    requires
        !queue_readable(pre.storage),
    ensures
        fanned(pre).outbound == pre.outbound,
        fanned(pre).storage == pre.storage,
        fanned(pre).inbound == pre.inbound,
{
}

/// A fan-out leaves one blob for each recipient that the queue names, and
/// none for any other: a recipient's slot holds all its messages, in the
/// order of the queue, and a slot of anyone else is what it was.
pub proof fn lemma_fan_out_groups(pre: HostState, recipient: ParaId)
    requires
        queue_readable(pre.storage),
    ensures
        group_of(queue_of(pre.storage), recipient).len() > 0 ==> fanned(
            pre,
        ).outbound.contains_key(recipient) && fanned(pre).outbound[recipient] == Vec::<
            TimestampedMsg,
        >::wire(group_of(queue_of(pre.storage), recipient)),
        group_of(queue_of(pre.storage), recipient).len() == 0 ==> (fanned(
            pre,
        ).outbound.contains_key(recipient) <==> pre.outbound.contains_key(recipient)),
        group_of(queue_of(pre.storage), recipient).len() == 0 && pre.outbound.contains_key(
            recipient,
        ) ==> fanned(pre).outbound[recipient] == pre.outbound[recipient],
{
}

/// Two sends to one recipient, with no drain between them: the first is
/// answered 0 where the slot was free, the second is answered 1, and the slot
/// then holds the second blob only.
pub proof fn lemma_send_conflict(pre: HostState, recipient: ParaId, first: Seq<u8>, second: Seq<u8>)
    ensures
        !pre.outbound.contains_key(recipient) ==> send_status(pre, recipient) == 0,
        send_status(sent(pre, recipient, first), recipient) == 1,
        sent(sent(pre, recipient, first), recipient, second).outbound[recipient] == second,
        sent(sent(pre, recipient, first), recipient, second) == sent(pre, recipient, second),
{
}

/// What one invocation wrote to the storage, a later invocation reads: the
/// value stands under its key, is answered with 0, and is left in the scratch
/// buffer, whatever the later invocation was called with.
pub proof fn lemma_storage_round_trip(pre: HostState, key: Seq<u8>, val: Seq<u8>, blob: Seq<u8>)
    ensures
        ({
            let later = entered(left(storage_written(pre, key, val)), blob);
            &&& storage_read_status(later, key) == 0
            &&& storage_was_read(later, key).scratch == val
            &&& storage_was_read(later, key).storage == later.storage
        }),
{
}

/// A key that was never written is answered with 1, and reading it changes
/// nothing.
pub proof fn lemma_storage_absent(pre: HostState, key: Seq<u8>)
    requires
        !pre.storage.contains_key(key),
    ensures
        storage_read_status(pre, key) == 1,
        storage_was_read(pre, key) == pre,
{
}

/// The bytes that a copy into memory writes are the bytes of the patch, and
/// every other byte of the memory stays.
pub proof fn lemma_overlay(bytes: Seq<u8>, offset: int, patch: Seq<u8>)
    requires
        0 <= offset,
        offset + patch.len() <= bytes.len(),
    ensures
        overlay(bytes, offset, patch).len() == bytes.len(),
        overlay(bytes, offset, patch).subrange(offset, offset + patch.len()) == patch,
        forall|i: int|
            0 <= i < bytes.len() && !(offset <= i < offset + patch.len()) ==> #[trigger] overlay(
                bytes,
                offset,
                patch,
            )[i] == bytes[i],
{
}

/// The scratch buffer handshake: whatever the latest producing call left in
/// the scratch buffer, `scratch_buf_size` answers its length, and
/// `scratch_buf_read` then copies exactly those bytes to where the guest asks
/// for them and nothing else.
pub proof fn lemma_scratch_handshake(
    state: HostState,
    mem: Seq<u8>,
    out_ptr: u32,
    size: Result<Option<u32>, Error>,
    copied: Result<Option<u32>, Error>,
    mem_after: Seq<u8>,
)
    requires
        state.scratch.len() <= u32::MAX,
        scratch_buf_size_called(state, mem, size, state, mem),
        scratch_buf_read_called(state, mem, out_ptr, copied, state, mem_after),
        in_bounds(mem, out_ptr as int, state.scratch.len() as int),
    ensures
        size matches Ok(Some(n)) && n == state.scratch.len(),
        copied is Ok,
        mem_after.len() == mem.len(),
        mem_after.subrange(out_ptr as int, out_ptr + state.scratch.len()) == state.scratch,
        forall|i: int|
            0 <= i < mem.len() && !(out_ptr <= i < out_ptr + state.scratch.len())
                ==> #[trigger] mem_after[i] == mem[i],
{
    lemma_overlay(mem, out_ptr as int, state.scratch);
}

/// A producing call replaces the scratch buffer: after two reads of stored
/// values the buffer holds the second value, and nothing of the first.
pub proof fn lemma_scratch_replaced(pre: HostState, first: Seq<u8>, second: Seq<u8>)
    requires
        pre.storage.contains_key(first),
        pre.storage.contains_key(second),
    ensures
        storage_was_read(pre, first).scratch == pre.storage[first],
        storage_was_read(storage_was_read(pre, first), second).scratch == pre.storage[second],
{
}

/// The message that the validation function has sent when it is done: its
/// payload with the first timestamp.
pub open spec fn validated_msg() -> TimestampedMsgView {
    TimestampedMsgView { at: 1, payload: PAYLOAD.spec_bytes() }
}

/// End to end: the validation function runs against a logical clock that was
/// never called, whose inbound slots a poll can read. It succeeds. The clock
/// then stands at timestamp 1 with an empty queue, has sent one blob, to the
/// function's recipient, with the function's payload at timestamp 1, and has
/// its inbound slots as they were. No other module has changed.
pub proof fn lemma_validates(pre: Seq<ModuleState>, r: Result<(), Error>, post: Seq<ModuleState>)
    requires
        pre.len() > 0,
        pre[0].storage == Map::<Seq<u8>, Seq<u8>>::empty(),
        pre[0].outbound == Map::<u32, Seq<u8>>::empty(),
        pollable(pre[0].inbound),
        all_decode(pre[0].inbound),
        validated(pre, r, post),
    ensures
        r is Ok,
        post.len() == pre.len(),
        timestamp_of(post[0].storage) == 1,
        queue_of(post[0].storage) == Seq::<TargetedMsgView>::empty(),
        post[0].outbound == Map::<u32, Seq<u8>>::empty().insert(
            RECIPIENT,
            Vec::<TimestampedMsg>::wire(seq![validated_msg()]),
        ),
        post[0].inbound == pre[0].inbound,
        forall|i: int| 0 < i < pre.len() ==> post[i] == pre[i],
{
    broadcast use vstd::string::group_string_axioms;

    let (first, polled) = choose|first: Result<(), Error>, polled: Seq<ModuleState>|
        #[trigger] requested(pre, ReqView::Poll, first, polled) && after_poll(
            first,
            polled,
            r,
            post,
        );
    lemma_poll(pre[0], TIME_SLICE, first, polled[0]);
    let (second, enqueued) = choose|second: Result<(), Error>, enqueued: Seq<ModuleState>|
        #[trigger] requested(polled, enqueue_request(), second, enqueued) && after_enqueue(
            second,
            enqueued,
            r,
            post,
        );
    let payload = PAYLOAD.spec_bytes();
    assert(payload.len() == 3) by {
        reveal_strlit("foo");
        assert(PAYLOAD.is_ascii());
    }
    lemma_fresh_clock_leads();
    lemma_enqueue_succeeds(polled[0], TIME_SLICE, RECIPIENT, payload, second, enqueued[0]);
    assert(second->Ok_0 == ());
    lemma_enqueue(polled[0], TIME_SLICE, RECIPIENT, payload, enqueued[0]);
    lemma_fan_out(enqueued[0], TIME_SLICE, r, post[0]);
    let queue = queue_of(enqueued[0].storage);
    assert forall|k: u32| group_of(queue, k) == if k == RECIPIENT {
        seq![validated_msg()]
    } else {
        Seq::<TimestampedMsgView>::empty()
    } by {
        assert(group_of(queue.drop_last(), k) =~= Seq::<TimestampedMsgView>::empty());
    }
}

} // verus!
