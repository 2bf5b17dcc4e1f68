//! The logical clock: a shared module that stamps the messages it is given
//! with a counter and hands them to its counterparts in the order in which
//! they were enqueued.

use crate::error::Error;
use crate::lamport_clock::ext::polled_as;
use crate::lamport_clock::storage::{
    can_advance, can_join, enqueued, queue_of, queue_readable, queue_taken, timestamp_advanced,
    timestamp_of, timestamp_readable,
};
use crate::primitives::{
    ParaId, Req, ReqView, Resp, TargetedMsg, TargetedMsgView, Timestamp, TimestampedMsg,
    TimestampedMsgView,
};
use crate::spree::{enumerates, pollable, HostState, SpreeModuleHostEnv};
use crate::wire::{decode_prefix, encode, parse, Wire};
use std::collections::HashMap;
use vstd::prelude::*;
use vstd::std_specs::iter::IteratorSpec;

pub mod ext;
pub mod storage;

verus! {

broadcast use vstd::std_specs::hash::group_hash_axioms;

/// The messages of `queue` that go to `recipient`, in the order of the queue.
pub open spec fn group_of(queue: Seq<TargetedMsgView>, recipient: ParaId) -> Seq<
    TimestampedMsgView,
>
    decreases queue.len(),
{
    if queue.len() == 0 {
        Seq::empty()
    } else if queue.last().recipient == recipient {
        group_of(queue.drop_last(), recipient).push(queue.last().msg)
    } else {
        group_of(queue.drop_last(), recipient)
    }
}

/// The outbound slots after the messages of `queue` were sent: one blob for
/// each recipient that the queue names, with all its messages; every other
/// slot as it was.
pub open spec fn fanned_out(outbound: Map<u32, Seq<u8>>, queue: Seq<TargetedMsgView>) -> Map<
    u32,
    Seq<u8>,
> {
    Map::new(
        |k: u32| outbound.contains_key(k) || group_of(queue, k).len() > 0,
        |k: u32|
            if group_of(queue, k).len() > 0 {
                Vec::<TimestampedMsg>::wire(group_of(queue, k))
            } else {
                outbound[k]
            },
    )
}

/// Whether `resp` answers a poll that found the slots `pairs`: the same
/// senders in the same order, each with the messages that its blob holds.
pub open spec fn answers(
    resp: Seq<(ParaId, Seq<TimestampedMsgView>)>,
    pairs: Seq<(u32, Seq<u8>)>,
) -> bool {
    &&& resp.len() == pairs.len()
    &&& forall|i: int|
        0 <= i < resp.len() ==> (#[trigger] resp[i]).0 == pairs[i].0 && parse::<
            Vec<TimestampedMsg>,
        >(pairs[i].1) == Some(resp[i].1)
}

/// Whether each blob of a mailbox holds a list of timestamped messages.
pub open spec fn all_decode(slots: Map<u32, Seq<u8>>) -> bool {
    forall|k: u32|
        slots.contains_key(k) ==> parse::<Vec<TimestampedMsg>>(#[trigger] slots[k]) is Some
}

/// The state after a poll: the scratch buffer holds the inbound slots, each
/// once, in some order.
pub open spec fn polled_some(pre: HostState, post: HostState) -> bool {
    exists|pairs: Seq<(u32, Seq<u8>)>|
        enumerates(pairs, pre.inbound) && post == #[trigger] polled_as(pre, pairs)
}

/// Polls the inbound messages and decodes them: each counterpart sends one
/// blob that holds a list of timestamped messages.
pub fn poll_response(env: &mut SpreeModuleHostEnv) -> (r: Result<Resp, Error>)
    ensures
        match r {
            Ok(resp) => {
                &&& pollable(old(env)@.inbound)
                &&& all_decode(old(env)@.inbound)
                &&& exists|pairs: Seq<(u32, Seq<u8>)>|
                    enumerates(pairs, old(env)@.inbound) && final(env)@ == #[trigger] polled_as(
                        old(env)@,
                        pairs,
                    ) && answers(resp.inbound.deep_view(), pairs)
            },
            Err(Error::Overflow) => !pollable(old(env)@.inbound) && final(env)@ == old(env)@,
            Err(Error::Decode) => {
                &&& pollable(old(env)@.inbound)
                &&& !all_decode(old(env)@.inbound)
                &&& polled_some(old(env)@, final(env)@)
            },
            Err(_) => false,
        },
{
    let polled = ext::poll(env)?;
    let ghost pairs = polled.deep_view();
    let ghost slots = old(env)@.inbound;
    let mut inbound: Vec<(ParaId, Vec<TimestampedMsg>)> = Vec::new();
    let mut i: usize = 0;
    while i < polled.len()
        invariant
            i <= polled.len(),
            pairs == polled.deep_view(),
            enumerates(pairs, slots),
            pollable(slots),
            slots == old(env)@.inbound,
            env@ == polled_as(old(env)@, pairs),
            inbound@.len() == i,
            answers(inbound.deep_view(), pairs.take(i as int)),
        decreases polled.len() - i,
    {
        let sender = polled[i].0;
        let ghost raw = pairs[i as int].1;
        assert(raw =~= polled@[i as int].1@);
        let ghost before = inbound.deep_view();
        match decode_prefix::<Vec<TimestampedMsg>>(polled[i].1.as_slice()) {
            Ok((msgs, _)) => {
                let ghost decoded_msgs = msgs.deep_view();
                inbound.push((sender, msgs));
                proof {
                    let now = inbound.deep_view();
                    assert(now =~= before.push((sender, decoded_msgs)));
                }
            },
            Err(_) => {
                return Err(Error::Decode);
            },
        }
        i += 1;
    }
    proof {
        let resp = inbound.deep_view();
        assert forall|k: u32| slots.contains_key(k) implies parse::<Vec<TimestampedMsg>>(
            #[trigger] slots[k],
        ) is Some by {
            let j = choose|j: int| 0 <= j < pairs.len() && (#[trigger] pairs[j]).0 == k;
            assert(resp[j].0 == pairs[j].0);
        }
    }
    Ok(Resp { inbound })
}

/// The messages of a queue, one list for each recipient that the queue
/// names.
fn group_by_recipient(queue: Vec<TargetedMsg>) -> (groups: HashMap<ParaId, Vec<TimestampedMsg>>)
    ensures
        forall|k: u32| groups@.contains_key(k) <==> group_of(queue.deep_view(), k).len() > 0,
        forall|k: u32|
            groups@.contains_key(k) ==> (#[trigger] groups@[k]).deep_view() == group_of(
                queue.deep_view(),
                k,
            ),
{
    let ghost all = queue.deep_view();
    let mut groups: HashMap<ParaId, Vec<TimestampedMsg>> = HashMap::new();
    for targeted in it: queue
        invariant
            all.len() == it.seq().len(),
            forall|i: int| 0 <= i < all.len() ==> #[trigger] all[i] == it.seq()[i].deep_view(),
            forall|k: u32|
                groups@.contains_key(k) <==> group_of(all.take(it.index() as int), k).len() > 0,
            forall|k: u32|
                groups@.contains_key(k) ==> (#[trigger] groups@[k]).deep_view() == group_of(
                    all.take(it.index() as int),
                    k,
                ),
    {
        let ghost at = it.index() as int;
        let TargetedMsg { recipient, msg } = targeted;
        let mut group = match groups.remove(&recipient) {
            Some(group) => group,
            None => Vec::new(),
        };
        group.push(msg);
        proof {
            assert(all.take(at + 1).drop_last() =~= all.take(at));
        }
        groups.insert(recipient, group);
    }
    assert(all.take(all.len() as int) =~= all);
    groups
}

/// A group of messages from a queue that can be written can be written.
proof fn lemma_group_fits(queue: Seq<TargetedMsgView>, recipient: ParaId)
    requires
        Vec::<TargetedMsg>::fits(queue),
    ensures
        Vec::<TimestampedMsg>::fits(group_of(queue, recipient)),
        group_of(queue, recipient).len() <= queue.len(),
    decreases queue.len(),
{
    if queue.len() > 0 {
        let fewer = queue.drop_last();
        lemma_group_fits(fewer, recipient);
    }
}

/// The outbound slots after the recipients `served` got their blobs, one
/// after the other.
pub open spec fn delivered(
    outbound: Map<u32, Seq<u8>>,
    queue: Seq<TargetedMsgView>,
    served: Seq<ParaId>,
) -> Map<u32, Seq<u8>>
    decreases served.len(),
{
    if served.len() == 0 {
        outbound
    } else {
        delivered(outbound, queue, served.drop_last()).insert(
            served.last(),
            Vec::<TimestampedMsg>::wire(group_of(queue, served.last())),
        )
    }
}

/// In whatever order the recipients are served, each one's slot ends up with
/// its blob, and every other slot stays as it was.
pub proof fn lemma_delivered(
    outbound: Map<u32, Seq<u8>>,
    queue: Seq<TargetedMsgView>,
    served: Seq<ParaId>,
    k: ParaId,
)
    ensures
        delivered(outbound, queue, served).contains_key(k) <==> (outbound.contains_key(k)
            || served.contains(k)),
        delivered(outbound, queue, served)[k] == if served.contains(k) {
            Vec::<TimestampedMsg>::wire(group_of(queue, k))
        } else {
            outbound[k]
        },
    decreases served.len(),
{
    if served.len() > 0 {
        let fewer = served.drop_last();
        lemma_delivered(outbound, queue, fewer, k);
        if served.contains(k) {
            let i = choose|i: int| 0 <= i < served.len() && served[i] == k;
            if i < fewer.len() {
                assert(fewer[i] == k);
            }
        }
    }
}

/// The state after a fan-out: the queue was taken, and its messages stand in
/// the outbound slots of their recipients. Where the queue cannot be read,
/// nothing is sent.
pub open spec fn fanned(pre: HostState) -> HostState {
    if queue_readable(pre.storage) {
        HostState {
            outbound: fanned_out(pre.outbound, queue_of(pre.storage)),
            ..queue_taken(pre)
        }
    } else {
        queue_taken(pre)
    }
}

/// Sends all enqueued messages: the queue is emptied, and each recipient
/// that it named gets one blob with all its messages, in the order in which
/// they were enqueued. Where the queue cannot be read the call fails with
/// `Decode`, and nothing is written or sent.
pub fn fan_out(env: &mut SpreeModuleHostEnv) -> (r: Result<(), Error>)
    ensures
        final(env)@ == fanned(old(env)@),
        match r {
            Ok(()) => queue_readable(old(env)@.storage),
            Err(e) => e is Decode && !queue_readable(old(env)@.storage),
        },
{
    let queue = storage::take_queue(env)?;
    let ghost all = queue.deep_view();
    let ghost taken = env@;
    let msg_by_recipient = group_by_recipient(queue);
    let ghost groups = msg_by_recipient@;
    let ghost mut served: Seq<ParaId> = Seq::empty();
    for entry in it: msg_by_recipient.iter()
        invariant
            groups == msg_by_recipient@,
            Vec::<TargetedMsg>::fits(all),
            forall|k: u32| groups.contains_key(k) <==> group_of(all, k).len() > 0,
            forall|k: u32|
                groups.contains_key(k) ==> (#[trigger] groups[k]).deep_view() == group_of(all, k),
            served.len() == it.index(),
            forall|j: int| 0 <= j < served.len() ==> #[trigger] served[j] == *it.seq()[j].0,
            env@ == (HostState { outbound: delivered(taken.outbound, all, served), ..taken }),
    {
        let (recipient, msgs) = entry;
        proof {
            lemma_group_fits(all, *recipient);
            let at = it.index();
            assert(groups.contains_key(*it.seq()[at].0));
        }
        let blob = encode(msgs);
        ext::send(env, *recipient, blob.as_slice());
        proof {
            let before = served;
            served = served.push(*recipient);
            assert(served.drop_last() =~= before);
        }
    }
    proof {
        let walked = msg_by_recipient.iter().remaining();
        assert forall|k: u32| groups.contains_key(k) <==> served.contains(k) by {
            if groups.contains_key(k) {
                let j = choose|j: int| 0 <= j < walked.len() && walked[j] == (&k, &groups[k]);
                assert(served[j] == k);
            }
        }
        let sent_to = delivered(taken.outbound, all, served);
        let wanted = fanned_out(taken.outbound, all);
        assert forall|k: u32| sent_to.contains_key(k) == wanted.contains_key(k) by {
            lemma_delivered(taken.outbound, all, served, k);
        }
        assert forall|k: u32| wanted.contains_key(k) implies sent_to[k] == wanted[k] by {
            lemma_delivered(taken.outbound, all, served, k);
        }
    }
    Ok(())
}

/// The message that an `Enqueue` adds to the queue: the payload with the
/// timestamp that follows the current one.
pub open spec fn stamped(pre: HostState, recipient: ParaId, payload: Seq<u8>) -> TargetedMsgView {
    TargetedMsgView {
        recipient,
        msg: TimestampedMsgView { at: (timestamp_of(pre.storage) + 1) as Timestamp, payload },
    }
}

/// The state after an `Enqueue`: the timestamp was advanced, and the message
/// enqueued with the new timestamp. Where there was no timestamp to advance
/// to, the queue was not touched.
pub open spec fn enqueue_handled(pre: HostState, recipient: ParaId, payload: Seq<u8>) -> HostState {
    if can_advance(pre.storage) {
        enqueued(timestamp_advanced(pre), stamped(pre, recipient, payload))
    } else {
        timestamp_advanced(pre)
    }
}

/// Whether an `Enqueue` succeeds: there is a timestamp left, and the message
/// can join the queue.
pub open spec fn can_enqueue(pre: HostState, recipient: ParaId, payload: Seq<u8>) -> bool {
    &&& can_advance(pre.storage)
    &&& can_join(timestamp_advanced(pre).storage, stamped(pre, recipient, payload))
}

/// Whether an `Enqueue` fails on a stored value that cannot be read: the
/// timestamp, or, once the timestamp is advanced, the queue.
pub open spec fn enqueue_unreadable(pre: HostState) -> bool {
    ||| !timestamp_readable(pre.storage)
    ||| can_advance(pre.storage) && !queue_readable(timestamp_advanced(pre).storage)
}

/// What `handle` does with the request that the scratch buffer holds, when
/// it is entered with the time slice `time_slice`. The clock does not meter
/// itself: what it does with a request is the same for every time slice.
#[verifier::opaque]
pub open spec fn handled(
    pre: HostState,
    time_slice: u32,
    r: Result<(), Error>,
    post: HostState,
) -> bool {
    match parse::<Req>(pre.scratch) {
        None => r matches Err(e) && e is Decode && post == pre,
        Some(ReqView::Enqueue { recipient, payload }) => {
            &&& post == enqueue_handled(pre, recipient, payload)
            &&& if can_enqueue(pre, recipient, payload) {
                r is Ok
            } else if enqueue_unreadable(pre) {
                r matches Err(e) && e is Decode
            } else {
                r matches Err(e) && e is Overflow
            }
        },
        Some(ReqView::Poll) => if !pollable(pre.inbound) {
            r matches Err(e) && e is Overflow && post == pre
        } else {
            &&& polled_some(pre, post)
            &&& if all_decode(pre.inbound) {
                r is Ok
            } else {
                r matches Err(e) && e is Decode
            }
        },
        Some(ReqView::FanOut) => {
            &&& post == fanned(pre)
            &&& if queue_readable(pre.storage) {
                r is Ok
            } else {
                r matches Err(e) && e is Decode
            }
        },
    }
}

/// Handles a request that comes from the host, and in the end from the guest
/// that called the module. The call starts with the request in the scratch
/// buffer, and is entered with the time slice that the caller grants it.
pub fn handle(env: &mut SpreeModuleHostEnv, time_slice: u32) -> (r: Result<(), Error>)
    ensures
        handled(old(env)@, time_slice, r, final(env)@),
{
    proof {
        reveal(handled);
    }
    let input = ext::scratch_buf_read(env);
    let (req, _) = decode_prefix::<Req>(input.as_slice())?;
    match req {
        Req::Enqueue { recipient, payload } => {
            let timestamp = storage::next_timestamp(env)?;
            storage::enqueue_msg(
                env,
                TargetedMsg { recipient, msg: TimestampedMsg { at: timestamp, payload } },
            )
        },
        Req::Poll => {
            // Each counterpart sends one blob that holds the timestamped
            // messages it has for us. How the answer gets back to the caller
            // is not settled: it is put together and dropped.
            let _ = poll_response(env)?;
            Ok(())
        },
        Req::FanOut => fan_out(env),
    }
}

} // verus!
