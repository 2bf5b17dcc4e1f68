//! Bindings to the host API, as the logical clock's code sees it.
//!
//! A call that produces a byte string of any length leaves it in the host's
//! scratch buffer; the binding copies it out before another call can
//! overwrite it.

use crate::error::Error;
use crate::primitives::ParaId;
use crate::spree::{
    enumerates, poll_wire, pollable, sent, storage_was_read, storage_written, HostState,
    SpreeModuleHostEnv,
};
use crate::wire::{decode_prefix, lemma_parse_wire, Wire};
use vstd::prelude::*;
use vstd::slice::slice_to_vec;

verus! {

/// The state after a poll that found the slots `pairs`.
pub open spec fn polled_as(pre: HostState, pairs: Seq<(u32, Seq<u8>)>) -> HostState {
    HostState { scratch: poll_wire(pairs), ..pre }
}

/// Reads the storage at `key`. What is found is also left in the scratch
/// buffer.
pub fn storage_read(env: &mut SpreeModuleHostEnv, key: &[u8]) -> (value: Option<Vec<u8>>)
    ensures
        final(env)@ == storage_was_read(old(env)@, key@),
        match value {
            Some(v) => old(env)@.storage.contains_key(key@) && v@ == old(env)@.storage[key@],
            None => !old(env)@.storage.contains_key(key@),
        },
{
    if env.storage_read(key) == 0 {
        let output = scratch_buf_read(env);
        Some(output)
    } else {
        None
    }
}

/// Writes `val` to the storage under `key`.
pub fn storage_write(env: &mut SpreeModuleHostEnv, key: &[u8], val: &[u8])
    ensures
        final(env)@ == storage_written(old(env)@, key@, val@),
{
    env.storage_write(slice_to_vec(key), slice_to_vec(val));
}

/// A copy of the scratch buffer.
pub fn scratch_buf_read(env: &SpreeModuleHostEnv) -> (output: Vec<u8>)
    ensures
        output@ == env@.scratch,
{
    slice_to_vec(env.scratch_buf())
}

/// Sends `blob` to the counterpart `recipient`. Whether a blob was waiting
/// there is not reported.
pub fn send(env: &mut SpreeModuleHostEnv, recipient: ParaId, blob: &[u8])
    ensures
        final(env)@ == sent(old(env)@, recipient, blob@),
{
    env.send(recipient, slice_to_vec(blob));
}

/// All inbound messages, each sender once with its blob, in the order in
/// which the host listed them.
pub fn poll(env: &mut SpreeModuleHostEnv) -> (r: Result<Vec<(ParaId, Vec<u8>)>, Error>)
    ensures
        match r {
            Ok(pairs) => pollable(old(env)@.inbound) && enumerates(
                pairs.deep_view(),
                old(env)@.inbound,
            ) && final(env)@ == polled_as(old(env)@, pairs.deep_view()),
            Err(e) => e is Overflow && !pollable(old(env)@.inbound) && final(env)@ == old(env)@,
        },
{
    env.poll()?;
    let raw_poll_msg = scratch_buf_read(env);
    let ghost listed = choose|listed: Seq<(u32, Seq<u8>)>|
        enumerates(listed, old(env)@.inbound) && #[trigger] poll_wire(listed) == env@.scratch
            && env@ == polled_as(old(env)@, listed);
    proof {
        lemma_pairs_fit(listed, old(env)@.inbound);
        lemma_parse_wire::<Vec<(u32, Vec<u8>)>>(listed, Seq::empty());
    }
    match decode_prefix::<Vec<(ParaId, Vec<u8>)>>(raw_poll_msg.as_slice()) {
        Ok((pairs, _)) => Ok(pairs),
        Err(e) => Err(e),
    }
}

/// The slots of a mailbox that can be written as one blob can each be
/// written, and so can the list of them.
pub proof fn lemma_pairs_fit(pairs: Seq<(u32, Seq<u8>)>, slots: Map<u32, Seq<u8>>)
    requires
        pollable(slots),
        enumerates(pairs, slots),
    ensures
        pairs.len() == slots.dom().len(),
        Vec::<(u32, Vec<u8>)>::fits(pairs),
{
    lemma_enumeration_len(pairs, slots);
    assert forall|i: int| 0 <= i < pairs.len() implies <(u32, Vec<u8>)>::fits(
        #[trigger] pairs[i],
    ) by {
        assert(slots.contains_key(pairs[i].0));
        crate::primitives::lemma_bytes_wire(pairs[i].1);
    }
}

/// A list that names each slot of a mailbox once is as long as the mailbox
/// has slots.
pub proof fn lemma_enumeration_len(pairs: Seq<(u32, Seq<u8>)>, slots: Map<u32, Seq<u8>>)
    requires
        slots.dom().finite(),
        enumerates(pairs, slots),
    ensures
        pairs.len() == slots.dom().len(),
    decreases pairs.len(),
{
    if pairs.len() == 0 {
        assert(slots.dom() =~= Set::<u32>::empty());
    } else {
        let last = pairs.last();
        let fewer = pairs.drop_last();
        let rest = slots.remove(last.0);
        assert(enumerates(fewer, rest)) by {
            assert forall|k: u32| rest.contains_key(k) implies exists|i: int|
                0 <= i < fewer.len() && (#[trigger] fewer[i]).0 == k by {
                let i = choose|i: int| 0 <= i < pairs.len() && (#[trigger] pairs[i]).0 == k;
                assert(fewer[i] == pairs[i]);
            }
        }
        lemma_enumeration_len(fewer, rest);
    }
}

} // verus!
