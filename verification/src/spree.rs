//! The host's side of a shared module: its mailbox, its storage, and the
//! gateway through which the module's code reaches them.

use crate::error::Error;
use crate::gateway::{resolve_known, resolved, Signature};
use crate::memory::{in_bounds, memory_bytes, overlay, read};
use crate::store::Storage;
use crate::wire::{encode, Wire};
use std::collections::HashMap;
use vstd::prelude::*;
use vstd::slice::slice_to_vec;
use vstd::std_specs::iter::IteratorSpec;
use wasmi::MemoryRef;

pub mod fn_index;

verus! {

broadcast use vstd::std_specs::hash::group_hash_axioms;

/// The host function that the shared-module gateway has under `name`: its
/// index, the number of its parameters, and whether it gives a result.
pub open spec fn host_function(name: Seq<char>) -> Option<(usize, nat, bool)> {
    if name == "scratch_buf_size"@ {
        Some((fn_index::SCRATCH_BUF_SIZE, 0nat, true))
    } else if name == "scratch_buf_read"@ {
        Some((fn_index::SCRATCH_BUF_READ, 1nat, false))
    } else if name == "send"@ {
        Some((fn_index::SEND, 3nat, true))
    } else if name == "poll"@ {
        Some((fn_index::POLL, 0nat, false))
    } else if name == "storage_read"@ {
        Some((fn_index::STORAGE_READ, 2nat, true))
    } else if name == "storage_write"@ {
        Some((fn_index::STORAGE_WRITE, 4nat, false))
    } else {
        None
    }
}

/// Resolves the functions that a shared module imports from the host.
pub struct SpreeModuleImportResolver;

impl SpreeModuleImportResolver {
    /// The index of the host function `field_name`, if the host has it with
    /// the signature that is asked for.
    pub fn resolve_func(&self, field_name: &str, req_signature: &Signature) -> (r: Result<
        usize,
        Error,
    >)
        ensures
            resolved(field_name@, req_signature@, host_function(field_name@), r),
    {
        if field_name.eq("scratch_buf_size") {
            resolve_known(field_name, req_signature, fn_index::SCRATCH_BUF_SIZE, 0, true)
        } else if field_name.eq("scratch_buf_read") {
            resolve_known(field_name, req_signature, fn_index::SCRATCH_BUF_READ, 1, false)
        } else if field_name.eq("send") {
            resolve_known(field_name, req_signature, fn_index::SEND, 3, true)
        } else if field_name.eq("poll") {
            resolve_known(field_name, req_signature, fn_index::POLL, 0, false)
        } else if field_name.eq("storage_read") {
            resolve_known(field_name, req_signature, fn_index::STORAGE_READ, 2, true)
        } else if field_name.eq("storage_write") {
            resolve_known(field_name, req_signature, fn_index::STORAGE_WRITE, 4, false)
        } else {
            Err(Error::UnknownFunction(field_name.to_owned()))
        }
    }
}

/// The byte strings that the blobs of a mailbox hold.
pub open spec fn byte_views(slots: Map<u32, Vec<u8>>) -> Map<u32, Seq<u8>> {
    Map::new(|k: u32| slots.contains_key(k), |k: u32| slots[k]@)
}

/// The mailbox that a list of messages fills: each message goes to the slot
/// of its sender, over what an earlier one left there.
pub open spec fn collected(msgs: Seq<(u32, Seq<u8>)>) -> Map<u32, Seq<u8>>
    decreases msgs.len(),
{
    if msgs.len() == 0 {
        Map::empty()
    } else {
        collected(msgs.drop_last()).insert(msgs.last().0, msgs.last().1)
    }
}

/// Whether `pairs` lists each slot of `slots` once, in some order.
pub open spec fn enumerates(pairs: Seq<(u32, Seq<u8>)>, slots: Map<u32, Seq<u8>>) -> bool {
    &&& forall|i: int|
        0 <= i < pairs.len() ==> slots.contains_key(#[trigger] pairs[i].0) && slots[pairs[i].0]
            == pairs[i].1
    &&& forall|i: int, j: int|
        0 <= i < j < pairs.len() ==> (#[trigger] pairs[i]).0 != (#[trigger] pairs[j]).0
    &&& forall|k: u32|
        slots.contains_key(k) ==> exists|i: int|
            0 <= i < pairs.len() && (#[trigger] pairs[i]).0 == k
}

/// Whether a mailbox can be written as one blob: the number of its slots and
/// the length of each blob fit in 32 bits.
pub open spec fn pollable(slots: Map<u32, Seq<u8>>) -> bool {
    &&& slots.dom().finite()
    &&& slots.dom().len() <= u32::MAX
    &&& forall|k: u32| slots.contains_key(k) ==> (#[trigger] slots[k]).len() <= u32::MAX
}

/// What an accumulator holds.
#[verifier::ext_equal]
pub struct AccumulatorView {
    /// What the counterparts sent, by sender.
    pub inbound: Map<u32, Seq<u8>>,
    /// What the module sent, by recipient.
    pub outbound: Map<u32, Seq<u8>>,
}

/// Accumulator of inbound and outbound messages for a shared module: one
/// slot for each counterpart, in each direction.
pub struct SpreeIcmpAccumulator {
    inbound: HashMap<u32, Vec<u8>>,
    outbound: HashMap<u32, Vec<u8>>,
}

impl View for SpreeIcmpAccumulator {
    type V = AccumulatorView;

    closed spec fn view(&self) -> AccumulatorView {
        AccumulatorView {
            inbound: byte_views(self.inbound@),
            outbound: byte_views(self.outbound@),
        }
    }
}

impl SpreeIcmpAccumulator {
    /// An accumulator with the given inbound messages and nothing outbound.
    /// Where two messages come from one sender, the later one stays.
    pub fn with_inbound_msgs(inbound: Vec<(u32, Vec<u8>)>) -> (acc: Self)
        ensures
            acc@.inbound == collected(inbound.deep_view()),
            acc@.outbound == Map::<u32, Seq<u8>>::empty(),
    {
        let ghost msgs = inbound.deep_view();
        let mut slots: HashMap<u32, Vec<u8>> = HashMap::new();
        assert(byte_views(slots@) =~= collected(msgs.take(0)));
        for msg in it: inbound
            invariant
                msgs.len() == it.seq().len(),
                forall|i: int|
                    0 <= i < msgs.len() ==> #[trigger] msgs[i] == (it.seq()[i].0, it.seq()[i].1@),
                byte_views(slots@) == collected(msgs.take(it.index() as int)),
        {
            let ghost at = it.index() as int;
            let ghost before = slots@;
            let (sender, blob) = msg;
            slots.insert(sender, blob);
            proof {
                assert(msgs.take(at + 1).drop_last() =~= msgs.take(at));
                assert(msgs[at].1 =~= blob@);
                assert(byte_views(slots@) =~= byte_views(before).insert(sender, blob@));
            }
        }
        assert(msgs.take(msgs.len() as int) =~= msgs);
        let acc = Self { inbound: slots, outbound: HashMap::new() };
        acc
    }

    /// Puts `blob` in the outbound slot of `recipient`, over what was there.
    /// Returns whether something was there.
    pub fn send(&mut self, recipient: u32, blob: Vec<u8>) -> (occupied: bool)
        ensures
            final(self)@.inbound == old(self)@.inbound,
            final(self)@.outbound == old(self)@.outbound.insert(recipient, blob@),
            occupied == old(self)@.outbound.contains_key(recipient),
    {
        let previous = self.outbound.insert(recipient, blob);
        previous.is_some()
    }

    /// The inbound slots, each once, in no particular order.
    pub fn inbound_msgs(&self) -> (pairs: Vec<(u32, Vec<u8>)>)
        ensures
            enumerates(pairs.deep_view(), self@.inbound),
            self@.inbound.dom().finite(),
            pairs@.len() == self@.inbound.dom().len(),
    {
        let mut pairs: Vec<(u32, Vec<u8>)> = Vec::new();
        let ghost slots = self.inbound@;
        assert(byte_views(slots).dom() =~= slots.dom());
        for entry in it: self.inbound.iter()
            invariant
                slots == self.inbound@,
                pairs@.len() == it.index(),
                forall|i: int|
                    0 <= i < pairs@.len() ==> (#[trigger] pairs@[i]).0 == *it.seq()[i].0
                        && pairs@[i].1@ == it.seq()[i].1@,
        {
            let (sender, blob) = entry;
            pairs.push((*sender, slice_to_vec(blob.as_slice())));
        }
        proof {
            let listed = pairs.deep_view();
            let walked = self.inbound.iter().remaining();
            assert forall|i: int| 0 <= i < listed.len() implies listed[i].0 == *walked[i].0
                && listed[i].1 == walked[i].1@ by {}
            assert forall|i: int, j: int| 0 <= i < j < listed.len() implies listed[i].0
                != listed[j].0 by {
                if listed[i].0 == listed[j].0 {
                    assert(slots.contains_key(*walked[i].0));
                }
            }
            assert forall|k: u32| self@.inbound.contains_key(k) implies exists|i: int|
                0 <= i < listed.len() && (#[trigger] listed[i]).0 == k by {}
        }
        pairs
    }

    /// The outbound slots.
    pub fn outbound(&self) -> (slots: &HashMap<u32, Vec<u8>>)
        ensures
            byte_views(slots@) == self@.outbound,
    {
        &self.outbound
    }
}

/// What a host environment holds while a shared module runs.
#[verifier::ext_equal]
pub struct HostState {
    /// The scratch buffer: the result of the latest call that produced one.
    pub scratch: Seq<u8>,
    /// What the counterparts sent, by sender.
    pub inbound: Map<u32, Seq<u8>>,
    /// What the module sent, by recipient.
    pub outbound: Map<u32, Seq<u8>>,
    /// The module's persistent storage.
    pub storage: Map<Seq<u8>, Seq<u8>>,
}

/// The blob that `poll` leaves in the scratch buffer for the slots `pairs`.
pub open spec fn poll_wire(pairs: Seq<(u32, Seq<u8>)>) -> Seq<u8> {
    Vec::<(u32, Vec<u8>)>::wire(pairs)
}

/// The state after `send`: the blob stands in the recipient's slot, whatever
/// stood there before.
pub open spec fn sent(pre: HostState, recipient: u32, blob: Seq<u8>) -> HostState {
    HostState { outbound: pre.outbound.insert(recipient, blob), ..pre }
}

/// What `send` answers: 0 where the slot was free, 1 where it was occupied.
pub open spec fn send_status(pre: HostState, recipient: u32) -> u32 {
    if pre.outbound.contains_key(recipient) {
        1
    } else {
        0
    }
}

/// The state after `poll`: the scratch buffer holds the inbound slots, each
/// once, in some order.
pub open spec fn polled(pre: HostState, post: HostState) -> bool {
    exists|pairs: Seq<(u32, Seq<u8>)>|
        enumerates(pairs, pre.inbound) && #[trigger] poll_wire(pairs) == post.scratch && post
            == (HostState { scratch: poll_wire(pairs), ..pre })
}

/// The state after `storage_read`: the value, where there is one, stands in
/// the scratch buffer.
pub open spec fn storage_was_read(pre: HostState, key: Seq<u8>) -> HostState {
    if pre.storage.contains_key(key) {
        HostState { scratch: pre.storage[key], ..pre }
    } else {
        pre
    }
}

/// What `storage_read` answers: 0 where the key has a value, 1 where it has
/// none.
pub open spec fn storage_read_status(pre: HostState, key: Seq<u8>) -> u32 {
    if pre.storage.contains_key(key) {
        0
    } else {
        1
    }
}

/// The state after `storage_write`.
pub open spec fn storage_written(pre: HostState, key: Seq<u8>, val: Seq<u8>) -> HostState {
    HostState { storage: pre.storage.insert(key, val), ..pre }
}

/// The host environment of one invocation of a shared module: the scratch
/// buffer of this call, and the module's mailbox and storage.
pub struct SpreeModuleHostEnv {
    scratch_buf: Vec<u8>,
    acc: SpreeIcmpAccumulator,
    storage: Storage,
}

impl View for SpreeModuleHostEnv {
    type V = HostState;

    closed spec fn view(&self) -> HostState {
        HostState {
            scratch: self.scratch_buf@,
            inbound: self.acc@.inbound,
            outbound: self.acc@.outbound,
            storage: self.storage@,
        }
    }
}

impl SpreeModuleHostEnv {
    /// The environment of a call with the argument `blob`: the scratch buffer
    /// starts out holding it.
    pub fn new(blob: Vec<u8>, acc: SpreeIcmpAccumulator, storage: Storage) -> (env: Self)
        ensures
            env@ == (HostState {
                scratch: blob@,
                inbound: acc@.inbound,
                outbound: acc@.outbound,
                storage: storage@,
            }),
    {
        Self { scratch_buf: blob, acc, storage }
    }

    /// Ends the call: the mailbox and the storage as the call left them.
    pub fn into_parts(self) -> (parts: (SpreeIcmpAccumulator, Storage))
        ensures
            parts.0@.inbound == self@.inbound,
            parts.0@.outbound == self@.outbound,
            parts.1@ == self@.storage,
    {
        (self.acc, self.storage)
    }

    /// The size of the scratch buffer, in the 32 bits that the guest has for
    /// it.
    pub fn scratch_buf_size(&self) -> (size: u32)
        ensures
            size == self@.scratch.len() as u32,
            self@.scratch.len() <= u32::MAX ==> size == self@.scratch.len(),
    {
        #[verifier::truncate]
        (self.scratch_buf.len() as u32)
    }

    /// The scratch buffer.
    pub fn scratch_buf(&self) -> (bytes: &[u8])
        ensures
            bytes@ == self@.scratch,
    {
        self.scratch_buf.as_slice()
    }

    /// Sends `blob` to the module's counterpart `recipient`. Answers 0, or 1
    /// where a blob was waiting there already: that one is then lost.
    pub fn send(&mut self, recipient: u32, blob: Vec<u8>) -> (status: u32)
        ensures
            final(self)@ == sent(old(self)@, recipient, blob@),
            status == send_status(old(self)@, recipient),
    {
        if self.acc.send(recipient, blob) {
            1
        } else {
            0
        }
    }

    /// Fills the scratch buffer with all inbound messages. Where they cannot
    /// be written as one blob, nothing changes.
    pub fn poll(&mut self) -> (r: Result<(), Error>)
        ensures
            match r {
                Ok(()) => pollable(old(self)@.inbound) && polled(old(self)@, final(self)@),
                Err(e) => e is Overflow && !pollable(old(self)@.inbound) && final(self)@ == old(
                    self,
                )@,
            },
    {
        let pairs = self.acc.inbound_msgs();
        let ghost slots = self@.inbound;
        let ghost listed = pairs.deep_view();
        if pairs.len() > u32::MAX as usize {
            return Err(Error::Overflow);
        }
        let mut i: usize = 0;
        while i < pairs.len()
            invariant
                i <= pairs.len(),
                self@ == old(self)@,
                slots == self@.inbound,
                listed == pairs.deep_view(),
                enumerates(listed, slots),
                forall|j: int| 0 <= j < i ==> (#[trigger] listed[j]).1.len() <= u32::MAX,
            decreases pairs.len() - i,
        {
            if pairs[i].1.len() > u32::MAX as usize {
                proof {
                    assert(slots.contains_key(listed[i as int].0));
                }
                return Err(Error::Overflow);
            }
            i += 1;
        }
        proof {
            assert forall|j: int| 0 <= j < listed.len() implies <(u32, Vec<u8>)>::fits(
                #[trigger] listed[j],
            ) by {
                crate::primitives::lemma_bytes_wire(listed[j].1);
            }
        }
        self.scratch_buf = encode(&pairs);
        proof {
            assert(final(self)@ =~= (HostState { scratch: poll_wire(listed), ..old(self)@ }));
        }
        Ok(())
    }

    /// Looks `key` up in the storage. Answers 0 and leaves the value in the
    /// scratch buffer, or answers 1 where the key has none.
    pub fn storage_read(&mut self, key: &[u8]) -> (status: u32)
        ensures
            final(self)@ == storage_was_read(old(self)@, key@),
            status == storage_read_status(old(self)@, key@),
    {
        match self.storage.get(key) {
            Some(value) => {
                self.scratch_buf = slice_to_vec(value.as_slice());
                0
            },
            None => 1,
        }
    }

    /// Writes `val` under `key` in the storage.
    pub fn storage_write(&mut self, key: Vec<u8>, val: Vec<u8>)
        ensures
            final(self)@ == storage_written(old(self)@, key@, val@),
    {
        self.storage.insert(key, val);
    }
}

/// The number of arguments that the host function under `index` takes, if
/// there is one under it.
pub open spec fn arity(index: usize) -> Option<nat> {
    if index == fn_index::SCRATCH_BUF_SIZE {
        Some(0nat)
    } else if index == fn_index::SCRATCH_BUF_READ {
        Some(1nat)
    } else if index == fn_index::SEND {
        Some(3nat)
    } else if index == fn_index::POLL {
        Some(0nat)
    } else if index == fn_index::STORAGE_READ {
        Some(2nat)
    } else if index == fn_index::STORAGE_WRITE {
        Some(4nat)
    } else {
        None
    }
}

/// The number of arguments that the host function under `index` takes, if
/// there is one under it.
pub fn param_count(index: usize) -> (count: Option<usize>)
    ensures
        match count {
            Some(n) => arity(index) == Some(n as nat),
            None => arity(index) is None,
        },
{
    if index == fn_index::SCRATCH_BUF_SIZE || index == fn_index::POLL {
        Some(0)
    } else if index == fn_index::SCRATCH_BUF_READ {
        Some(1)
    } else if index == fn_index::SEND {
        Some(3)
    } else if index == fn_index::STORAGE_READ {
        Some(2)
    } else if index == fn_index::STORAGE_WRITE {
        Some(4)
    } else {
        None
    }
}

/// A call that failed on a range outside the guest's memory: nothing changed.
pub open spec fn faulted(
    pre: HostState,
    mem: Seq<u8>,
    r: Result<Option<u32>, Error>,
    post: HostState,
    mem_after: Seq<u8>,
) -> bool {
    &&& r matches Err(e)
    &&& e is OutOfBounds
    &&& post == pre
    &&& mem_after == mem
}

/// What a call of `scratch_buf_size` does.
pub open spec fn scratch_buf_size_called(
    pre: HostState,
    mem: Seq<u8>,
    r: Result<Option<u32>, Error>,
    post: HostState,
    mem_after: Seq<u8>,
) -> bool {
    &&& r matches Ok(Some(size))
    &&& size == pre.scratch.len() as u32
    &&& post == pre
    &&& mem_after == mem
}

/// What a call of `scratch_buf_read` does: the whole scratch buffer is copied
/// into the guest's memory, from `out_ptr` on.
pub open spec fn scratch_buf_read_called(
    pre: HostState,
    mem: Seq<u8>,
    out_ptr: u32,
    r: Result<Option<u32>, Error>,
    post: HostState,
    mem_after: Seq<u8>,
) -> bool {
    if in_bounds(mem, out_ptr as int, pre.scratch.len() as int) {
        &&& r matches Ok(None)
        &&& post == pre
        &&& mem_after == overlay(mem, out_ptr as int, pre.scratch)
    } else {
        faulted(pre, mem, r, post, mem_after)
    }
}

/// What a call of `send` does.
pub open spec fn send_called(
    pre: HostState,
    mem: Seq<u8>,
    recipient: u32,
    blob_ptr: u32,
    blob_len: u32,
    r: Result<Option<u32>, Error>,
    post: HostState,
    mem_after: Seq<u8>,
) -> bool {
    if in_bounds(mem, blob_ptr as int, blob_len as int) {
        &&& r matches Ok(Some(status))
        &&& status == send_status(pre, recipient)
        &&& post == sent(pre, recipient, mem.subrange(blob_ptr as int, blob_ptr + blob_len))
        &&& mem_after == mem
    } else {
        faulted(pre, mem, r, post, mem_after)
    }
}

/// What a call of `poll` does.
pub open spec fn poll_called(
    pre: HostState,
    mem: Seq<u8>,
    r: Result<Option<u32>, Error>,
    post: HostState,
    mem_after: Seq<u8>,
) -> bool {
    &&& mem_after == mem
    &&& if pollable(pre.inbound) {
        &&& r matches Ok(None)
        &&& polled(pre, post)
    } else {
        &&& r matches Err(e)
        &&& e is Overflow
        &&& post == pre
    }
}

/// What a call of `storage_read` does.
pub open spec fn storage_read_called(
    pre: HostState,
    mem: Seq<u8>,
    key_ptr: u32,
    key_len: u32,
    r: Result<Option<u32>, Error>,
    post: HostState,
    mem_after: Seq<u8>,
) -> bool {
    if in_bounds(mem, key_ptr as int, key_len as int) {
        let key = mem.subrange(key_ptr as int, key_ptr + key_len);
        &&& r matches Ok(Some(status))
        &&& status == storage_read_status(pre, key)
        &&& post == storage_was_read(pre, key)
        &&& mem_after == mem
    } else {
        faulted(pre, mem, r, post, mem_after)
    }
}

/// What a call of `storage_write` does.
pub open spec fn storage_write_called(
    pre: HostState,
    mem: Seq<u8>,
    key_ptr: u32,
    key_len: u32,
    val_ptr: u32,
    val_len: u32,
    r: Result<Option<u32>, Error>,
    post: HostState,
    mem_after: Seq<u8>,
) -> bool {
    if in_bounds(mem, key_ptr as int, key_len as int) && in_bounds(
        mem,
        val_ptr as int,
        val_len as int,
    ) {
        &&& r matches Ok(None)
        &&& post == storage_written(
            pre,
            mem.subrange(key_ptr as int, key_ptr + key_len),
            mem.subrange(val_ptr as int, val_ptr + val_len),
        )
        &&& mem_after == mem
    } else {
        faulted(pre, mem, r, post, mem_after)
    }
}

impl SpreeModuleHostEnv {
    /// Serves the call of the host function under `index` that the module's
    /// code makes with `args`. Byte strings are named by address and length
    /// in `memory`, the module's linear memory; a result of any length is
    /// left in the scratch buffer.
    ///
    /// An index that no host function has, or fewer arguments than the
    /// function takes, cannot come from a module that was linked against
    /// this gateway: the caller has to rule them out.
    pub fn invoke_index(&mut self, index: usize, args: &[u32], memory: &mut MemoryRef) -> (r:
        Result<Option<u32>, Error>)
        requires
            arity(index) matches Some(n) && args@.len() >= n,
        ensures
            index == fn_index::SCRATCH_BUF_SIZE ==> scratch_buf_size_called(
                old(self)@,
                memory_bytes(*old(memory)),
                r,
                final(self)@,
                memory_bytes(*final(memory)),
            ),
            index == fn_index::SCRATCH_BUF_READ ==> scratch_buf_read_called(
                old(self)@,
                memory_bytes(*old(memory)),
                args@[0],
                r,
                final(self)@,
                memory_bytes(*final(memory)),
            ),
            index == fn_index::SEND ==> send_called(
                old(self)@,
                memory_bytes(*old(memory)),
                args@[0],
                args@[1],
                args@[2],
                r,
                final(self)@,
                memory_bytes(*final(memory)),
            ),
            index == fn_index::POLL ==> poll_called(
                old(self)@,
                memory_bytes(*old(memory)),
                r,
                final(self)@,
                memory_bytes(*final(memory)),
            ),
            index == fn_index::STORAGE_READ ==> storage_read_called(
                old(self)@,
                memory_bytes(*old(memory)),
                args@[0],
                args@[1],
                r,
                final(self)@,
                memory_bytes(*final(memory)),
            ),
            index == fn_index::STORAGE_WRITE ==> storage_write_called(
                old(self)@,
                memory_bytes(*old(memory)),
                args@[0],
                args@[1],
                args@[2],
                args@[3],
                r,
                final(self)@,
                memory_bytes(*final(memory)),
            ),
    {
        if index == fn_index::SCRATCH_BUF_SIZE {
            let size = self.scratch_buf_size();
            Ok(Some(size))
        } else if index == fn_index::SCRATCH_BUF_READ {
            let out_ptr = args[0];
            crate::memory::write(memory, out_ptr, self.scratch_buf.as_slice())?;
            Ok(None)
        } else if index == fn_index::SEND {
            let recipient = args[0];
            let blob_ptr = args[1];
            let blob_len = args[2];
            let blob_buf = read(memory, blob_ptr, blob_len)?;
            let status = self.send(recipient, blob_buf);
            Ok(Some(status))
        } else if index == fn_index::POLL {
            self.poll()?;
            Ok(None)
        } else if index == fn_index::STORAGE_READ {
            let key_ptr = args[0];
            let key_len = args[1];
            let key_buf = read(memory, key_ptr, key_len)?;
            let status = self.storage_read(key_buf.as_slice());
            Ok(Some(status))
        } else {
            let key_ptr = args[0];
            let key_len = args[1];
            let val_ptr = args[2];
            let val_len = args[3];
            let key_buf = read(memory, key_ptr, key_len)?;
            let val_buf = read(memory, val_ptr, val_len)?;
            self.storage_write(key_buf, val_buf);
            Ok(None)
        }
    }
}

/// What a shared module holds between calls.
#[verifier::ext_equal]
pub struct ModuleState {
    /// What the counterparts sent, by sender.
    pub inbound: Map<u32, Seq<u8>>,
    /// What the module sent, by recipient.
    pub outbound: Map<u32, Seq<u8>>,
    /// The module's persistent storage.
    pub storage: Map<Seq<u8>, Seq<u8>>,
}

/// The state in which a call with the argument `blob` starts.
pub open spec fn entered(pre: ModuleState, blob: Seq<u8>) -> HostState {
    HostState {
        scratch: blob,
        inbound: pre.inbound,
        outbound: pre.outbound,
        storage: pre.storage,
    }
}

/// What stays of a call's state when the call ends: all but the scratch
/// buffer.
pub open spec fn left(env: HostState) -> ModuleState {
    ModuleState { inbound: env.inbound, outbound: env.outbound, storage: env.storage }
}

/// What a module holds while a call has its mailbox and its storage:
/// nothing.
pub open spec fn lent() -> ModuleState {
    ModuleState { inbound: Map::empty(), outbound: Map::empty(), storage: Map::empty() }
}

/// What one invocation with the time slice `time_slice` and the argument
/// `blob` does to a module: what the module's code does with the request when
/// it is entered with that time slice, in a fresh environment. Whatever it
/// wrote stays, whether it failed or not.
pub open spec fn invoked(
    pre: ModuleState,
    time_slice: u32,
    blob: Seq<u8>,
    r: Result<(), Error>,
    post: ModuleState,
) -> bool {
    exists|end: HostState|
        crate::lamport_clock::handled(entered(pre, blob), time_slice, r, end) && post
            == #[trigger] left(end)
}

/// A shared module: a runtime with a mailbox and a storage of its own, that
/// guests call by a handle.
pub struct SpreeModule {
    wasm_path: String,
    acc: SpreeIcmpAccumulator,
    storage: Storage,
}

impl View for SpreeModule {
    type V = ModuleState;

    closed spec fn view(&self) -> ModuleState {
        ModuleState {
            inbound: self.acc@.inbound,
            outbound: self.acc@.outbound,
            storage: self.storage@,
        }
    }
}

impl SpreeModule {
    /// A module with the mailbox `acc` and an empty storage. `wasm_path`
    /// names the file that holds the module's code.
    pub fn new(wasm_path: &str, acc: SpreeIcmpAccumulator) -> (module: Self)
        ensures
            module@ == (ModuleState {
                inbound: acc@.inbound,
                outbound: acc@.outbound,
                storage: Map::<Seq<u8>, Seq<u8>>::empty(),
            }),
            module.path() == wasm_path@,
    {
        Self { wasm_path: wasm_path.to_owned(), acc, storage: Storage::new() }
    }

    /// The mailbox that stands in while a call has the module's own.
    fn idle_mailbox() -> (acc: SpreeIcmpAccumulator)
        ensures
            acc@.inbound == Map::<u32, Seq<u8>>::empty(),
            acc@.outbound == Map::<u32, Seq<u8>>::empty(),
    {
        let none: Vec<(u32, Vec<u8>)> = Vec::new();
        assert(none.deep_view() =~= Seq::<(u32, Seq<u8>)>::empty());
        SpreeIcmpAccumulator::with_inbound_msgs(none)
    }

    /// The name of the file that holds the module's code.
    pub closed spec fn path(&self) -> Seq<char> {
        self.wasm_path@
    }

    /// The name of the file that holds the module's code.
    pub fn wasm_path(&self) -> (path: &str)
        ensures
            path@ == self.path(),
    {
        self.wasm_path.as_str()
    }

    /// Starts a call with the argument `blob`: the environment of the call
    /// takes over the mailbox and the storage until `end_invoke` brings them
    /// back.
    pub fn begin_invoke(&mut self, blob: Vec<u8>) -> (env: SpreeModuleHostEnv)
        ensures
            env@ == entered(old(self)@, blob@),
            final(self)@ == lent(),
            final(self).path() == old(self).path(),
    {
        let mut acc = Self::idle_mailbox();
        let mut storage = Storage::new();
        core::mem::swap(&mut self.acc, &mut acc);
        core::mem::swap(&mut self.storage, &mut storage);
        SpreeModuleHostEnv::new(blob, acc, storage)
    }

    /// Ends a call: the module holds what the call left.
    pub fn end_invoke(&mut self, env: SpreeModuleHostEnv)
        ensures
            final(self)@ == left(env@),
            final(self).path() == old(self).path(),
    {
        let (acc, storage) = env.into_parts();
        self.acc = acc;
        self.storage = storage;
    }

    /// Calls the module with the argument `blob`. The time slice is handed
    /// on as it is. A failure of the module's code is the failure of the
    /// call; what the code wrote before it failed stays.
    pub fn invoke(&mut self, time_slice: u32, blob: Vec<u8>) -> (r: Result<(), Error>)
        ensures
            invoked(old(self)@, time_slice, blob@, r, final(self)@),
            final(self).path() == old(self).path(),
    {
        let mut env = self.begin_invoke(blob);
        let r = crate::lamport_clock::handle(&mut env, time_slice);
        self.end_invoke(env);
        r
    }

    /// What the module sent, by recipient.
    pub fn outbound_messages(&self) -> (slots: &HashMap<u32, Vec<u8>>)
        ensures
            byte_views(slots@) == self@.outbound,
    {
        self.acc.outbound()
    }
}

} // verus!
