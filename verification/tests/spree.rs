//! The host's side of a shared module.

use polkadot_re_mock::error::Error;
use polkadot_re_mock::spree::fn_index::{
    POLL, SCRATCH_BUF_READ, SCRATCH_BUF_SIZE, SEND, STORAGE_READ, STORAGE_WRITE,
};
use polkadot_re_mock::spree::{SpreeIcmpAccumulator, SpreeModule, SpreeModuleHostEnv};
use polkadot_re_mock::store::Storage;
use polkadot_re_mock::wire::{decode_prefix, encode};
use std::collections::HashMap;
use wasmi::memory_units::Pages;
use wasmi::{MemoryInstance, MemoryRef};

const PAGE: u32 = 65536;

fn one_page() -> MemoryRef {
    MemoryInstance::alloc(Pages(1), None).unwrap()
}

fn fresh_env(blob: &[u8]) -> SpreeModuleHostEnv {
    SpreeModuleHostEnv::new(
        blob.to_vec(),
        SpreeIcmpAccumulator::with_inbound_msgs(Vec::new()),
        Storage::new(),
    )
}

fn fresh_module() -> SpreeModule {
    SpreeModule::new("clock.wasm", SpreeIcmpAccumulator::with_inbound_msgs(Vec::new()))
}

fn outbound(env: SpreeModuleHostEnv) -> HashMap<u32, Vec<u8>> {
    let (acc, _) = env.into_parts();
    acc.outbound().clone()
}

#[test]
fn the_scratch_buffer_starts_out_as_the_blob() {
    let env = fresh_env(b"request");
    assert_eq!(env.scratch_buf(), b"request");
    assert_eq!(env.scratch_buf_size(), 7);
    assert_eq!(fresh_env(b"").scratch_buf_size(), 0);
}

#[test]
fn two_sends_to_one_recipient_conflict() {
    let mut env = fresh_env(b"");
    assert_eq!(env.send(7, b"first".to_vec()), 0);
    assert_ne!(env.send(7, b"second".to_vec()), 0);
    let slots = outbound(env);
    assert_eq!(slots.len(), 1);
    assert_eq!(slots[&7], b"second".to_vec());
}

#[test]
fn sends_to_two_recipients_do_not_conflict() {
    let mut env = fresh_env(b"");
    assert_eq!(env.send(1, b"x".to_vec()), 0);
    assert_eq!(env.send(2, b"y".to_vec()), 0);
    assert_eq!(env.send(1, b"z".to_vec()), 1);
    let slots = outbound(env);
    assert_eq!(slots.len(), 2);
    assert_eq!(slots[&1], b"z".to_vec());
    assert_eq!(slots[&2], b"y".to_vec());
}

#[test]
fn a_send_leaves_the_scratch_buffer() {
    let mut env = fresh_env(b"request");
    env.send(1, b"x".to_vec());
    assert_eq!(env.scratch_buf(), b"request");
}

#[test]
fn a_never_written_key_is_absent() {
    let mut env = fresh_env(b"request");
    assert_ne!(env.storage_read(b"k"), 0);
    // and the scratch buffer stays
    assert_eq!(env.scratch_buf(), b"request");
}

#[test]
fn a_written_value_is_read_into_the_scratch_buffer() {
    let mut env = fresh_env(b"request");
    env.storage_write(b"k".to_vec(), b"value".to_vec());
    assert_eq!(env.scratch_buf(), b"request");
    assert_eq!(env.storage_read(b"k"), 0);
    assert_eq!(env.scratch_buf(), b"value");
    assert_eq!(env.scratch_buf_size(), 5);
}

#[test]
fn a_later_producer_replaces_the_scratch_buffer() {
    let mut env = fresh_env(b"");
    env.storage_write(b"long".to_vec(), b"a long value".to_vec());
    env.storage_write(b"short".to_vec(), b"s".to_vec());
    assert_eq!(env.storage_read(b"long"), 0);
    assert_eq!(env.scratch_buf_size(), 12);
    assert_eq!(env.storage_read(b"short"), 0);
    assert_eq!(env.scratch_buf_size(), 1);
    assert_eq!(env.scratch_buf(), b"s");
    env.poll().unwrap();
    assert_eq!(env.scratch_buf(), &[0u8]);
}

#[test]
fn storage_lasts_across_invocations() {
    let mut module = fresh_module();
    let mut first = module.begin_invoke(b"one".to_vec());
    first.storage_write(b"k".to_vec(), b"v".to_vec());
    module.end_invoke(first);
    let mut second = module.begin_invoke(b"two".to_vec());
    assert_eq!(second.scratch_buf(), b"two");
    assert_eq!(second.storage_read(b"k"), 0);
    assert_eq!(second.scratch_buf(), b"v");
    assert_ne!(second.storage_read(b"never"), 0);
    module.end_invoke(second);
}

#[test]
fn outbound_lasts_across_invocations() {
    let mut module = fresh_module();
    assert!(module.outbound_messages().is_empty());
    let mut first = module.begin_invoke(Vec::new());
    assert_eq!(first.send(3, b"a".to_vec()), 0);
    module.end_invoke(first);
    assert_eq!(module.outbound_messages().len(), 1);
    assert_eq!(module.outbound_messages()[&3], b"a".to_vec());
    // the slot is still occupied in the next invocation
    let mut second = module.begin_invoke(Vec::new());
    assert_eq!(second.send(3, b"b".to_vec()), 1);
    module.end_invoke(second);
    assert_eq!(module.outbound_messages()[&3], b"b".to_vec());
}

#[test]
fn a_module_keeps_its_path() {
    let mut module =
        SpreeModule::new("some/clock.wasm", SpreeIcmpAccumulator::with_inbound_msgs(Vec::new()));
    assert_eq!(module.wasm_path(), "some/clock.wasm");
    let env = module.begin_invoke(Vec::new());
    module.end_invoke(env);
    assert_eq!(module.wasm_path(), "some/clock.wasm");
}

#[test]
fn of_two_inbound_msgs_from_one_sender_the_later_stays() {
    let acc = SpreeIcmpAccumulator::with_inbound_msgs(vec![
        (5, b"early".to_vec()),
        (5, b"late".to_vec()),
    ]);
    assert_eq!(acc.inbound_msgs(), vec![(5, b"late".to_vec())]);
    assert!(acc.outbound().is_empty());
}

#[test]
fn inbound_msgs_lists_each_sender_once() {
    let acc = SpreeIcmpAccumulator::with_inbound_msgs(vec![
        (1, b"a".to_vec()),
        (2, b"b".to_vec()),
        (3, b"c".to_vec()),
    ]);
    let mut pairs = acc.inbound_msgs();
    pairs.sort();
    assert_eq!(pairs, vec![(1, b"a".to_vec()), (2, b"b".to_vec()), (3, b"c".to_vec())]);
}

#[test]
fn poll_fills_the_scratch_buffer_with_the_inbound_msgs() {
    let acc = SpreeIcmpAccumulator::with_inbound_msgs(vec![(9, b"bar".to_vec())]);
    let mut env = SpreeModuleHostEnv::new(b"request".to_vec(), acc, Storage::new());
    env.poll().unwrap();
    // one pair: the sender, then the blob with its length
    assert_eq!(env.scratch_buf(), &[4, 9, 0, 0, 0, 12, 98, 97, 114]);
    assert_eq!(env.scratch_buf(), &encode(&vec![(9u32, b"bar".to_vec())])[..]);
}

#[test]
fn poll_of_many_lists_each_sender_once() {
    let sent: Vec<(u32, Vec<u8>)> = (0..40u32).map(|k| (k, vec![k as u8; k as usize])).collect();
    let acc = SpreeIcmpAccumulator::with_inbound_msgs(sent.clone());
    let mut env = SpreeModuleHostEnv::new(Vec::new(), acc, Storage::new());
    env.poll().unwrap();
    let (mut pairs, taken) = decode_prefix::<Vec<(u32, Vec<u8>)>>(env.scratch_buf()).unwrap();
    assert_eq!(taken, env.scratch_buf().len());
    pairs.sort();
    assert_eq!(pairs, sent);
}

#[test]
fn scratch_buf_size_by_index() {
    let mut memory = one_page();
    let mut env = fresh_env(b"request");
    let r = env.invoke_index(SCRATCH_BUF_SIZE, &[], &mut memory).unwrap();
    assert_eq!(r, Some(7));
    assert_eq!(env.scratch_buf(), b"request");
}

#[test]
fn scratch_buf_read_by_index_copies_the_whole_buffer() {
    let mut memory = one_page();
    let mut env = fresh_env(b"request");
    memory.set(98, &[0xaa; 11]).unwrap();
    let r = env.invoke_index(SCRATCH_BUF_READ, &[100], &mut memory).unwrap();
    assert_eq!(r, None);
    // exactly the seven bytes of the buffer, and nothing around them
    assert_eq!(memory.get(98, 11).unwrap(), b"\xaa\xaarequest\xaa\xaa".to_vec());
    assert_eq!(env.scratch_buf(), b"request");
}

#[test]
fn scratch_buf_read_by_index_out_of_bounds() {
    let mut memory = one_page();
    let mut env = fresh_env(b"request");
    let r = env.invoke_index(SCRATCH_BUF_READ, &[PAGE - 6], &mut memory);
    assert!(matches!(r, Err(Error::OutOfBounds)));
    assert_eq!(memory.get(PAGE - 6, 6).unwrap(), vec![0; 6]);
    // up to the last byte it fits
    let r = env.invoke_index(SCRATCH_BUF_READ, &[PAGE - 7], &mut memory).unwrap();
    assert_eq!(r, None);
    assert_eq!(memory.get(PAGE - 7, 7).unwrap(), b"request".to_vec());
}

#[test]
fn the_handshake_by_index_after_a_producer() {
    let mut memory = one_page();
    let mut env = fresh_env(b"request");
    memory.set(0, b"key").unwrap();
    memory.set(8, b"a stored value").unwrap();
    assert_eq!(env.invoke_index(STORAGE_WRITE, &[0, 3, 8, 14], &mut memory).unwrap(), None);
    assert_eq!(env.invoke_index(STORAGE_READ, &[0, 3], &mut memory).unwrap(), Some(0));
    let size = env.invoke_index(SCRATCH_BUF_SIZE, &[], &mut memory).unwrap().unwrap();
    assert_eq!(size, 14);
    assert_eq!(env.invoke_index(SCRATCH_BUF_READ, &[1000], &mut memory).unwrap(), None);
    assert_eq!(memory.get(1000, size as usize).unwrap(), b"a stored value".to_vec());
    assert_eq!(memory.get(1000 + size, 4).unwrap(), vec![0; 4]);
}

#[test]
fn send_by_index_takes_the_blob_from_memory() {
    let mut memory = one_page();
    let mut env = fresh_env(b"");
    memory.set(50, b"first second").unwrap();
    assert_eq!(env.invoke_index(SEND, &[4, 50, 5], &mut memory).unwrap(), Some(0));
    assert_eq!(env.invoke_index(SEND, &[4, 56, 6], &mut memory).unwrap(), Some(1));
    assert_eq!(env.invoke_index(SEND, &[5, 50, 0], &mut memory).unwrap(), Some(0));
    let slots = outbound(env);
    assert_eq!(slots.len(), 2);
    assert_eq!(slots[&4], b"second".to_vec());
    assert_eq!(slots[&5], Vec::<u8>::new());
}

#[test]
fn send_by_index_out_of_bounds_sends_nothing() {
    let mut memory = one_page();
    let mut env = fresh_env(b"");
    let r = env.invoke_index(SEND, &[4, PAGE - 1, 2], &mut memory);
    assert!(matches!(r, Err(Error::OutOfBounds)));
    let r = env.invoke_index(SEND, &[4, u32::MAX, u32::MAX], &mut memory);
    assert!(matches!(r, Err(Error::OutOfBounds)));
    assert!(outbound(env).is_empty());
}

#[test]
fn poll_by_index() {
    let mut memory = one_page();
    let acc = SpreeIcmpAccumulator::with_inbound_msgs(vec![(9, b"bar".to_vec())]);
    let mut env = SpreeModuleHostEnv::new(b"request".to_vec(), acc, Storage::new());
    assert_eq!(env.invoke_index(POLL, &[], &mut memory).unwrap(), None);
    assert_eq!(env.scratch_buf(), &[4, 9, 0, 0, 0, 12, 98, 97, 114]);
}

#[test]
fn storage_read_by_index_of_a_never_written_key() {
    let mut memory = one_page();
    let mut env = fresh_env(b"request");
    memory.set(0, b"key").unwrap();
    assert_eq!(env.invoke_index(STORAGE_READ, &[0, 3], &mut memory).unwrap(), Some(1));
    assert_eq!(env.scratch_buf(), b"request");
}

#[test]
fn storage_by_index_out_of_bounds_changes_nothing() {
    let mut memory = one_page();
    let mut env = fresh_env(b"request");
    memory.set(0, b"key").unwrap();
    // the value lies past the end
    let r = env.invoke_index(STORAGE_WRITE, &[0, 3, PAGE - 1, 2], &mut memory);
    assert!(matches!(r, Err(Error::OutOfBounds)));
    // the key lies past the end
    let r = env.invoke_index(STORAGE_WRITE, &[PAGE, 1, 0, 3], &mut memory);
    assert!(matches!(r, Err(Error::OutOfBounds)));
    let r = env.invoke_index(STORAGE_READ, &[PAGE - 2, 3], &mut memory);
    assert!(matches!(r, Err(Error::OutOfBounds)));
    assert_ne!(env.storage_read(b"key"), 0);
    assert_eq!(env.scratch_buf(), b"request");
}

#[test]
fn more_arguments_than_a_function_takes_are_not_looked_at() {
    let mut memory = one_page();
    let mut env = fresh_env(b"request");
    let r = env.invoke_index(SCRATCH_BUF_SIZE, &[1, 2, 3], &mut memory).unwrap();
    assert_eq!(r, Some(7));
}

#[test]
fn a_module_holds_nothing_while_a_call_has_its_state() {
    let acc = SpreeIcmpAccumulator::with_inbound_msgs(vec![(9, b"bar".to_vec())]);
    let mut module = SpreeModule::new("clock.wasm", acc);
    let mut first = module.begin_invoke(Vec::new());
    first.send(1, b"x".to_vec());
    assert!(module.outbound_messages().is_empty());
    module.end_invoke(first);
    assert_eq!(module.outbound_messages().len(), 1);
    let mut second = module.begin_invoke(Vec::new());
    second.poll().unwrap();
    assert_eq!(second.scratch_buf(), &[4, 9, 0, 0, 0, 12, 98, 97, 114]);
    module.end_invoke(second);
}
