//! The memory marshaller, on a real linear memory.

use polkadot_re_mock::error::Error;
use polkadot_re_mock::memory;
use polkadot_re_mock::memory::read;
use wasmi::memory_units::Pages;
use wasmi::{MemoryInstance, MemoryRef};

const PAGE: u32 = 65536;

fn one_page() -> MemoryRef {
    MemoryInstance::alloc(Pages(1), None).unwrap()
}

#[test]
fn a_fresh_memory_reads_as_zeros() {
    let mem = one_page();
    assert_eq!(read(&mem, 0, 4).unwrap(), vec![0, 0, 0, 0]);
    assert_eq!(read(&mem, 100, 0).unwrap(), Vec::<u8>::new());
}

#[test]
fn what_was_written_is_read_at_its_address() {
    let mut mem = one_page();
    memory::write(&mut mem, 10, b"hello").unwrap();
    assert_eq!(read(&mem, 10, 5).unwrap(), b"hello".to_vec());
    assert_eq!(read(&mem, 11, 3).unwrap(), b"ell".to_vec());
    // the bytes around it stay
    assert_eq!(read(&mem, 8, 9).unwrap(), b"\0\0hello\0\0".to_vec());
}

#[test]
fn a_range_may_end_with_the_memory() {
    let mut mem = one_page();
    memory::write(&mut mem, PAGE - 3, b"end").unwrap();
    assert_eq!(read(&mem, PAGE - 3, 3).unwrap(), b"end".to_vec());
    assert_eq!(read(&mem, PAGE, 0).unwrap(), Vec::<u8>::new());
    assert_eq!(read(&mem, 0, PAGE).unwrap().len(), PAGE as usize);
}

#[test]
fn a_read_past_the_end_is_out_of_bounds() {
    let mem = one_page();
    assert!(matches!(read(&mem, PAGE - 3, 4), Err(Error::OutOfBounds)));
    assert!(matches!(read(&mem, PAGE + 1, 0), Err(Error::OutOfBounds)));
    assert!(matches!(read(&mem, 0, PAGE + 1), Err(Error::OutOfBounds)));
    assert!(matches!(read(&mem, u32::MAX, u32::MAX), Err(Error::OutOfBounds)));
}

#[test]
fn a_write_past_the_end_is_out_of_bounds_and_writes_nothing() {
    let mut mem = one_page();
    assert!(matches!(memory::write(&mut mem, PAGE - 3, b"four"), Err(Error::OutOfBounds)));
    assert_eq!(read(&mem, PAGE - 3, 3).unwrap(), vec![0, 0, 0]);
    assert!(matches!(memory::write(&mut mem, u32::MAX, b"x"), Err(Error::OutOfBounds)));
}

#[test]
fn an_empty_memory_has_room_for_nothing() {
    let mut mem = MemoryInstance::alloc(Pages(0), None).unwrap();
    assert_eq!(read(&mem, 0, 0).unwrap(), Vec::<u8>::new());
    assert!(matches!(read(&mem, 0, 1), Err(Error::OutOfBounds)));
    assert!(matches!(memory::write(&mut mem, 0, b"x"), Err(Error::OutOfBounds)));
}
