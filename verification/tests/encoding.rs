//! The encoding, byte for byte, and against the codec crate itself.

use parity_scale_codec::{Compact, Decode, Encode};
use polkadot_re_mock::error::Error;
use polkadot_re_mock::primitives::{Req, TargetedMsg, TimestampedMsg};
use polkadot_re_mock::scale::compact_len;
use polkadot_re_mock::wire::{decode_prefix, encode, try_encode, Wire};

fn foo() -> Vec<u8> {
    b"foo".to_vec()
}

#[test]
fn u32_is_four_bytes_least_significant_first() {
    assert_eq!(encode(&1u32), vec![1, 0, 0, 0]);
    assert_eq!(encode(&0x0102_0304u32), vec![4, 3, 2, 1]);
    assert_eq!(encode(&u32::MAX), vec![255, 255, 255, 255]);
}

#[test]
fn u64_is_eight_bytes_least_significant_first() {
    assert_eq!(encode(&1u64), vec![1, 0, 0, 0, 0, 0, 0, 0]);
    assert_eq!(encode(&0x0102_0304_0506_0708u64), vec![8, 7, 6, 5, 4, 3, 2, 1]);
}

#[test]
fn u32_decodes_from_its_first_four_bytes() {
    let (x, taken) = decode_prefix::<u32>(&[4, 3, 2, 1, 99]).unwrap();
    assert_eq!(x, 0x0102_0304);
    assert_eq!(taken, 4);
    assert!(matches!(decode_prefix::<u32>(&[4, 3, 2]), Err(Error::Decode)));
}

#[test]
fn u64_decodes_from_its_first_eight_bytes() {
    let (x, taken) = decode_prefix::<u64>(&[8, 7, 6, 5, 4, 3, 2, 1]).unwrap();
    assert_eq!(x, 0x0102_0304_0506_0708);
    assert_eq!(taken, 8);
    assert!(matches!(decode_prefix::<u64>(&[8, 7, 6, 5, 4, 3, 2]), Err(Error::Decode)));
}

#[test]
fn bytes_are_their_length_then_themselves() {
    assert_eq!(encode(&foo()), vec![12, 102, 111, 111]);
    assert_eq!(encode(&Vec::<u8>::new()), vec![0]);
}

#[test]
fn length_prefix_changes_mode_at_its_bounds() {
    // one byte up to 63
    assert_eq!(encode(&vec![7u8; 63])[..1], [63 << 2]);
    assert_eq!(encode(&vec![7u8; 63]).len(), 1 + 63);
    // two bytes from 64
    assert_eq!(encode(&vec![7u8; 64])[..2], [0x01, 0x01]);
    assert_eq!(encode(&vec![7u8; 64]).len(), 2 + 64);
    assert_eq!(encode(&vec![7u8; 16383])[..2], [0xfd, 0xff]);
    // four bytes from 16384
    assert_eq!(encode(&vec![7u8; 16384])[..4], [0x02, 0x00, 0x01, 0x00]);
    assert_eq!(encode(&vec![7u8; 16384]).len(), 4 + 16384);
}

#[test]
fn compact_len_is_the_length_of_the_crates_encoding() {
    for x in [0u32, 1, 63, 64, 16383, 16384, (1 << 30) - 1, 1 << 30, u32::MAX] {
        assert_eq!(compact_len(x), Compact(x).encode().len());
    }
    assert_eq!(compact_len(63), 1);
    assert_eq!(compact_len(64), 2);
    assert_eq!(compact_len(16384), 4);
    assert_eq!(compact_len(1 << 30), 5);
}

#[test]
fn bytes_encode_as_the_crate_encodes_them() {
    for len in [0usize, 1, 63, 64, 300, 16383, 16384, 70000] {
        let bytes = vec![0xabu8; len];
        assert_eq!(encode(&bytes), bytes.encode());
        let (back, taken) = decode_prefix::<Vec<u8>>(&bytes.encode()).unwrap();
        assert_eq!(back, bytes);
        assert_eq!(taken, bytes.encode().len());
    }
}

#[test]
fn timestamped_msg_is_its_timestamp_then_its_payload() {
    let msg = TimestampedMsg { at: 1, payload: foo() };
    assert_eq!(encode(&msg), vec![1, 0, 0, 0, 0, 0, 0, 0, 12, 102, 111, 111]);
    assert_eq!(encode(&msg), (1u64, foo()).encode());
}

#[test]
fn targeted_msg_is_its_recipient_then_its_msg() {
    let msg = TargetedMsg { recipient: 1, msg: TimestampedMsg { at: 2, payload: foo() } };
    assert_eq!(
        encode(&msg),
        vec![1, 0, 0, 0, 2, 0, 0, 0, 0, 0, 0, 0, 12, 102, 111, 111]
    );
    assert_eq!(encode(&msg), (1u32, (2u64, foo())).encode());
}

#[test]
fn list_is_its_length_then_its_items() {
    let msgs = vec![
        TimestampedMsg { at: 1, payload: foo() },
        TimestampedMsg { at: 2, payload: Vec::new() },
    ];
    assert_eq!(
        encode(&msgs),
        vec![8, 1, 0, 0, 0, 0, 0, 0, 0, 12, 102, 111, 111, 2, 0, 0, 0, 0, 0, 0, 0, 0]
    );
    assert_eq!(encode(&msgs), vec![(1u64, foo()), (2u64, Vec::new())].encode());
    assert_eq!(encode(&Vec::<TimestampedMsg>::new()), vec![0]);
}

#[test]
fn pairs_encode_as_the_crate_encodes_them() {
    let pairs = vec![(0u32, foo()), (7u32, vec![1, 2, 3, 4])];
    assert_eq!(encode(&pairs), pairs.encode());
    let (back, taken) = decode_prefix::<Vec<(u32, Vec<u8>)>>(&pairs.encode()).unwrap();
    assert_eq!(back, pairs);
    assert_eq!(taken, pairs.encode().len());
}

#[test]
fn requests_are_a_tag_then_their_fields() {
    let enqueue = Req::Enqueue { recipient: 1, payload: foo() };
    assert_eq!(encode(&enqueue), vec![0, 1, 0, 0, 0, 12, 102, 111, 111]);
    assert_eq!(encode(&Req::Poll), vec![1]);
    assert_eq!(encode(&Req::FanOut), vec![2]);
}

#[test]
fn requests_decode_to_what_was_encoded() {
    for req in [Req::Enqueue { recipient: 9, payload: foo() }, Req::Poll, Req::FanOut] {
        let bytes = encode(&req);
        let (back, taken) = decode_prefix::<Req>(&bytes).unwrap();
        assert_eq!(back, req);
        assert_eq!(taken, bytes.len());
    }
}

#[test]
fn decoding_does_not_look_at_what_follows_the_value() {
    let (req, taken) = decode_prefix::<Req>(&[1, 0xff, 0xff]).unwrap();
    assert_eq!(req, Req::Poll);
    assert_eq!(taken, 1);
    let mut bytes = encode(&TimestampedMsg { at: 5, payload: foo() });
    let len = bytes.len();
    bytes.extend_from_slice(&[1, 2, 3]);
    let (msg, taken) = decode_prefix::<TimestampedMsg>(&bytes).unwrap();
    assert_eq!(msg, TimestampedMsg { at: 5, payload: foo() });
    assert_eq!(taken, len);
}

#[test]
fn a_single_msg_read_as_a_list_is_an_empty_list() {
    // The first byte of the timestamp 0 is read as the length 0.
    let bytes = encode(&TimestampedMsg { at: 0, payload: b"bar".to_vec() });
    let (msgs, taken) = decode_prefix::<Vec<TimestampedMsg>>(&bytes).unwrap();
    assert_eq!(msgs, Vec::new());
    assert_eq!(taken, 1);
}

#[test]
fn unknown_tag_is_no_request() {
    assert!(matches!(decode_prefix::<Req>(&[3]), Err(Error::Decode)));
    assert!(matches!(decode_prefix::<Req>(&[255, 0, 0]), Err(Error::Decode)));
}

#[test]
fn empty_input_is_no_value() {
    assert!(matches!(decode_prefix::<Req>(&[]), Err(Error::Decode)));
    assert!(matches!(decode_prefix::<u8>(&[]), Err(Error::Decode)));
    assert!(matches!(decode_prefix::<Vec<u8>>(&[]), Err(Error::Decode)));
    assert!(matches!(decode_prefix::<TimestampedMsg>(&[]), Err(Error::Decode)));
}

#[test]
fn truncated_input_is_no_value() {
    // an Enqueue whose payload is cut short
    assert!(matches!(decode_prefix::<Req>(&[0, 1, 0, 0, 0, 12, 102, 111]), Err(Error::Decode)));
    // an Enqueue whose recipient is cut short
    assert!(matches!(decode_prefix::<Req>(&[0, 1, 0, 0]), Err(Error::Decode)));
    // a list that announces two items and holds one
    let one = encode(&vec![TimestampedMsg { at: 1, payload: foo() }]);
    let mut short = one.clone();
    short[0] = 8;
    assert!(matches!(decode_prefix::<Vec<TimestampedMsg>>(&short), Err(Error::Decode)));
}

#[test]
fn a_length_in_more_bytes_than_it_needs_is_refused() {
    // two-byte mode for the length 0
    assert!(matches!(decode_prefix::<Vec<u8>>(&[0x01, 0x00]), Err(Error::Decode)));
    assert!(<Compact<u32> as Decode>::decode(&mut &[0x01u8, 0x00][..]).is_err());
    // four-byte mode for the length 1
    assert!(matches!(decode_prefix::<Vec<u8>>(&[0x06, 0, 0, 0, 9]), Err(Error::Decode)));
    // five-byte mode for the length 1
    assert!(matches!(decode_prefix::<Vec<u8>>(&[0x03, 1, 0, 0, 0, 9]), Err(Error::Decode)));
    // a mode byte past the five-byte mode
    assert!(matches!(decode_prefix::<Vec<u8>>(&[0x07, 1, 0, 0, 0, 0]), Err(Error::Decode)));
}

#[test]
fn decoding_agrees_with_the_crate_on_every_two_byte_input() {
    for a in 0..=255u8 {
        for b in 0..=255u8 {
            let input = [a, b];
            let ours = decode_prefix::<Vec<u8>>(&input).ok().map(|(v, _)| v);
            let theirs = <Vec<u8> as Decode>::decode(&mut &input[..]).ok();
            assert_eq!(ours, theirs);
        }
    }
}

#[test]
fn what_can_be_written_is_written() {
    let msgs = vec![
        TargetedMsg { recipient: 1, msg: TimestampedMsg { at: 2, payload: foo() } },
        TargetedMsg { recipient: 3, msg: TimestampedMsg { at: 4, payload: Vec::new() } },
    ];
    assert!(msgs.encodable());
    assert!(Req::Enqueue { recipient: 1, payload: foo() }.encodable());
    assert!(Req::Poll.encodable());
    assert!((7u32, foo()).encodable());
    assert_eq!(try_encode(&msgs).unwrap(), encode(&msgs));
    assert_eq!(try_encode(&Req::FanOut).unwrap(), vec![2]);
    assert_eq!(try_encode(&5u64).unwrap(), vec![5, 0, 0, 0, 0, 0, 0, 0]);
}

#[test]
fn encode_to_appends() {
    let mut out = vec![0xaa];
    Wire::encode_to(&1u32, &mut out);
    Wire::encode_to(&Req::Poll, &mut out);
    Wire::encode_to(&foo(), &mut out);
    assert_eq!(out, vec![0xaa, 1, 0, 0, 0, 1, 12, 102, 111, 111]);
}
