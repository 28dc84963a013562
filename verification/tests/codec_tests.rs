//! Byte-level codecs: frame unstuffing, frame splitting, the short build
//! id, little-endian helpers and the handoff address type.

use chainloader::build_id::short_id;
use chainloader::bytes::{push_u32_le, read_u16_le, read_u32_le};
use chainloader::errors::FrameError;
use chainloader::handoff::{Address, ChainloadState};
use chainloader::rzcobs::{decode_frames, rzcobs_decode};

#[test]
fn all_set_group_bits_decode_to_seven_zeros() {
    assert_eq!(rzcobs_decode(&[0x7f]).unwrap(), vec![0u8; 7]);
}

#[test]
fn group_marker_mixes_stream_bytes_and_zeros() {
    // Bit 6 of the marker is set, the other six group bits take the six
    // stream bytes; the set bit stands for the trailing zero.
    let frame = [1, 2, 3, 4, 5, 6, 0x40];
    assert_eq!(rzcobs_decode(&frame).unwrap(), vec![1, 2, 3, 4, 5, 6, 0]);
}

#[test]
fn run_marker_carries_a_zero_and_literals() {
    // Marker 0x80: a zero followed by seven literal bytes.
    let frame = [1, 2, 3, 4, 5, 6, 7, 0x80];
    assert_eq!(rzcobs_decode(&frame).unwrap(), vec![1, 2, 3, 4, 5, 6, 7, 0]);
}

#[test]
fn long_run_marker_carries_134_literals() {
    let mut frame: Vec<u8> = (0..134u32).map(|i| (i % 200) as u8 + 1).collect();
    frame.push(0xff);
    let expected: Vec<u8> = (0..134u32).map(|i| (i % 200) as u8 + 1).collect();
    assert_eq!(rzcobs_decode(&frame).unwrap(), expected);
}

#[test]
fn zero_bytes_and_short_groups_are_malformed() {
    assert_eq!(rzcobs_decode(&[0x00]).unwrap_err(), FrameError::Malformed);
    // Marker 0x01 needs six stream bytes; none follow.
    assert_eq!(rzcobs_decode(&[0x01]).unwrap_err(), FrameError::Malformed);
    // A long run cut short.
    assert_eq!(rzcobs_decode(&[1, 2, 3, 0xff]).unwrap_err(), FrameError::Malformed);
    // The empty frame decodes to nothing.
    assert_eq!(rzcobs_decode(&[]).unwrap(), Vec::<u8>::new());
}

#[test]
fn frame_runs_split_at_zero_delimiters() {
    let mut run = vec![0x7f, 0x00];
    run.extend([1, 2, 3, 4, 5, 6, 0x40, 0x00]);
    run.extend([9, 9]); // truncated tail without a delimiter: ignored
    let frames = decode_frames(&run).unwrap();
    assert_eq!(frames.len(), 2);
    assert_eq!(frames[0], vec![0u8; 7]);
    assert_eq!(frames[1], vec![1, 2, 3, 4, 5, 6, 0]);
}

#[test]
fn empty_frames_vanish_and_bad_frames_poison_the_run() {
    assert_eq!(decode_frames(&[0, 0, 0]).unwrap(), Vec::<Vec<u8>>::new());
    // 0x01 is a malformed frame once its delimiter arrives.
    assert_eq!(decode_frames(&[0x01, 0x00]).unwrap_err(), FrameError::Malformed);
}

#[test]
fn short_id_folds_whole_words() {
    assert_eq!(short_id(&[1, 0, 0, 0, 2, 0, 0, 0]), 3);
    assert_eq!(short_id(&[0x44, 0x33, 0x22, 0x11]), 0x11223344);
}

#[test]
fn short_id_pads_the_final_word_with_zeros() {
    assert_eq!(short_id(&[1, 2, 3, 4, 5]), 0x04030201 ^ 0x00000005);
    assert_eq!(short_id(&[]), 0);
    assert_eq!(short_id(&[0xab]), 0xab);
}

#[test]
fn little_endian_helpers_round_trip() {
    let mut buf = Vec::new();
    push_u32_le(&mut buf, 0xcafe1234);
    assert_eq!(buf, vec![0x34, 0x12, 0xfe, 0xca]);
    assert_eq!(read_u32_le(&buf, 0), 0xcafe1234);
    assert_eq!(read_u16_le(&buf, 1), 0xfe12);
}

#[test]
fn addresses_pack_little_endian_and_refuse_zero() {
    assert_eq!(Address::new(0), None);
    let a = Address::new(0x0100007f).unwrap();
    assert_eq!(a.octets(), [0x7f, 0, 0, 1]);
}

#[test]
fn handoff_state_carries_the_network_configuration() {
    let ip = Address::new(0x0f00000a).unwrap();
    let state = ChainloadState {
        seed: 77,
        gateway: Address::new(0x0100000a),
        dns_servers: [Address::new(0x08080808), None, None],
        ip,
        prefix_len: 24,
        mac: [2, 3, 4, 5, 6, 7],
    };
    assert_eq!(state.ip.octets(), [0x0a, 0, 0, 0x0f]);
    assert_eq!(state.prefix_len, 24);
    assert!(state.gateway.is_some());
}
