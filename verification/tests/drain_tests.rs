//! The log-drain wire protocol: chunk building and parsing, the persisted
//! snapshot decision, and the connection state machine.

use chainloader::drain::{
    build_chunk, discovery_payload, drain_step, parse_chunk, persisted_snapshot, replay_persisted,
    DrainAction, DrainEvent, DrainState, DISCOVERY_PORT, DRAIN_PORT,
};
use chainloader::errors::ChunkError;
use chainloader::logger::FrameLogger;
use chainloader::ring::PersistentRingBuffer;

fn fresh_buffer(capacity: usize) -> PersistentRingBuffer {
    let mut rb = PersistentRingBuffer {
        magic: 0,
        id: 0,
        full: false,
        read: 0,
        write: 0,
        capacity: 0,
        persisted: 0,
        storage: vec![0; capacity],
    };
    rb.init(1, capacity);
    rb
}

fn example_chunk() -> Vec<u8> {
    let mut buf = Vec::new();
    buf.extend(b"LOGS");
    buf.extend(&0x11223344u32.to_le_bytes());
    buf.extend(&5u32.to_le_bytes());
    buf.extend(b"hello");
    buf.extend(&0u32.to_le_bytes());
    buf
}

#[test]
fn example_chunk_parses_to_one_decoded_chunk() {
    let buf = example_chunk();
    let (chunk, consumed) = parse_chunk(&buf).unwrap();
    assert_eq!(chunk.id, 0x11223344);
    assert_eq!(chunk.payload, b"hello".to_vec());
    assert_eq!(chunk.dropped, 0);
    assert_eq!(consumed, 21);
}

#[test]
fn chunk_with_wrong_magic_is_rejected() {
    let mut buf = example_chunk();
    buf[0] = b'X';
    assert_eq!(parse_chunk(&buf).unwrap_err(), ChunkError::BadMagic);
}

#[test]
fn incomplete_chunks_are_truncated() {
    let buf = example_chunk();
    assert_eq!(parse_chunk(&buf[..8]).unwrap_err(), ChunkError::Truncated);
    assert_eq!(parse_chunk(&buf[..20]).unwrap_err(), ChunkError::Truncated);
}

#[test]
fn oversized_payload_length_is_rejected() {
    let mut buf = Vec::new();
    buf.extend(b"LOGS");
    buf.extend(&1u32.to_le_bytes());
    buf.extend(&5000u32.to_le_bytes());
    buf.extend(vec![0u8; 5004]);
    assert_eq!(parse_chunk(&buf).unwrap_err(), ChunkError::TooLarge);
}

#[test]
fn dropped_count_beyond_payload_is_rejected() {
    let mut buf = example_chunk();
    let n = buf.len();
    buf[n - 4..].copy_from_slice(&6u32.to_le_bytes());
    assert_eq!(parse_chunk(&buf).unwrap_err(), ChunkError::BadDroppedCount);
}

#[test]
fn built_chunk_carries_the_buffered_bytes() {
    let mut rb = fresh_buffer(32);
    assert!(rb.push_slice(b"hello"));
    let mut logger = FrameLogger::new();
    let chunk = build_chunk(&mut logger, &mut rb, 0x11223344, 5);
    assert_eq!(chunk, example_chunk());
    assert!(rb.empty());
}

#[test]
fn built_chunk_after_drops_is_sentinel_filled() {
    let mut rb = fresh_buffer(32);
    assert!(rb.push_slice(b"hello"));
    let mut logger = FrameLogger::new();
    logger.dropped = 9;
    let chunk = build_chunk(&mut logger, &mut rb, 7, 5);
    // Payload is sentinel fill, the footer accounts for all of it, and the
    // buffer itself is untouched.
    let (parsed, _) = parse_chunk(&chunk).unwrap();
    assert_eq!(parsed.id, 7);
    assert_eq!(parsed.payload, vec![0xff; 5]);
    assert_eq!(parsed.dropped, 5);
    assert_eq!(logger.dropped, 4);
    assert_eq!(rb.len(), 5);
}

#[test]
fn snapshot_with_persisted_data_asks_for_a_replay() {
    let mut rb = fresh_buffer(16);
    assert!(rb.push_slice(&[1, 2, 3]));
    rb.init(2, 16); // warm reset: three bytes persisted under build 1
    let mut logger = FrameLogger::new();
    let replay = persisted_snapshot(&mut logger, &mut rb, 2);
    assert_eq!(replay, Some((3, 1)));
    // After the replay the consumer acknowledges it.
    rb.reset_presisted(2);
    assert_eq!(rb.persisted(), 0);
    assert_eq!(rb.id(), 2);
}

#[test]
fn snapshot_after_drops_skips_the_replay() {
    let mut rb = fresh_buffer(16);
    assert!(rb.push_slice(&[1, 2, 3]));
    rb.init(2, 16);
    let mut logger = FrameLogger::new();
    logger.dropped = 8;
    let replay = persisted_snapshot(&mut logger, &mut rb, 2);
    assert_eq!(replay, None);
    assert_eq!(logger.dropped, 0);
    assert_eq!(rb.persisted(), 0);
    assert_eq!(rb.id(), 2);
}

#[test]
fn snapshot_with_nothing_persisted_is_quiet() {
    let mut rb = fresh_buffer(16);
    let mut logger = FrameLogger::new();
    assert_eq!(persisted_snapshot(&mut logger, &mut rb, 1), None);
    assert_eq!(rb.persisted(), 0);
}

#[test]
fn replay_sends_the_pre_reset_bytes_under_the_previous_id() {
    let mut rb = fresh_buffer(16);
    assert!(rb.push_slice(b"old"));
    rb.init(2, 16); // warm reset: three bytes from build 1 survive
    let mut logger = FrameLogger::new();
    let chunk = replay_persisted(&mut logger, &mut rb, 2).unwrap();
    let (parsed, _) = parse_chunk(&chunk).unwrap();
    assert_eq!(parsed.id, 1);
    assert_eq!(parsed.payload, b"old".to_vec());
    assert_eq!(parsed.dropped, 0);
    // The marker is acknowledged under the new build.
    assert_eq!(rb.persisted(), 0);
    assert_eq!(rb.id(), 2);
    assert!(rb.empty());
}

#[test]
fn replay_is_skipped_when_bytes_were_dropped() {
    let mut rb = fresh_buffer(16);
    assert!(rb.push_slice(b"old"));
    rb.init(2, 16);
    let mut logger = FrameLogger::new();
    logger.dropped = 1;
    assert!(replay_persisted(&mut logger, &mut rb, 2).is_none());
    assert_eq!(logger.dropped, 0);
    assert_eq!(rb.persisted(), 0);
}

#[test]
fn connection_cycle_walks_its_states() {
    let (s, a) = drain_step(DrainState::Idle, DrainEvent::Started).unwrap();
    assert_eq!((s, a), (DrainState::Broadcasting, DrainAction::Broadcast));
    let (s, a) = drain_step(s, DrainEvent::BroadcastSent).unwrap();
    assert_eq!((s, a), (DrainState::Listening, DrainAction::Accept));
    let (s, a) = drain_step(s, DrainEvent::AcceptSucceeded).unwrap();
    assert_eq!((s, a), (DrainState::Connected, DrainAction::ServeClient));
    let (s, a) = drain_step(s, DrainEvent::DataReady).unwrap();
    assert_eq!((s, a), (DrainState::Connected, DrainAction::SendChunk));
    let (s, a) = drain_step(s, DrainEvent::PeerClosed).unwrap();
    assert_eq!((s, a), (DrainState::Idle, DrainAction::Disconnect));
}

#[test]
fn listening_falls_back_to_broadcasting() {
    assert_eq!(
        drain_step(DrainState::Listening, DrainEvent::AcceptTimedOut).unwrap(),
        (DrainState::Broadcasting, DrainAction::Broadcast)
    );
    assert_eq!(
        drain_step(DrainState::Listening, DrainEvent::AcceptFailed).unwrap(),
        (DrainState::Broadcasting, DrainAction::Retry)
    );
    assert!(drain_step(DrainState::Idle, DrainEvent::PeerClosed).is_none());
}

#[test]
fn discovery_uses_the_well_known_payload_and_ports() {
    assert_eq!(discovery_payload(), b"hello".to_vec());
    assert_eq!(DRAIN_PORT, 4300);
    assert_eq!(DISCOVERY_PORT, 4301);
}
