//! The frame logger: frame bracketing, reentrancy detection, overflow
//! eviction and the wait-for-data poll.

use chainloader::logger::{is_drained, FrameLogger};
use chainloader::ring::PersistentRingBuffer;

fn fresh_buffer(capacity: usize) -> PersistentRingBuffer {
    let mut rb = PersistentRingBuffer {
        magic: 0,
        id: 0,
        full: false,
        read: 0,
        write: 0,
        capacity: 0,
        persisted: 0,
        storage: vec![0; capacity],
    };
    rb.init(1, capacity);
    rb
}

#[test]
fn one_frame_lands_with_its_terminator() {
    let mut rb = fresh_buffer(16);
    let mut logger = FrameLogger::new();
    assert!(logger.acquire(&rb));
    logger.write(&mut rb, &[1, 2, 3]);
    logger.release(&mut rb);
    assert!(!logger.taken);
    assert_eq!(logger.dropped, 0);
    let mut out = [0u8; 4];
    assert_eq!(rb.pop_to_buf(&mut out), 4);
    assert_eq!(out, [1, 2, 3, 0]);
}

#[test]
fn reentrant_acquire_clears_the_guard_and_fails() {
    let rb = fresh_buffer(16);
    let mut logger = FrameLogger::new();
    assert!(logger.acquire(&rb));
    // A second acquire before release is a programming error: it fails, and
    // the guard is cleared first so a fatal report can still be logged.
    assert!(!logger.acquire(&rb));
    assert!(!logger.taken);
    assert!(logger.acquire(&rb));
}

#[test]
fn overflow_evicts_older_frames_not_the_one_in_flight() {
    let mut rb = fresh_buffer(4);
    let mut logger = FrameLogger::new();
    // First frame fills the buffer: 3 payload bytes plus the terminator.
    assert!(logger.acquire(&rb));
    logger.write(&mut rb, &[1, 2, 3]);
    logger.release(&mut rb);
    assert_eq!(rb.len(), 4);
    // The second frame does not fit: everything before it is evicted and
    // counted as dropped, then the push is retried.
    assert!(logger.acquire(&rb));
    logger.write(&mut rb, &[5, 6]);
    logger.release(&mut rb);
    assert_eq!(logger.dropped, 4);
    let mut out = [0u8; 3];
    assert_eq!(rb.pop_to_buf(&mut out), 3);
    assert_eq!(out, [5, 6, 0]);
}

#[test]
fn writes_outside_a_frame_are_ignored() {
    let mut rb = fresh_buffer(16);
    let mut logger = FrameLogger::new();
    logger.push_bytes(&mut rb, &[1, 2, 3]);
    assert!(rb.empty());
}

#[test]
fn poll_reports_the_available_length_and_clears_dropped() {
    let mut rb = fresh_buffer(16);
    let mut logger = FrameLogger::new();
    assert_eq!(logger.poll_wait(&rb), None);
    assert!(logger.acquire(&rb));
    logger.write(&mut rb, &[7, 8]);
    logger.release(&mut rb);
    logger.dropped = 5;
    assert_eq!(logger.poll_wait(&rb), Some(3));
    assert_eq!(logger.dropped, 0);
}

#[test]
fn frames_travel_from_logger_to_client_intact() {
    // Device side: two frames land in the persistent buffer.
    let mut rb = fresh_buffer(32);
    let mut logger = chainloader::logger::FrameLogger::new();
    assert!(logger.acquire(&rb));
    logger.write(&mut rb, &[0x7f]);
    logger.release(&mut rb);
    assert!(logger.acquire(&rb));
    logger.write(&mut rb, &[1, 2, 3, 4, 5, 6, 0x40]);
    logger.release(&mut rb);
    // Drain side: everything available leaves as one chunk.
    let len = rb.len();
    let chunk = chainloader::drain::build_chunk(&mut logger, &mut rb, 0xaa, len);
    // Client side: the chunk parses and its frames decode.
    let (parsed, _) = chainloader::drain::parse_chunk(&chunk).unwrap();
    assert_eq!(parsed.dropped, 0);
    let frames = chainloader::rzcobs::decode_frames(&parsed.payload).unwrap();
    assert_eq!(frames, vec![vec![0u8; 7], vec![1, 2, 3, 4, 5, 6, 0]]);
}

#[test]
fn drained_means_the_buffer_is_empty() {
    let mut rb = fresh_buffer(8);
    assert!(is_drained(&rb));
    assert!(rb.push_slice(&[1]));
    assert!(!is_drained(&rb));
    let mut out = [0u8; 1];
    rb.pop_to_buf(&mut out);
    assert!(is_drained(&rb));
}
