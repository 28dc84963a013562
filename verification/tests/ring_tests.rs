//! Behaviour of the reset-persistent ring buffer: boot validation, the
//! persisted marker, wraparound, and overflow eviction.

use chainloader::ring::{PersistentRingBuffer, RING_MAGIC};

fn fresh_buffer(capacity: usize) -> PersistentRingBuffer {
    let mut rb = PersistentRingBuffer {
        magic: 0,
        id: 0,
        full: false,
        read: 0,
        write: 0,
        capacity: 0,
        persisted: 0,
        storage: vec![0; capacity],
    };
    rb.init(1, capacity);
    rb
}

#[test]
fn init_on_garbage_resets_to_empty() {
    let mut rb = PersistentRingBuffer {
        magic: 0xdeadbeef,
        id: 7,
        full: true,
        read: 3,
        write: 9,
        capacity: 16,
        persisted: 5,
        storage: vec![0xaa; 16],
    };
    rb.init(42, 16);
    assert_eq!(rb.magic, RING_MAGIC);
    assert_eq!(rb.id(), 42);
    assert_eq!(rb.len(), 0);
    assert_eq!(rb.persisted(), 0);
    assert!(rb.empty());
}

#[test]
fn init_with_corrupted_magic_always_resets() {
    // A header that would otherwise pass, except for the magic word.
    let mut rb = PersistentRingBuffer {
        magic: RING_MAGIC ^ 1,
        id: 7,
        full: false,
        read: 2,
        write: 6,
        capacity: 16,
        persisted: 0,
        storage: vec![0x55; 16],
    };
    rb.init(9, 16);
    assert_eq!(rb.id(), 9);
    assert_eq!(rb.len(), 0);
    assert_eq!(rb.persisted(), 0);
}

#[test]
fn init_valid_empty_adopts_new_id() {
    let mut rb = fresh_buffer(16);
    assert!(rb.push_slice(&[1, 2, 3]));
    let mut drained = [0u8; 3];
    assert_eq!(rb.pop_to_buf(&mut drained), 3);
    // Same layout, now empty: a warm reset with nothing buffered.
    rb.init(2, 16);
    assert_eq!(rb.id(), 2);
    assert_eq!(rb.persisted(), 0);
}

#[test]
fn init_valid_non_empty_preserves_prior_id_and_content() {
    let mut rb = fresh_buffer(16);
    assert!(rb.push_slice(&[10, 20, 30, 40]));
    // Warm reset under a new build: the old id and bytes survive, and the
    // surviving count is exposed as persisted.
    rb.init(2, 16);
    assert_eq!(rb.id(), 1);
    assert_eq!(rb.persisted(), 4);
    assert_eq!(rb.len(), 4);
    let mut out = [0u8; 4];
    assert_eq!(rb.pop_to_buf(&mut out), 4);
    assert_eq!(out, [10, 20, 30, 40]);
}

#[test]
fn reset_presisted_clears_marker_and_restamps() {
    let mut rb = fresh_buffer(16);
    assert!(rb.push_slice(&[1, 2]));
    rb.init(2, 16);
    assert_eq!(rb.persisted(), 2);
    rb.reset_presisted(2);
    assert_eq!(rb.persisted(), 0);
    assert_eq!(rb.id(), 2);
}

#[test]
fn push_more_than_free_space_fails_without_mutating_cursors() {
    let mut rb = fresh_buffer(8);
    assert!(rb.push_slice(&[1, 2, 3, 4, 5]));
    let read_before = rb.read;
    let write_before = rb.write;
    // Only 3 bytes free.
    assert!(!rb.push_slice(&[9, 9, 9, 9]));
    assert_eq!(rb.read, read_before);
    assert_eq!(rb.write, write_before);
    assert_eq!(rb.len(), 5);
}

#[test]
fn push_within_free_space_grows_length_by_exactly_n() {
    let mut rb = fresh_buffer(8);
    assert!(rb.push_slice(&[1, 2, 3]));
    assert_eq!(rb.len(), 3);
    assert!(rb.push_slice(&[4, 5, 6, 7, 8]));
    assert_eq!(rb.len(), 8);
    assert_eq!(rb.free_space(), 0);
    assert!(!rb.empty());
}

#[test]
fn push_and_pop_wrap_around_the_end() {
    let mut rb = fresh_buffer(8);
    assert!(rb.push_slice(&[1, 2, 3, 4, 5, 6]));
    let mut out = [0u8; 4];
    assert_eq!(rb.pop_to_buf(&mut out), 4);
    assert_eq!(out, [1, 2, 3, 4]);
    // This push wraps past the end of the storage.
    assert!(rb.push_slice(&[7, 8, 9, 10]));
    let mut rest = [0u8; 6];
    assert_eq!(rb.pop_to_buf(&mut rest), 6);
    assert_eq!(rest, [5, 6, 7, 8, 9, 10]);
    assert!(rb.empty());
}

#[test]
fn pop_into_short_buffer_returns_prefix() {
    let mut rb = fresh_buffer(8);
    assert!(rb.push_slice(&[1, 2, 3, 4, 5]));
    let mut out = [0u8; 2];
    assert_eq!(rb.pop_to_buf(&mut out), 2);
    assert_eq!(out, [1, 2]);
    assert_eq!(rb.len(), 3);
}

#[test]
fn push_to_full_fails_then_succeeds_after_erase_to() {
    let mut rb = fresh_buffer(8);
    assert!(rb.push_slice(&[1, 2, 3, 4, 5, 6, 7, 8]));
    assert_eq!(rb.free_space(), 0);
    // The frame in flight starts at the current write cursor.
    let marker = rb.get_write_ptr();
    let data = [0xab, 0xcd];
    assert!(!rb.push_slice(&data));
    assert_eq!(rb.len(), 8);
    // Evicting everything before the frame makes room.
    let discarded = rb.erase_to(marker);
    assert_eq!(discarded, 8);
    assert!(rb.push_slice(&data));
    let mut out = [0u8; 2];
    assert_eq!(rb.pop_to_buf(&mut out), 2);
    assert_eq!(out, [0xab, 0xcd]);
}

#[test]
fn erase_to_discards_only_up_to_the_marker() {
    let mut rb = fresh_buffer(8);
    assert!(rb.push_slice(&[1, 2, 3, 4, 5]));
    let marker = rb.get_write_ptr();
    assert!(rb.push_slice(&[6, 7]));
    // Discard the five bytes before the marker; the frame after it stays.
    assert_eq!(rb.erase_to(marker), 5);
    assert_eq!(rb.len(), 2);
    let mut out = [0u8; 2];
    assert_eq!(rb.pop_to_buf(&mut out), 2);
    assert_eq!(out, [6, 7]);
}

#[test]
fn empty_push_always_succeeds_and_changes_nothing() {
    let mut rb = fresh_buffer(4);
    assert!(rb.push_slice(&[1, 2, 3, 4]));
    // Even on a full buffer, pushing nothing is a success that leaves the
    // full flag and the cursors alone.
    assert!(rb.push_slice(&[]));
    assert_eq!(rb.len(), 4);
    assert_eq!(rb.free_space(), 0);
}

#[test]
fn pop_into_empty_buffer_moves_nothing() {
    let mut rb = fresh_buffer(4);
    assert!(rb.push_slice(&[1, 2]));
    let mut out: [u8; 0] = [];
    assert_eq!(rb.pop_to_buf(&mut out), 0);
    assert_eq!(rb.len(), 2);
}

#[test]
fn erase_to_the_read_cursor_of_a_full_buffer_discards_everything() {
    let mut rb = fresh_buffer(4);
    assert!(rb.push_slice(&[1, 2, 3, 4]));
    let marker = rb.get_write_ptr();
    assert_eq!(rb.erase_to(marker), 4);
    assert!(rb.empty());
}

#[test]
fn erase_to_the_read_cursor_of_a_partial_buffer_discards_nothing() {
    let mut rb = fresh_buffer(8);
    assert!(rb.push_slice(&[1, 2, 3]));
    assert_eq!(rb.erase_to(0), 0);
    assert_eq!(rb.len(), 3);
}

#[test]
fn valid_rejects_out_of_range_cursors() {
    let rb = PersistentRingBuffer {
        magic: RING_MAGIC,
        id: 1,
        full: false,
        read: 16,
        write: 0,
        capacity: 16,
        persisted: 0,
        storage: vec![0; 16],
    };
    assert!(!rb.valid());
}
