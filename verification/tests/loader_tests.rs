//! End-to-end load attempts: header validation, planning, merging,
//! ordering, overlap rejection and payload execution.

use chainloader::elf::ExecutableHeader;
use chainloader::errors::LoadError;
use chainloader::loader::{dispatch_command, load_image, ControlCommand};
use chainloader::plan::{LoadCommand, LoadPlanner, MemoryWindows};
use chainloader::stream::StreamCursor;
use chainloader::writer::WriteOp;

fn windows() -> MemoryWindows {
    MemoryWindows {
        flash_start: 0x1000,
        flash_end: 0x100000,
        ram_start: 0x2000_0000,
        ram_end: 0x2004_0000,
    }
}

fn exec_header(entry: u32, ph_off: u32, ph_entry_size: u16, ph_count: u16) -> Vec<u8> {
    let mut h = vec![0u8; 52];
    h[0] = 0x7f;
    h[1] = 0x45;
    h[2] = 0x4c;
    h[3] = 0x46;
    h[4] = 1;
    h[5] = 1;
    h[6] = 1;
    h[16..18].copy_from_slice(&2u16.to_le_bytes());
    h[18..20].copy_from_slice(&40u16.to_le_bytes());
    h[20..24].copy_from_slice(&1u32.to_le_bytes());
    h[24..28].copy_from_slice(&entry.to_le_bytes());
    h[28..32].copy_from_slice(&ph_off.to_le_bytes());
    h[42..44].copy_from_slice(&ph_entry_size.to_le_bytes());
    h[44..46].copy_from_slice(&ph_count.to_le_bytes());
    h
}

fn ph_record(p_type: u32, p_offset: u32, p_vaddr: u32, p_filesz: u32, p_memsz: u32) -> Vec<u8> {
    let mut r = vec![0u8; 32];
    r[0..4].copy_from_slice(&p_type.to_le_bytes());
    r[4..8].copy_from_slice(&p_offset.to_le_bytes());
    r[8..12].copy_from_slice(&p_vaddr.to_le_bytes());
    r[16..20].copy_from_slice(&p_filesz.to_le_bytes());
    r[20..24].copy_from_slice(&p_memsz.to_le_bytes());
    r
}

#[test]
fn adjacent_flash_segments_merge_into_one_command() {
    // Two flash segments [0x1000, 0x1100) and [0x1100, 0x1200), file sizes
    // matching, payload immediately after the table.
    let mut image = exec_header(0x1000, 52, 32, 2);
    image.extend(ph_record(1, 116, 0x1000, 0x100, 0x100));
    image.extend(ph_record(1, 116 + 0x100, 0x1100, 0x100, 0x100));
    let payload: Vec<u8> = (0..0x200u32).map(|i| (i % 251) as u8 + 1).collect();
    image.extend(payload.clone());

    let mut cursor = StreamCursor::new(image);
    let out = load_image(&mut cursor, windows()).unwrap();
    assert_eq!(out.entry, 0x1000);
    assert_eq!(out.commands, vec![LoadCommand::Flash { offset: 0x1000, count: 0x200 }]);
    assert_eq!(out.writes, vec![WriteOp::Flash { offset: 0x1000, bytes: payload }]);
    // Exactly one erase block is touched.
    assert!(out.erased[0]);
    assert!(!out.erased[1]);
    // The whole payload was consumed exactly once.
    assert_eq!(cursor.position(), 116 + 0x200);
}

#[test]
fn segments_in_reverse_file_order_are_rejected() {
    let mut image = exec_header(0x1000, 52, 32, 2);
    image.extend(ph_record(1, 116 + 0x100, 0x1100, 0x100, 0x100));
    image.extend(ph_record(1, 116, 0x1000, 0x100, 0x100));
    image.extend(vec![0u8; 0x200]);

    let mut cursor = StreamCursor::new(image);
    let res = load_image(&mut cursor, windows());
    assert_eq!(res.unwrap_err(), LoadError::LoadsOutOfOrder);
}

#[test]
fn gap_before_first_segment_becomes_a_discard() {
    // The segment's payload starts 0x40 bytes after the table end.
    let mut image = exec_header(0x1000, 52, 32, 1);
    image.extend(ph_record(1, 84 + 0x40, 0x1000, 0x100, 0x100));
    image.extend(vec![0xeeu8; 0x40]);
    let payload: Vec<u8> = (0..0x100u32).map(|i| i as u8).collect();
    image.extend(payload.clone());

    let mut cursor = StreamCursor::new(image);
    let out = load_image(&mut cursor, windows()).unwrap();
    assert_eq!(
        out.commands,
        vec![
            LoadCommand::Discard { count: 0x40 },
            LoadCommand::Flash { offset: 0x1000, count: 0x100 },
        ]
    );
    assert_eq!(out.writes, vec![WriteOp::Flash { offset: 0x1000, bytes: payload }]);
}

#[test]
fn flash_writes_sharing_a_page_are_rejected() {
    // Byte ranges [0x1000, 0x1010) and [0x1020, 0x1030) do not touch, but
    // their page-aligned ranges coincide; the check is deliberately
    // conservative.
    let mut image = exec_header(0x1000, 52, 32, 2);
    image.extend(ph_record(1, 116, 0x1000, 0x10, 0x10));
    image.extend(ph_record(1, 116 + 0x10, 0x1020, 0x10, 0x10));
    image.extend(vec![0u8; 0x20]);

    let mut cursor = StreamCursor::new(image);
    assert_eq!(load_image(&mut cursor, windows()).unwrap_err(), LoadError::OverlappingFlashWrite);
}

#[test]
fn segment_ending_exactly_at_the_window_end_is_accepted() {
    // The flash window is [0x1000, 0x100000); a segment whose end is the
    // window end still lies entirely inside it.
    let mut image = exec_header(0x1000, 52, 32, 1);
    image.extend(ph_record(1, 84, 0xfff00, 0x100, 0x100));
    image.extend(vec![0x7au8; 0x100]);

    let mut cursor = StreamCursor::new(image);
    let out = load_image(&mut cursor, windows()).unwrap();
    assert_eq!(out.commands, vec![LoadCommand::Flash { offset: 0xfff00, count: 0x100 }]);
}

#[test]
fn segment_outside_both_windows_is_a_bad_load() {
    let mut image = exec_header(0x1000, 52, 32, 1);
    image.extend(ph_record(1, 84, 0x50_0000, 0x10, 0x10));
    image.extend(vec![0u8; 0x10]);

    let mut cursor = StreamCursor::new(image);
    assert_eq!(load_image(&mut cursor, windows()).unwrap_err(), LoadError::BadLoad);
}

#[test]
fn ram_segment_is_copied_whole() {
    let mut image = exec_header(0x2000_0100, 52, 32, 1);
    image.extend(ph_record(1, 84, 0x2000_0100, 0x20, 0x20));
    let payload: Vec<u8> = (1..=0x20u8).collect();
    image.extend(payload.clone());

    let mut cursor = StreamCursor::new(image);
    let out = load_image(&mut cursor, windows()).unwrap();
    assert_eq!(out.commands, vec![LoadCommand::Ram { offset: 0x2000_0100, count: 0x20 }]);
    assert_eq!(out.writes, vec![WriteOp::Ram { offset: 0x2000_0100, bytes: payload }]);
}

#[test]
fn non_loadable_and_empty_records_are_skipped() {
    let mut image = exec_header(0x1000, 52, 32, 3);
    image.extend(ph_record(4, 148, 0x9000_0000, 0x10, 0x10)); // not loadable
    image.extend(ph_record(1, 148, 0x1000, 0, 0x10)); // no file payload
    image.extend(ph_record(1, 148, 0x1000, 0x10, 0x10));
    image.extend(vec![0x42u8; 0x10]);

    let mut cursor = StreamCursor::new(image);
    let out = load_image(&mut cursor, windows()).unwrap();
    assert_eq!(out.commands, vec![LoadCommand::Flash { offset: 0x1000, count: 0x10 }]);
}

#[test]
fn corrupted_magic_is_a_bad_header() {
    let mut image = exec_header(0x1000, 52, 32, 0);
    image[1] = 0x45 ^ 0xff;
    let mut cursor = StreamCursor::new(image);
    assert_eq!(load_image(&mut cursor, windows()).unwrap_err(), LoadError::BadElfHeader);
}

#[test]
fn undersized_entry_size_is_a_bad_header() {
    let image = exec_header(0x1000, 52, 16, 0);
    let mut cursor = StreamCursor::new(image);
    assert_eq!(load_image(&mut cursor, windows()).unwrap_err(), LoadError::BadElfHeader);
}

#[test]
fn truncated_header_is_an_unexpected_eof() {
    let mut cursor = StreamCursor::new(vec![0x7f, 0x45, 0x4c, 0x46]);
    assert_eq!(load_image(&mut cursor, windows()).unwrap_err(), LoadError::UnexpectedEof);
}

#[test]
fn executable_without_loadable_segments_is_rejected() {
    let image = exec_header(0x1000, 52, 32, 0);
    let mut cursor = StreamCursor::new(image);
    assert_eq!(load_image(&mut cursor, windows()).unwrap_err(), LoadError::NoLoads);
}

#[test]
fn command_queue_overflow_is_reported() {
    let hdr = ExecutableHeader { entry: 0x1000, ph_off: 52, ph_entry_size: 32, ph_count: 26 };
    let mut planner = LoadPlanner::new(&hdr, windows());
    let table_end: u32 = 52 + 32 * 26;
    let mut res = Ok(());
    for i in 0..26u32 {
        let rec = chainloader::elf::ProgramHeaderRecord {
            p_type: 1,
            p_offset: table_end + i * 0x10,
            p_vaddr: 0x1000 + i * 0x2000,
            p_filesz: 0x10,
            p_memsz: 0x10,
        };
        res = planner.process_record(&rec);
        if res.is_err() {
            break;
        }
    }
    assert_eq!(res.unwrap_err(), LoadError::TooManyLoads);
}

#[test]
fn control_commands_dispatch_by_byte() {
    assert_eq!(dispatch_command(0xec).unwrap(), ControlCommand::Echo);
    assert_eq!(dispatch_command(0xef).unwrap(), ControlCommand::LoadExecutable);
    assert_eq!(dispatch_command(0x00).unwrap_err(), LoadError::UnknownCommand);
    assert_eq!(dispatch_command(0x41).unwrap_err(), LoadError::UnknownCommand);
}

#[test]
fn seeking_backwards_is_refused() {
    let mut cursor = StreamCursor::new(vec![0u8; 16]);
    cursor.seek_absolute(8).unwrap();
    assert_eq!(cursor.seek_absolute(4).unwrap_err(), LoadError::BackwardsSeek);
    assert_eq!(cursor.seek_relative(-1).unwrap_err(), LoadError::BackwardsSeek);
    assert_eq!(cursor.position(), 8);
    cursor.seek_relative(4).unwrap();
    assert_eq!(cursor.position(), 12);
    assert_eq!(cursor.seek_relative(8).unwrap_err(), LoadError::UnexpectedEof);
}
