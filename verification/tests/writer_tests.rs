//! The segment writer: scratch-buffer chunking, page alignment and
//! byte-exact stream consumption.

use chainloader::errors::LoadError;
use chainloader::plan::{LoadCommand, LoadPlan};
use chainloader::stream::StreamCursor;
use chainloader::writer::{execute_plan, WriteOp};

fn plan_of(commands: Vec<LoadCommand>) -> LoadPlan {
    LoadPlan { entry: 0, commands, erased: Vec::new() }
}

#[test]
fn misaligned_flash_write_ends_its_first_chunk_on_a_page_boundary() {
    let data: Vec<u8> = (0..0x300u32).map(|i| i as u8).collect();
    let mut cursor = StreamCursor::new(data.clone());
    let plan = plan_of(vec![LoadCommand::Flash { offset: 0x1080, count: 0x300 }]);
    let ops = execute_plan(&mut cursor, &plan).unwrap();
    // First chunk is cut back from the 0x200 scratch size to end at the
    // page boundary 0x1200; the remainder fits the scratch buffer whole.
    assert_eq!(ops.len(), 2);
    assert_eq!(ops[0], WriteOp::Flash { offset: 0x1080, bytes: data[..0x180].to_vec() });
    assert_eq!(ops[1], WriteOp::Flash { offset: 0x1200, bytes: data[0x180..].to_vec() });
    assert_eq!(cursor.position(), 0x300);
}

#[test]
fn aligned_flash_write_streams_in_full_scratch_chunks() {
    let data: Vec<u8> = (0..0x500u32).map(|i| (i % 199) as u8).collect();
    let mut cursor = StreamCursor::new(data.clone());
    let plan = plan_of(vec![LoadCommand::Flash { offset: 0x2000, count: 0x500 }]);
    let ops = execute_plan(&mut cursor, &plan).unwrap();
    assert_eq!(ops.len(), 3);
    assert_eq!(ops[0], WriteOp::Flash { offset: 0x2000, bytes: data[..0x200].to_vec() });
    assert_eq!(ops[1], WriteOp::Flash { offset: 0x2200, bytes: data[0x200..0x400].to_vec() });
    assert_eq!(ops[2], WriteOp::Flash { offset: 0x2400, bytes: data[0x400..].to_vec() });
}

#[test]
fn each_command_consumes_its_count_exactly_once_in_order() {
    let data: Vec<u8> = (0..32u32).map(|i| i as u8).collect();
    let mut cursor = StreamCursor::new(data.clone());
    let plan = plan_of(vec![
        LoadCommand::Discard { count: 5 },
        LoadCommand::Ram { offset: 0x2000_0000, count: 3 },
        LoadCommand::Discard { count: 4 },
        LoadCommand::Flash { offset: 0x3000, count: 20 },
    ]);
    let ops = execute_plan(&mut cursor, &plan).unwrap();
    // Total consumption is the sum of the counts: 5 + 3 + 4 + 20.
    assert_eq!(cursor.position(), 32);
    assert_eq!(ops.len(), 2);
    assert_eq!(ops[0], WriteOp::Ram { offset: 0x2000_0000, bytes: data[5..8].to_vec() });
    assert_eq!(ops[1], WriteOp::Flash { offset: 0x3000, bytes: data[12..32].to_vec() });
}

#[test]
fn a_short_stream_fails_with_unexpected_eof() {
    let mut cursor = StreamCursor::new(vec![0u8; 10]);
    let plan = plan_of(vec![LoadCommand::Ram { offset: 0x2000_0000, count: 11 }]);
    assert_eq!(execute_plan(&mut cursor, &plan).unwrap_err(), LoadError::UnexpectedEof);
}
