//! Parsing and validation of the fixed 32-bit little-endian executable
//! format: the file header and the program-header records that drive the
//! load planner.

use vstd::prelude::*;

use crate::bytes::{le16, le32, read_u16_le, read_u32_le};
use crate::errors::LoadError;

verus! {

/// Size of the fixed executable header at the start of the file.
pub const EXEC_HEADER_LEN: usize = 52;

/// Size of one program-header record as read from the stream; the table may
/// declare a larger entry size, in which case the tail of each entry is
/// skipped.
pub const PROGRAM_HEADER_LEN: usize = 32;

/// Record type of a loadable segment.
pub const PT_LOAD: u32 = 1;

/// The fields of the fixed header that the loader needs later.
#[derive(Clone, Copy, Debug, PartialEq, Eq, Structural)]
pub struct ExecutableHeader {
    /// Address execution jumps to once the image is loaded.
    pub entry: u32,
    /// File offset of the program-header table.
    pub ph_off: u32,
    /// Declared size of one program-header table entry.
    pub ph_entry_size: u16,
    /// Number of program-header table entries.
    pub ph_count: u16,
}

/// One program-header record. Only loadable records with a non-zero file
/// size participate in planning; the rest are skipped.
#[derive(Clone, Copy, Debug, PartialEq, Eq, Structural)]
pub struct ProgramHeaderRecord {
    /// Load-type flag; `PT_LOAD` marks a loadable segment.
    pub p_type: u32,
    /// Offset of the segment's payload in the file.
    pub p_offset: u32,
    /// Address the segment is loaded at.
    pub p_vaddr: u32,
    /// Number of payload bytes present in the file.
    pub p_filesz: u32,
    /// Size of the segment in memory.
    pub p_memsz: u32,
}

/// Whether the 52 header bytes pass every fixed-format check: the four magic
/// bytes, 32-bit class, little-endian encoding, current header version,
/// executable type, the expected machine, object version one, and a
/// program-header entry size of at least one record.
pub open spec fn header_valid(b: Seq<u8>) -> bool
    recommends
        b.len() == EXEC_HEADER_LEN,
{
    &&& b[0] == 0x7fu8
    &&& b[1] == 0x45u8
    &&& b[2] == 0x4cu8
    &&& b[3] == 0x46u8
    &&& b[4] == 1u8
    &&& b[5] == 1u8
    &&& b[6] == 1u8
    &&& le16(b.subrange(16, 18)) == 2u16
    &&& le16(b.subrange(18, 20)) == 40u16
    &&& le32(b.subrange(20, 24)) == 1u32
    &&& le16(b.subrange(42, 44)) >= PROGRAM_HEADER_LEN
}

/// The header fields stored in the 52 header bytes.
pub open spec fn header_of(b: Seq<u8>) -> ExecutableHeader
    recommends
        b.len() == EXEC_HEADER_LEN,
{
    ExecutableHeader {
        entry: le32(b.subrange(24, 28)),
        ph_off: le32(b.subrange(28, 32)),
        ph_entry_size: le16(b.subrange(42, 44)),
        ph_count: le16(b.subrange(44, 46)),
    }
}

/// The record fields stored in 32 program-header bytes.
pub open spec fn record_of(b: Seq<u8>) -> ProgramHeaderRecord
    recommends
        b.len() == PROGRAM_HEADER_LEN,
{
    ProgramHeaderRecord {
        p_type: le32(b.subrange(0, 4)),
        p_offset: le32(b.subrange(4, 8)),
        p_vaddr: le32(b.subrange(8, 12)),
        p_filesz: le32(b.subrange(16, 20)),
        p_memsz: le32(b.subrange(20, 24)),
    }
}

/// Validates the fixed header and extracts the fields the loader keeps.
/// Any mismatch is fatal to the load attempt.
pub fn parse_header(b: &[u8]) -> (r: Result<ExecutableHeader, LoadError>)
    requires
        b@.len() == EXEC_HEADER_LEN,
    ensures
        header_valid(b@) ==> r == Ok::<ExecutableHeader, LoadError>(header_of(b@)),
        !header_valid(b@) ==> r == Err::<ExecutableHeader, LoadError>(LoadError::BadElfHeader),
{
    let magic_ok = b[0] == 0x7f && b[1] == 0x45 && b[2] == 0x4c && b[3] == 0x46;
    let ident_ok = b[4] == 1 && b[5] == 1 && b[6] == 1;
    let e_type = read_u16_le(b, 16);
    let e_machine = read_u16_le(b, 18);
    let e_version = read_u32_le(b, 20);
    let ph_entry_size = read_u16_le(b, 42);
    if !(magic_ok && ident_ok && e_type == 2 && e_machine == 40 && e_version == 1) {
        return Err(LoadError::BadElfHeader);
    }
    if (ph_entry_size as usize) < PROGRAM_HEADER_LEN {
        return Err(LoadError::BadElfHeader);
    }
    Ok(
        ExecutableHeader {
            entry: read_u32_le(b, 24),
            ph_off: read_u32_le(b, 28),
            ph_entry_size,
            ph_count: read_u16_le(b, 44),
        },
    )
}

/// Reads the fields of one program-header record. Every byte pattern is a
/// record; the planner decides what to do with it.
pub fn parse_program_header(b: &[u8]) -> (r: ProgramHeaderRecord)
    requires
        b@.len() == PROGRAM_HEADER_LEN,
    ensures
        r == record_of(b@),
{
    ProgramHeaderRecord {
        p_type: read_u32_le(b, 0),
        p_offset: read_u32_le(b, 4),
        p_vaddr: read_u32_le(b, 8),
        p_filesz: read_u32_le(b, 16),
        p_memsz: read_u32_le(b, 20),
    }
}

} // verus!
