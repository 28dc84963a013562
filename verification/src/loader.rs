//! The load pipeline driven end to end: command dispatch on the control
//! connection, and the whole journey from a streamed executable to the
//! planned commands and the write operations that realise them.

use vstd::prelude::*;

use crate::elf::{
    header_of, header_valid, parse_header, parse_program_header, record_of, ExecutableHeader,
    ProgramHeaderRecord, EXEC_HEADER_LEN, PROGRAM_HEADER_LEN,
};
use crate::errors::LoadError;
use crate::plan::{
    flash_pairwise_disjoint, initial_state, step_error, step_state, LoadCommand, LoadPlanner,
    MemoryWindows, PlanState,
};
use crate::stream::StreamCursor;
use crate::writer::{
    execute_plan, expected_ops, lemma_total_count_nonneg, ops_model, total_count, WriteOp,
};

verus! {

/// A command byte received on the control connection.
#[derive(Clone, Copy, Debug, PartialEq, Eq, Structural)]
pub enum ControlCommand {
    /// Echo back a counted run of bytes, for connectivity testing.
    Echo,
    /// Stream an executable and load it.
    LoadExecutable,
}

/// Command byte that asks for an echo.
pub const CMD_ECHO: u8 = 0xec;

/// Command byte that starts a load.
pub const CMD_LOAD: u8 = 0xef;

/// Dispatches one command byte of the control connection. An unknown byte
/// tears the connection down.
pub fn dispatch_command(cmd: u8) -> (r: Result<ControlCommand, LoadError>)
    ensures
        cmd == CMD_ECHO ==> r == Ok::<ControlCommand, LoadError>(ControlCommand::Echo),
        cmd == CMD_LOAD ==> r == Ok::<ControlCommand, LoadError>(ControlCommand::LoadExecutable),
        cmd != CMD_ECHO && cmd != CMD_LOAD ==> r == Err::<ControlCommand, LoadError>(
            LoadError::UnknownCommand,
        ),
{
    if cmd == CMD_ECHO {
        Ok(ControlCommand::Echo)
    } else if cmd == CMD_LOAD {
        Ok(ControlCommand::LoadExecutable)
    } else {
        Err(LoadError::UnknownCommand)
    }
}

/// Everything one successful load attempt produces: the validated entry
/// point, the planned commands, the blocks to erase first, and the write
/// operations carrying the payload.
#[derive(Debug)]
pub struct LoadOutcome {
    /// Address execution jumps to once the image is loaded.
    pub entry: u32,
    /// The planned commands, in file order.
    pub commands: Vec<LoadCommand>,
    /// One flag per erase block a planned flash write touches.
    pub erased: Vec<bool>,
    /// The write operations, in execution order.
    pub writes: Vec<WriteOp>,
}

/// The 52 bytes the fixed header is read from.
pub open spec fn header_bytes(data: Seq<u8>) -> Seq<u8> {
    data.subrange(0, EXEC_HEADER_LEN as int)
}

/// File offset of table slot `i`.
pub open spec fn slot_off(hdr: ExecutableHeader, i: int) -> int {
    hdr.ph_off + hdr.ph_entry_size * i
}

/// The program-header record stored at table slot `i` of the stream.
pub open spec fn slot_record(data: Seq<u8>, hdr: ExecutableHeader, i: int) -> ProgramHeaderRecord {
    record_of(data.subrange(slot_off(hdr, i), slot_off(hdr, i) + PROGRAM_HEADER_LEN))
}

/// Stream position before the seek to slot `i`: the header end for the
/// first slot, the previous record's end after that.
pub open spec fn walk_pos(hdr: ExecutableHeader, i: int) -> int {
    if i <= 0 {
        EXEC_HEADER_LEN as int
    } else {
        slot_off(hdr, i - 1) + PROGRAM_HEADER_LEN
    }
}

/// Position right after the program-header table, where the payload of the
/// first planned command begins.
pub open spec fn table_end_spec(b: Seq<u8>) -> int {
    header_of(b).ph_off + header_of(b).ph_entry_size * header_of(b).ph_count
}

/// The planner state after the first `n` table slots, along the error-free
/// path.
pub open spec fn table_walk_state(
    data: Seq<u8>,
    hdr: ExecutableHeader,
    windows: MemoryWindows,
    n: int,
) -> PlanState
    decreases n,
{
    if n <= 0 {
        initial_state(hdr, windows)
    } else {
        step_state(table_walk_state(data, hdr, windows, n - 1), slot_record(data, hdr, n - 1))
    }
}

/// The first failure while walking the first `n` table slots: a backward
/// seek to the slot, the stream ending inside its record, or the planner's
/// own rejection of the record.
pub open spec fn table_walk_error(
    data: Seq<u8>,
    hdr: ExecutableHeader,
    windows: MemoryWindows,
    n: int,
) -> Option<LoadError>
    decreases n,
{
    if n <= 0 {
        None
    } else {
        match table_walk_error(data, hdr, windows, n - 1) {
            Some(e) => Some(e),
            None => {
                if slot_off(hdr, n - 1) < walk_pos(hdr, n - 1) {
                    Some(LoadError::BackwardsSeek)
                } else if slot_off(hdr, n - 1) + PROGRAM_HEADER_LEN > data.len() {
                    Some(LoadError::UnexpectedEof)
                } else {
                    step_error(
                        table_walk_state(data, hdr, windows, n - 1),
                        slot_record(data, hdr, n - 1),
                    )
                }
            },
        }
    }
}

/// The first walk failure is the failure of every longer walk.
proof fn lemma_walk_error_persists(
    data: Seq<u8>,
    hdr: ExecutableHeader,
    windows: MemoryWindows,
    n: int,
    m: int,
)
    requires
        0 <= n <= m,
        table_walk_error(data, hdr, windows, n) is Some,
    ensures
        table_walk_error(data, hdr, windows, m) == table_walk_error(data, hdr, windows, n),
    decreases m,
{
    if m > n {
        lemma_walk_error_persists(data, hdr, windows, n, m - 1);
    }
}

/// Runs one whole load attempt over a stream positioned at the start of an
/// executable: validate the fixed header, walk the program-header table
/// planning commands and erasures, then execute the plan against the
/// payload that follows the table.
///
/// The result is the table walk's: its first failure, or, when no record
/// erred, `NoLoads` for an empty plan, `UnexpectedEof` for a stream too
/// short for the payload, and otherwise the planned commands, the erase
/// map, and write operations that mirror the commands — the stream
/// consumed exactly once, in order, ending at the table end plus the sum
/// of the command counts.
#[verifier::loop_isolation(false)]
pub fn load_image(cursor: &mut StreamCursor, windows: MemoryWindows) -> (res: Result<
    LoadOutcome,
    LoadError,
>)
    requires
        old(cursor).wf(),
        old(cursor).pos == 0,
        windows.wf(),
    ensures
        final(cursor).wf(),
        final(cursor).data@ == old(cursor).data@,
        old(cursor).data@.len() < EXEC_HEADER_LEN ==> res == Err::<LoadOutcome, LoadError>(
            LoadError::UnexpectedEof,
        ),
        old(cursor).data@.len() >= EXEC_HEADER_LEN && !header_valid(header_bytes(old(cursor).data@))
            ==> res == Err::<LoadOutcome, LoadError>(LoadError::BadElfHeader),
        old(cursor).data@.len() >= EXEC_HEADER_LEN && header_valid(header_bytes(old(cursor).data@))
            ==> {
            let data = old(cursor).data@;
            let hdr = header_of(header_bytes(data));
            let n = hdr.ph_count as int;
            match table_walk_error(data, hdr, windows, n) {
                Some(e) => res == Err::<LoadOutcome, LoadError>(e),
                None => {
                    let s = table_walk_state(data, hdr, windows, n);
                    let te = table_end_spec(header_bytes(data));
                    if s.cmds.len() == 0 {
                        res == Err::<LoadOutcome, LoadError>(LoadError::NoLoads)
                    } else if te + total_count(s.cmds) > data.len() {
                        res == Err::<LoadOutcome, LoadError>(LoadError::UnexpectedEof)
                    } else {
                        &&& res matches Ok(out)
                        &&& out.entry == hdr.entry
                        &&& out.commands@ == s.cmds
                        &&& out.erased@ == s.erased
                        &&& ops_model(out.writes@) == expected_ops(s.cmds, data, te)
                        &&& final(cursor).pos == te + total_count(s.cmds)
                    }
                },
            }
        },
        res matches Ok(out) ==> flash_pairwise_disjoint(out.commands@),
{
    let ghost data = old(cursor).data@;
    let hdr_bytes = match cursor.read_exact(EXEC_HEADER_LEN) {
        Ok(v) => v,
        Err(e) => {
            return Err(e);
        },
    };
    let hdr = match parse_header(hdr_bytes.as_slice()) {
        Ok(h) => h,
        Err(e) => {
            return Err(e);
        },
    };
    let ghost hdrs = header_of(header_bytes(data));
    proof {
        assert(hdr_bytes@ =~= header_bytes(data));
        assert(hdr == hdrs);
    }
    let mut planner = LoadPlanner::new(&hdr, windows);
    let mut i: u16 = 0;
    while i < hdr.ph_count
        invariant
            cursor.wf(),
            cursor.data@ == data,
            planner.wf(),
            planner.entry == hdr.entry,
            i <= hdr.ph_count,
            planner.model() == table_walk_state(data, hdrs, windows, i as int),
            table_walk_error(data, hdrs, windows, i as int) is None,
            cursor.pos == walk_pos(hdrs, i as int),
        decreases hdr.ph_count - i,
    {
        let es = hdr.ph_entry_size as u64;
        let iv = i as u64;
        assert(es * iv < 0x1_0000_0000) by (nonlinear_arith)
            requires
                es < 0x10000,
                iv < 0x10000,
        ;
        let target = hdr.ph_off as u64 + es * iv;
        proof {
            assert(target == slot_off(hdrs, i as int));
        }
        match cursor.seek_absolute(target) {
            Ok(()) => {},
            Err(e) => {
                proof {
                    assert(table_walk_error(data, hdrs, windows, i as int + 1) == Some(e));
                    lemma_walk_error_persists(
                        data,
                        hdrs,
                        windows,
                        i as int + 1,
                        hdrs.ph_count as int,
                    );
                }
                return Err(e);
            },
        }
        let slot = match cursor.read_exact(PROGRAM_HEADER_LEN) {
            Ok(v) => v,
            Err(e) => {
                proof {
                    assert(table_walk_error(data, hdrs, windows, i as int + 1) == Some(e));
                    lemma_walk_error_persists(
                        data,
                        hdrs,
                        windows,
                        i as int + 1,
                        hdrs.ph_count as int,
                    );
                }
                return Err(e);
            },
        };
        let rec = parse_program_header(slot.as_slice());
        proof {
            assert(slot@ =~= data.subrange(
                slot_off(hdrs, i as int),
                slot_off(hdrs, i as int) + PROGRAM_HEADER_LEN,
            ));
            assert(rec == slot_record(data, hdrs, i as int));
        }
        match planner.process_record(&rec) {
            Ok(()) => {},
            Err(e) => {
                proof {
                    assert(table_walk_error(data, hdrs, windows, i as int + 1) == Some(e));
                    lemma_walk_error_persists(
                        data,
                        hdrs,
                        windows,
                        i as int + 1,
                        hdrs.ph_count as int,
                    );
                }
                return Err(e);
            },
        }
        proof {
            assert(table_walk_error(data, hdrs, windows, i as int + 1) is None);
            assert(planner.model() == table_walk_state(data, hdrs, windows, i as int + 1));
            assert(cursor.pos == walk_pos(hdrs, i as int + 1));
        }
        i = i + 1;
    }
    let ghost walk = table_walk_state(data, hdrs, windows, hdrs.ph_count as int);
    let plan = match planner.finish() {
        Ok(p) => p,
        Err(e) => {
            return Err(e);
        },
    };
    // The payload begins right after the program-header table.
    let es = hdr.ph_entry_size as u64;
    let cnt = hdr.ph_count as u64;
    assert(es * cnt < 0x1_0000_0000) by (nonlinear_arith)
        requires
            es < 0x10000,
            cnt < 0x10000,
    ;
    let table_end = hdr.ph_off as u64 + es * cnt;
    proof {
        assert(table_end == table_end_spec(header_bytes(data)));
        lemma_total_count_nonneg(walk.cmds);
        // A non-empty plan means at least one slot, whose record ends
        // before the table does (each entry holds at least one record).
        assert(walk.cmds.len() > 0);
        if hdrs.ph_count == 0 {
            assert(walk == initial_state(hdrs, windows));
        }
        assert(hdrs.ph_count > 0);
        assert(header_valid(header_bytes(data)));
        assert(hdrs.ph_entry_size >= PROGRAM_HEADER_LEN);
        let n = hdrs.ph_count as int;
        let es_g = hdrs.ph_entry_size as int;
        assert(es_g * (n - 1) + es_g == es_g * n) by (nonlinear_arith);
        assert(walk_pos(hdrs, n) <= table_end_spec(header_bytes(data)));
    }
    match cursor.seek_absolute(table_end) {
        Ok(()) => {},
        Err(e) => {
            return Err(e);
        },
    }
    let writes = match execute_plan(cursor, &plan) {
        Ok(w) => w,
        Err(e) => {
            return Err(e);
        },
    };
    Ok(LoadOutcome { entry: plan.entry, commands: plan.commands, erased: plan.erased, writes })
}

} // verus!
