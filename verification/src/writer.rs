//! The segment writer: executes a sealed plan against the same stream the
//! plan was read from, turning planned commands and payload bytes into
//! concrete flash and RAM write operations.
//!
//! Flash payload passes through a fixed-size scratch buffer; every chunk but
//! the last ends on a page boundary, so no physical page is touched by two
//! separate write calls. The write operations come back as plain values; the
//! flash controller that performs them stays outside the library.

use vstd::prelude::*;

use crate::errors::LoadError;
use crate::plan::{LoadCommand, LoadPlan, PAGE_SIZE};
use crate::stream::StreamCursor;

verus! {

/// Size of the scratch buffer flash payload is staged through.
pub const SCRATCH_SIZE: u64 = 0x200;

/// One write against a physical destination: the bytes and where they go.
#[derive(Clone, Debug, PartialEq, Eq)]
pub enum WriteOp {
    /// Program `bytes` into flash at `offset`.
    Flash { offset: u32, bytes: Vec<u8> },
    /// Copy `bytes` into RAM at `offset`.
    Ram { offset: u32, bytes: Vec<u8> },
}

/// The plain shape of a write operation: destination kind, address, bytes.
pub open spec fn op_model(op: WriteOp) -> (bool, int, Seq<u8>) {
    match op {
        WriteOp::Flash { offset, bytes } => (true, offset as int, bytes@),
        WriteOp::Ram { offset, bytes } => (false, offset as int, bytes@),
    }
}

/// The plain shapes of a list of write operations.
pub open spec fn ops_model(ops: Seq<WriteOp>) -> Seq<(bool, int, Seq<u8>)> {
    ops.map_values(|op: WriteOp| op_model(op))
}

/// Length of the next flash chunk when `count` bytes remain to be written
/// at `offset`: at most the scratch buffer, and cut back to the next page
/// boundary unless the remainder already fits the buffer.
pub open spec fn chunk_len(offset: int, count: int) -> int {
    let c = if count <= SCRATCH_SIZE as int {
        count
    } else {
        SCRATCH_SIZE as int
    };
    if c == SCRATCH_SIZE as int && offset % (PAGE_SIZE as int) != 0 {
        SCRATCH_SIZE as int - offset % (PAGE_SIZE as int)
    } else {
        c
    }
}

/// The chunked write operations of one flash command whose payload starts
/// at stream position `pos`.
pub open spec fn flash_ops(offset: int, count: int, data: Seq<u8>, pos: int) -> Seq<
    (bool, int, Seq<u8>),
>
    decreases count,
{
    if count <= 0 {
        Seq::empty()
    } else {
        let cl = chunk_len(offset, count);
        seq![(true, offset, data.subrange(pos, pos + cl))] + flash_ops(
            offset + cl,
            count - cl,
            data,
            pos + cl,
        )
    }
}

/// The write operations of one command whose payload starts at stream
/// position `pos`: none for a discard, one for a RAM copy, a page-aligned
/// chain for a flash write.
pub open spec fn ops_of(c: LoadCommand, data: Seq<u8>, pos: int) -> Seq<(bool, int, Seq<u8>)> {
    match c {
        LoadCommand::Discard { .. } => Seq::empty(),
        LoadCommand::Ram { offset, count } => seq![
            (false, offset as int, data.subrange(pos, pos + count)),
        ],
        LoadCommand::Flash { offset, count } => flash_ops(offset as int, count as int, data, pos),
    }
}

/// The write operations of a whole command sequence executed in order from
/// stream position `pos`: each command consumes exactly its count.
pub open spec fn expected_ops(cmds: Seq<LoadCommand>, data: Seq<u8>, pos: int) -> Seq<
    (bool, int, Seq<u8>),
>
    decreases cmds.len(),
{
    if cmds.len() == 0 {
        Seq::empty()
    } else {
        ops_of(cmds[0], data, pos) + expected_ops(cmds.skip(1), data, pos + cmds[0].count())
    }
}

/// Total payload bytes the command sequence consumes from the stream.
pub open spec fn total_count(cmds: Seq<LoadCommand>) -> int
    decreases cmds.len(),
{
    if cmds.len() == 0 {
        0
    } else {
        cmds[0].count() + total_count(cmds.skip(1))
    }
}

/// Every flash chunk after the first starts on a page boundary: the chunks
/// of one command are contiguous, so no physical page is ever touched by
/// two separate write calls.
pub proof fn lemma_chunks_start_page_aligned(offset: int, count: int, data: Seq<u8>, pos: int)
    ensures
        forall|i: int|
            1 <= i < flash_ops(offset, count, data, pos).len() ==> (#[trigger] flash_ops(
                offset,
                count,
                data,
                pos,
            )[i]).1 % (PAGE_SIZE as int) == 0,
    decreases count,
{
    if count > 0 {
        let cl = chunk_len(offset, count);
        lemma_chunks_start_page_aligned(offset + cl, count - cl, data, pos + cl);
        if count - cl > 0 {
            // The first chunk was either a whole scratch buffer from an
            // aligned offset, or cut back to the next page boundary.
            assert((offset + cl) % (PAGE_SIZE as int) == 0);
        }
        let ops = flash_ops(offset, count, data, pos);
        let rest = flash_ops(offset + cl, count - cl, data, pos + cl);
        assert forall|i: int| 1 <= i < ops.len() implies (#[trigger] ops[i]).1 % (
        PAGE_SIZE as int) == 0 by {
            if i == 1 {
                assert(ops[i] == rest[0]);
                assert(rest[0].1 == offset + cl);
            } else {
                assert(ops[i] == rest[i - 1]);
            }
        }
    }
}

/// The total consumption of a command sequence is never negative.
pub proof fn lemma_total_count_nonneg(cmds: Seq<LoadCommand>)
    ensures
        total_count(cmds) >= 0,
    decreases cmds.len(),
{
    if cmds.len() > 0 {
        lemma_total_count_nonneg(cmds.skip(1));
    }
}

/// Appending one command appends its operations, displaced by everything
/// consumed before it, and adds its count to the total.
pub proof fn lemma_expected_ops_snoc(cmds: Seq<LoadCommand>, c: LoadCommand, data: Seq<u8>, pos: int)
    ensures
        expected_ops(cmds.push(c), data, pos) == expected_ops(cmds, data, pos) + ops_of(
            c,
            data,
            pos + total_count(cmds),
        ),
        total_count(cmds.push(c)) == total_count(cmds) + c.count(),
    decreases cmds.len(),
{
    if cmds.len() == 0 {
        assert(cmds.push(c)[0] == c);
        let s1 = cmds.push(c).skip(1);
        assert(s1 =~= Seq::<LoadCommand>::empty());
        assert(total_count(s1) == 0);
        assert(total_count(cmds) == 0);
        assert(expected_ops(s1, data, pos + c.count()) =~= Seq::<(bool, int, Seq<u8>)>::empty());
        assert(expected_ops(cmds, data, pos) =~= Seq::<(bool, int, Seq<u8>)>::empty());
        assert(expected_ops(cmds.push(c), data, pos) =~= expected_ops(cmds, data, pos) + ops_of(
            c,
            data,
            pos + total_count(cmds),
        ));
    } else {
        lemma_expected_ops_snoc(cmds.skip(1), c, data, pos + cmds[0].count());
        assert(cmds.push(c)[0] == cmds[0]);
        assert(cmds.push(c).skip(1) =~= cmds.skip(1).push(c));
        assert(total_count(cmds.push(c)) == cmds[0].count() + total_count(cmds.skip(1).push(c)));
        assert(total_count(cmds) == cmds[0].count() + total_count(cmds.skip(1)));
        assert(expected_ops(cmds.push(c), data, pos) =~= expected_ops(cmds, data, pos) + ops_of(
            c,
            data,
            pos + total_count(cmds),
        ));
    }
}

/// The step from a prefix of `i` commands to `i + 1`.
pub proof fn lemma_expected_ops_take_step(cmds: Seq<LoadCommand>, data: Seq<u8>, pos: int, i: int)
    requires
        0 <= i < cmds.len(),
    ensures
        expected_ops(cmds.take(i + 1), data, pos) == expected_ops(cmds.take(i), data, pos) + ops_of(
            cmds[i],
            data,
            pos + total_count(cmds.take(i)),
        ),
        total_count(cmds.take(i + 1)) == total_count(cmds.take(i)) + cmds[i].count(),
{
    assert(cmds.take(i + 1) =~= cmds.take(i).push(cmds[i]));
    lemma_expected_ops_snoc(cmds.take(i), cmds[i], data, pos);
}

/// Length of the next flash chunk, on values.
fn chunk_len_exec(offset: u32, count: u32) -> (r: u32)
    requires
        count > 0,
    ensures
        r == chunk_len(offset as int, count as int),
        0 < r <= count,
{
    let c: u32 = if count <= 0x200 {
        count
    } else {
        0x200
    };
    if c == 0x200 && offset % 0x100 != 0 {
        0x200 - offset % 0x100
    } else {
        c
    }
}

/// Executes the plan against the stream the plan came from: discards skip
/// padding, RAM commands copy their payload whole, flash commands stream
/// through the scratch buffer in page-aligned chunks. On success the stream
/// has advanced by exactly the sum of the command counts, once each, in
/// order.
#[verifier::loop_isolation(false)]
pub fn execute_plan(cursor: &mut StreamCursor, plan: &LoadPlan) -> (res: Result<
    Vec<WriteOp>,
    LoadError,
>)
    requires
        old(cursor).wf(),
        plan.wf(),
    ensures
        final(cursor).wf(),
        final(cursor).data@ == old(cursor).data@,
        res is Ok <==> old(cursor).pos + total_count(plan.commands@) <= old(cursor).data@.len(),
        res matches Ok(ops) ==> {
            &&& final(cursor).pos == old(cursor).pos + total_count(plan.commands@)
            &&& ops_model(ops@) == expected_ops(
                plan.commands@,
                old(cursor).data@,
                old(cursor).pos as int,
            )
        },
        res is Err ==> res == Err::<Vec<WriteOp>, LoadError>(LoadError::UnexpectedEof),
{
    let ghost data = old(cursor).data@;
    let ghost pos0 = old(cursor).pos as int;
    let ghost all = plan.commands@;
    let mut ops: Vec<WriteOp> = Vec::new();
    let n = plan.commands.len();
    let mut i: usize = 0;
    proof {
        assert(all.take(n as int) =~= all);
        assert(all.take(0) =~= Seq::<LoadCommand>::empty());
        assert(ops_model(ops@) =~= expected_ops(all.take(0), data, pos0));
    }
    while i < n
        invariant
            cursor.wf(),
            cursor.data@ == data,
            i <= n,
            cursor.pos == pos0 + total_count(all.take(i as int)),
            ops_model(ops@) == expected_ops(all.take(i as int), data, pos0),
            pos0 + total_count(all) <= data.len() ==> cursor.pos + total_count(all.skip(i as int))
                <= data.len(),
        decreases n - i,
    {
        proof {
            lemma_expected_ops_take_step(all, data, pos0, i as int);
            lemma_total_skip_step(all, i as int);
            lemma_total_count_nonneg(all.skip(i as int + 1));
        }
        let cmd = plan.commands[i];
        match cmd {
            LoadCommand::Discard { count } => {
                match cursor.seek_relative(count as i64) {
                    Ok(()) => {},
                    Err(_) => {
                        return Err(LoadError::UnexpectedEof);
                    },
                }
                proof {
                    assert(ops_model(ops@) =~= expected_ops(all.take(i as int + 1), data, pos0));
                }
            },
            LoadCommand::Ram { offset, count } => {
                match cursor.read_exact(count as usize) {
                    Ok(bytes) => {
                        ops.push(WriteOp::Ram { offset, bytes });
                        proof {
                            assert(ops_model(ops@) =~= expected_ops(
                                all.take(i as int + 1),
                                data,
                                pos0,
                            ));
                        }
                    },
                    Err(_) => {
                        return Err(LoadError::UnexpectedEof);
                    },
                }
            },
            LoadCommand::Flash { offset, count } => {
                let ghost cmd_pos = cursor.pos as int;
                let mut off: u32 = offset;
                let mut remaining: u32 = count;
                while remaining > 0
                    invariant
                        cursor.wf(),
                        cursor.data@ == data,
                        off == offset + count - remaining,
                        remaining <= count,
                        cursor.pos == cmd_pos + count - remaining,
                        ops_model(ops@) + flash_ops(
                            off as int,
                            remaining as int,
                            data,
                            cursor.pos as int,
                        ) == expected_ops(all.take(i as int), data, pos0) + flash_ops(
                            offset as int,
                            count as int,
                            data,
                            cmd_pos,
                        ),
                        pos0 + total_count(all) <= data.len() ==> cursor.pos + remaining
                            + total_count(all.skip(i as int + 1)) <= data.len(),
                    decreases remaining,
                {
                    let cl = chunk_len_exec(off, remaining);
                    let ghost opsm_before = ops_model(ops@);
                    let ghost read_pos = cursor.pos as int;
                    match cursor.read_exact(cl as usize) {
                        Ok(bytes) => {
                            ops.push(WriteOp::Flash { offset: off, bytes });
                            proof {
                                assert(ops_model(ops@) =~= opsm_before.push(
                                    (true, off as int, data.subrange(read_pos, read_pos + cl)),
                                ));
                            }
                            off = off + cl;
                            remaining = remaining - cl;
                        },
                        Err(_) => {
                            return Err(LoadError::UnexpectedEof);
                        },
                    }
                }
                proof {
                    assert(flash_ops(off as int, 0, data, cursor.pos as int) =~= Seq::<
                        (bool, int, Seq<u8>),
                    >::empty());
                    assert(ops_model(ops@) =~= expected_ops(all.take(i as int + 1), data, pos0));
                }
            },
        }
        i = i + 1;
    }
    proof {
        lemma_total_count_nonneg(all);
    }
    Ok(ops)
}

/// Splitting the total at `i`: the remainder starts with command `i`.
proof fn lemma_total_skip_step(cmds: Seq<LoadCommand>, i: int)
    requires
        0 <= i < cmds.len(),
    ensures
        total_count(cmds.skip(i)) == cmds[i].count() + total_count(cmds.skip(i + 1)),
{
    assert(cmds.skip(i)[0] == cmds[i]);
    assert(cmds.skip(i).skip(1) =~= cmds.skip(i + 1));
}

} // verus!
