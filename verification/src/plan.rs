//! The load planner: turns the program-header records of a streamed
//! executable into an ordered sequence of flash-write, RAM-write and
//! discard commands, erasing flash blocks lazily and rejecting invalid or
//! overlapping layouts before any payload byte arrives.

use vstd::prelude::*;

use vstd::arithmetic::div_mod::{lemma_div_is_ordered, lemma_fundamental_div_mod};

use crate::elf::{ExecutableHeader, ProgramHeaderRecord, PT_LOAD};
use crate::errors::LoadError;
use crate::queue::{
    queue_contents, queue_get, queue_last, queue_len, queue_new, queue_pop, queue_push,
    MAX_LOAD_COMMANDS,
};

verus! {

/// Size of the addressable flash region covered by the erase tracker.
pub const FLASH_SIZE: u64 = 0x200000;

/// Unit of flash programming; planned writes are aligned to it.
pub const PAGE_SIZE: u64 = 0x100;

/// Minimum unit a single flash erase clears.
pub const ERASE_SIZE: u64 = 0x1000;

/// Number of erase blocks the tracker covers: `FLASH_SIZE / ERASE_SIZE`.
pub const ERASE_BLOCKS: usize = 0x200;

/// One planned action derived from the executable's segment table.
/// Insertion order is file order; commands are immutable once queued.
#[derive(Clone, Copy, Debug, PartialEq, Eq, Structural)]
pub enum LoadCommand {
    /// Stream `count` payload bytes into flash at `offset`.
    Flash { offset: u32, count: u32 },
    /// Stream `count` payload bytes into RAM at `offset`.
    Ram { offset: u32, count: u32 },
    /// Skip `count` padding bytes of the stream.
    Discard { count: u32 },
}

impl LoadCommand {
    /// Payload bytes the command consumes from the stream.
    pub open spec fn count(self) -> int {
        match self {
            LoadCommand::Flash { count, .. } => count as int,
            LoadCommand::Ram { count, .. } => count as int,
            LoadCommand::Discard { count } => count as int,
        }
    }
}

/// The device's flash and RAM address windows, fixed by the memory layout.
#[derive(Clone, Copy, Debug, PartialEq, Eq, Structural)]
pub struct MemoryWindows {
    /// First flash address.
    pub flash_start: u32,
    /// One past the last flash address.
    pub flash_end: u32,
    /// First RAM address.
    pub ram_start: u32,
    /// One past the last RAM address.
    pub ram_end: u32,
}

impl MemoryWindows {
    /// The flash window starts on an erase-block boundary and ends on a page
    /// boundary (both physical units of the part), and fits under the erase
    /// tracker.
    pub open spec fn wf(self) -> bool {
        &&& self.flash_start % (ERASE_SIZE as u32) == 0
        &&& self.flash_end % (PAGE_SIZE as u32) == 0
        &&& self.flash_start <= self.flash_end
        &&& self.flash_end - self.flash_start <= FLASH_SIZE
        &&& self.ram_start <= self.ram_end
    }
}

/// Largest page-aligned address not above `a`.
pub open spec fn page_down(a: int) -> int {
    a - (a % (PAGE_SIZE as int))
}

/// Smallest page-aligned address not below `a`.
pub open spec fn page_up(a: int) -> int {
    if a % (PAGE_SIZE as int) == 0 {
        a
    } else {
        a + ((PAGE_SIZE as int) - (a % (PAGE_SIZE as int)))
    }
}

/// Whether the page-aligned bounding ranges of two flash commands intersect.
/// The physical unit of mutation is larger than a byte, so the check is
/// deliberately conservative.
pub open spec fn flash_overlap(a: LoadCommand, b: LoadCommand) -> bool
    recommends
        a is Flash,
        b is Flash,
{
    &&& page_down(a->Flash_offset as int) < page_up(b->Flash_offset + b->Flash_count)
    &&& page_down(b->Flash_offset as int) < page_up(a->Flash_offset + a->Flash_count)
}

/// No two queued flash commands have intersecting page-aligned ranges.
pub open spec fn flash_pairwise_disjoint(cmds: Seq<LoadCommand>) -> bool {
    forall|i: int, j: int|
        0 <= i < j < cmds.len() && #[trigger] cmds[i] is Flash && #[trigger] cmds[j] is Flash
            ==> !flash_overlap(cmds[i], cmds[j])
}

/// A command's address range stays inside the 32-bit address space; this
/// follows from window containment and is what the writer's address
/// arithmetic needs.
pub open spec fn cmd_bounded(c: LoadCommand) -> bool {
    match c {
        LoadCommand::Flash { offset, count } => offset + count <= u32::MAX,
        LoadCommand::Ram { offset, count } => offset + count <= u32::MAX,
        LoadCommand::Discard { .. } => true,
    }
}

/// A queued command is non-empty and lies inside its window.
pub open spec fn cmd_wf(c: LoadCommand, w: MemoryWindows) -> bool {
    match c {
        LoadCommand::Flash { offset, count } => {
            &&& w.flash_start <= offset
            &&& offset + count <= w.flash_end
            &&& count > 0
        },
        LoadCommand::Ram { offset, count } => {
            &&& w.ram_start <= offset
            &&& offset + count <= w.ram_end
            &&& count > 0
        },
        LoadCommand::Discard { count } => count > 0,
    }
}

/// Whether erase block `k` (relative to the flash window base) is touched by
/// the page-aligned form of the byte range `[lo, hi)`.
pub open spec fn block_touched(w: MemoryWindows, lo: int, hi: int, k: int) -> bool {
    &&& w.flash_start + k * (ERASE_SIZE as int) < page_up(hi)
    &&& w.flash_start + (k + 1) * (ERASE_SIZE as int) > page_down(lo)
}

/// The planner's mathematical state: what the streaming pass has decided
/// so far, as plain values.
#[verifier::ext_equal]
pub ghost struct PlanState {
    /// The address windows the commands are validated against.
    pub windows: MemoryWindows,
    /// The queued commands, in file order.
    pub cmds: Seq<LoadCommand>,
    /// One flag per erase block of the flash window.
    pub erased: Seq<bool>,
    /// The file offset right after the last planned payload.
    pub load_pos: int,
}

impl PlanState {
    /// The planner's invariant: every queued command is non-empty and
    /// inside its window, no two flash commands share a page, and the erase
    /// tracker covers the whole flash region.
    pub open spec fn wf(self) -> bool {
        &&& self.windows.wf()
        &&& self.erased.len() == ERASE_BLOCKS
        &&& self.cmds.len() <= MAX_LOAD_COMMANDS
        &&& forall|i: int|
            0 <= i < self.cmds.len() ==> cmd_wf(#[trigger] self.cmds[i], self.windows)
        &&& flash_pairwise_disjoint(self.cmds)
    }
}

/// The state a fresh planner starts one load attempt from: no commands, no
/// erased blocks, and the expected stream position right after the
/// program-header table.
pub open spec fn initial_state(hdr: ExecutableHeader, windows: MemoryWindows) -> PlanState {
    PlanState {
        windows,
        cmds: Seq::empty(),
        erased: Seq::new(ERASE_BLOCKS as nat, |k: int| false),
        load_pos: hdr.ph_off + hdr.ph_entry_size * hdr.ph_count,
    }
}

/// The planner's streaming state: the commands queued so far, the erase
/// tracker, and the expected file offset of the next segment's payload.
pub struct LoadPlanner {
    /// The address windows the commands are validated against.
    pub windows: MemoryWindows,
    /// The fixed-capacity command queue, in file order.
    pub commands: heapless::Vec<LoadCommand, 25>,
    /// One flag per erase block of the flash window; set when the block is
    /// first touched by a committed flash command, so it is erased at most
    /// once per load session.
    pub erased: Vec<bool>,
    /// The file offset right after the last planned payload.
    pub load_pos: u64,
    /// The validated entry point, kept for the finished plan.
    pub entry: u32,
}

// What one program-header record does to the planner, written out as the
// algorithm's case analysis: skip, ordering check, gap discard, window
// classification, merge, overlap check, queue capacity.
/// A record that does not participate in planning: not loadable, or with no
/// payload in the file.
pub open spec fn record_skipped(r: ProgramHeaderRecord) -> bool {
    r.p_type != PT_LOAD || r.p_filesz == 0
}

/// First address of the segment in memory.
pub open spec fn seg_start(r: ProgramHeaderRecord) -> int {
    r.p_vaddr as int
}

/// One past the last address of the segment in memory.
pub open spec fn seg_end(r: ProgramHeaderRecord) -> int {
    r.p_vaddr + r.p_memsz
}

/// The segment lies entirely inside the flash window.
pub open spec fn in_flash(w: MemoryWindows, r: ProgramHeaderRecord) -> bool {
    seg_start(r) >= w.flash_start && seg_end(r) <= w.flash_end
}

/// The segment lies entirely inside the RAM window.
pub open spec fn in_ram(w: MemoryWindows, r: ProgramHeaderRecord) -> bool {
    seg_start(r) >= w.ram_start && seg_end(r) <= w.ram_end
}

/// Bytes between the expected stream position and the record's payload.
pub open spec fn gap_of(o: PlanState, r: ProgramHeaderRecord) -> int {
    r.p_offset - o.load_pos
}

/// The queue after the gap, if any, has become a discard command.
pub open spec fn with_gap(o: PlanState, r: ProgramHeaderRecord) -> Seq<LoadCommand> {
    if gap_of(o, r) > 0 {
        o.cmds.push(LoadCommand::Discard { count: gap_of(o, r) as u32 })
    } else {
        o.cmds
    }
}

/// Whether the record's flash range continues the previously queued flash
/// command byte-exactly, in which case the two merge into one.
pub open spec fn merges(o: PlanState, r: ProgramHeaderRecord) -> bool {
    &&& gap_of(o, r) == 0
    &&& o.cmds.len() > 0
    &&& o.cmds.last() is Flash
    &&& o.cmds.last()->Flash_offset + o.cmds.last()->Flash_count == seg_start(r)
}

/// The flash command to queue: the record's range, or the merged range when
/// it extends the previous command.
pub open spec fn candidate(o: PlanState, r: ProgramHeaderRecord) -> LoadCommand {
    if merges(o, r) {
        LoadCommand::Flash {
            offset: o.cmds.last()->Flash_offset,
            count: (seg_end(r) - o.cmds.last()->Flash_offset) as u32,
        }
    } else {
        LoadCommand::Flash { offset: r.p_vaddr, count: (seg_end(r) - seg_start(r)) as u32 }
    }
}

/// The queue the candidate is checked against and appended to: merging
/// replaces the last command, so it is excluded.
pub open spec fn base_cmds(o: PlanState, r: ProgramHeaderRecord) -> Seq<LoadCommand> {
    if merges(o, r) {
        o.cmds.drop_last()
    } else {
        with_gap(o, r)
    }
}

/// Whether the (merged) candidate's page-aligned range intersects any queued
/// flash command it does not replace.
pub open spec fn overlap_found(o: PlanState, r: ProgramHeaderRecord) -> bool {
    exists|i: int|
        0 <= i < base_cmds(o, r).len() && #[trigger] base_cmds(o, r)[i] is Flash && flash_overlap(
            base_cmds(o, r)[i],
            candidate(o, r),
        )
}

/// The error, if any, that the record provokes. The order of the cases is
/// the order in which the streaming pass meets them.
pub open spec fn step_error(o: PlanState, r: ProgramHeaderRecord) -> Option<LoadError> {
    if record_skipped(r) {
        None
    } else if r.p_offset < o.load_pos {
        Some(LoadError::LoadsOutOfOrder)
    } else if gap_of(o, r) > 0 && o.cmds.len() >= MAX_LOAD_COMMANDS {
        Some(LoadError::TooManyLoads)
    } else if r.p_memsz == 0 {
        None
    } else if in_flash(o.windows, r) {
        if overlap_found(o, r) {
            Some(LoadError::OverlappingFlashWrite)
        } else if !merges(o, r) && with_gap(o, r).len() >= MAX_LOAD_COMMANDS {
            Some(LoadError::TooManyLoads)
        } else {
            None
        }
    } else if in_ram(o.windows, r) {
        if with_gap(o, r).len() >= MAX_LOAD_COMMANDS {
            Some(LoadError::TooManyLoads)
        } else {
            None
        }
    } else {
        Some(LoadError::BadLoad)
    }
}

/// The record's outcome as the planner returns it.
pub open spec fn step_result(o: PlanState, r: ProgramHeaderRecord) -> Result<(), LoadError> {
    match step_error(o, r) {
        Some(e) => Err(e),
        None => Ok(()),
    }
}

/// The queue after a successful step.
pub open spec fn step_cmds(o: PlanState, r: ProgramHeaderRecord) -> Seq<LoadCommand> {
    if record_skipped(r) {
        o.cmds
    } else if r.p_memsz == 0 {
        with_gap(o, r)
    } else if in_flash(o.windows, r) {
        base_cmds(o, r).push(candidate(o, r))
    } else {
        with_gap(o, r).push(
            LoadCommand::Ram { offset: r.p_vaddr, count: (seg_end(r) - seg_start(r)) as u32 },
        )
    }
}

/// The expected stream position after a successful step.
pub open spec fn step_load_pos(o: PlanState, r: ProgramHeaderRecord) -> int {
    if record_skipped(r) {
        o.load_pos
    } else if r.p_memsz == 0 {
        r.p_offset as int
    } else {
        r.p_offset + r.p_filesz
    }
}

/// Erase-tracker flag `k` after a successful step: set anew exactly for the
/// blocks the record's page-aligned flash range touches.
pub open spec fn step_erased(o: PlanState, r: ProgramHeaderRecord, k: int) -> bool {
    if !record_skipped(r) && r.p_memsz != 0 && in_flash(o.windows, r) {
        o.erased[k] || block_touched(o.windows, seg_start(r), seg_end(r), k)
    } else {
        o.erased[k]
    }
}

/// The whole state after a successful step.
pub open spec fn step_state(o: PlanState, r: ProgramHeaderRecord) -> PlanState {
    PlanState {
        windows: o.windows,
        cmds: step_cmds(o, r),
        erased: Seq::new(o.erased.len(), |k: int| step_erased(o, r, k)),
        load_pos: step_load_pos(o, r),
    }
}

impl LoadPlanner {
    /// The queued commands, in file order.
    pub open spec fn cmds(self) -> Seq<LoadCommand> {
        queue_contents(self.commands)
    }

    /// The planner's state as plain values.
    pub open spec fn model(self) -> PlanState {
        PlanState {
            windows: self.windows,
            cmds: queue_contents(self.commands),
            erased: self.erased@,
            load_pos: self.load_pos as int,
        }
    }

    /// The planner upholds its mathematical state's invariant.
    pub open spec fn wf(self) -> bool {
        self.model().wf()
    }

    /// A planner for one load attempt: no commands, no erased blocks, and
    /// the expected stream position right after the program-header table.
    pub fn new(hdr: &ExecutableHeader, windows: MemoryWindows) -> (r: LoadPlanner)
        requires
            windows.wf(),
        ensures
            r.wf(),
            r.windows == windows,
            r.entry == hdr.entry,
            r.cmds() == Seq::<LoadCommand>::empty(),
            r.load_pos == hdr.ph_off + hdr.ph_entry_size * hdr.ph_count,
            forall|k: int| 0 <= k < ERASE_BLOCKS ==> !(#[trigger] r.erased@[k]),
            r.model() == initial_state(*hdr, windows),
    {
        let entry_size = hdr.ph_entry_size as u64;
        let count = hdr.ph_count as u64;
        assert(entry_size * count < 0x1_0000_0000) by (nonlinear_arith)
            requires
                entry_size < 0x10000,
                count < 0x10000,
        ;
        let load_pos = hdr.ph_off as u64 + entry_size * count;
        let mut erased: Vec<bool> = Vec::new();
        let mut k: usize = 0;
        while k < ERASE_BLOCKS
            invariant
                k <= ERASE_BLOCKS,
                erased@.len() == k,
                forall|j: int| 0 <= j < k ==> !(#[trigger] erased@[j]),
            decreases ERASE_BLOCKS - k,
        {
            erased.push(false);
            k = k + 1;
        }
        let planner = LoadPlanner { windows, commands: queue_new(), erased, load_pos, entry: hdr.entry };
        proof {
            assert(planner.model() =~= initial_state(*hdr, windows));
        }
        planner
    }

    /// Feeds one program-header record to the planner. On success the
    /// queue, the erase tracker and the expected stream position advance as
    /// `step_cmds`, `step_erased` and `step_load_pos` say; on error the
    /// planner is unchanged and the load attempt is aborted.
    #[verifier::loop_isolation(false)]
    pub fn process_record(&mut self, r: &ProgramHeaderRecord) -> (res: Result<(), LoadError>)
        requires
            old(self).wf(),
        ensures
            final(self).wf(),
            final(self).windows == old(self).windows,
            final(self).entry == old(self).entry,
            res == step_result(old(self).model(), *r),
            res is Err ==> *final(self) == *old(self),
            res is Ok ==> final(self).model() == step_state(old(self).model(), *r),
    {
        if r.p_type != PT_LOAD || r.p_filesz == 0 {
            return Ok(());
        }
        if (r.p_offset as u64) < self.load_pos {
            return Err(LoadError::LoadsOutOfOrder);
        }
        let gap: u64 = r.p_offset as u64 - self.load_pos;
        let qlen = queue_len(&self.commands);
        if gap > 0 && qlen == MAX_LOAD_COMMANDS {
            return Err(LoadError::TooManyLoads);
        }
        if r.p_memsz == 0 {
            if gap > 0 {
                let _ = queue_push(&mut self.commands, LoadCommand::Discard { count: gap as u32 });
            }
            self.load_pos = r.p_offset as u64;
            proof {
                let o = old(self).model();
                if gap_of(o, *r) > 0 {
                    lemma_append_nonflash(
                        o.cmds,
                        LoadCommand::Discard { count: gap_of(o, *r) as u32 },
                        o.windows,
                    );
                }
                assert(self.model() =~= step_state(o, *r));
            }
            return Ok(());
        }
        let start: u64 = r.p_vaddr as u64;
        let end: u64 = r.p_vaddr as u64 + r.p_memsz as u64;
        let w = self.windows;
        if start >= w.flash_start as u64 && end <= w.flash_end as u64 {
            // Merge with the previously queued flash command when the new
            // range continues it byte-exactly.
            let mut merged = false;
            let mut cand_off: u32 = r.p_vaddr;
            let mut cand_count: u32 = (end - start) as u32;
            if gap == 0 {
                if let Some(LoadCommand::Flash { offset, count }) = queue_last(&self.commands) {
                    if offset as u64 + count as u64 == start {
                        proof {
                            assert(cmd_wf(old(self).model().cmds.last(), w));
                        }
                        merged = true;
                        cand_off = offset;
                        cand_count = (end - offset as u64) as u32;
                    }
                }
            }
            proof {
                assert(merged == merges(old(self).model(), *r));
                assert(LoadCommand::Flash { offset: cand_off, count: cand_count } == candidate(
                    old(self).model(),
                    *r,
                ));
            }
            // Check the candidate against every queued command it does not
            // replace; any page-aligned intersection aborts the load.
            let check_len = if merged {
                qlen - 1
            } else {
                qlen
            };
            let mut i: usize = 0;
            while i < check_len
                invariant
                    check_len <= old(self).cmds().len(),
                    i <= check_len,
                    *self == *old(self),
                    forall|j: int|
                        0 <= j < i ==> !(#[trigger] old(self).cmds()[j] is Flash && flash_overlap(
                            old(self).cmds()[j],
                            candidate(old(self).model(), *r),
                        )),
                    (LoadCommand::Flash { offset: cand_off, count: cand_count }) == candidate(
                        old(self).model(),
                        *r,
                    ),
                decreases check_len - i,
            {
                if let Some(LoadCommand::Flash { offset, count }) = queue_get(&self.commands, i) {
                    if overlaps(offset, count, cand_off, cand_count) {
                        proof {
                            lemma_overlap_witness(old(self).model(), *r, i as int, merged);
                        }
                        return Err(LoadError::OverlappingFlashWrite);
                    }
                }
                i = i + 1;
            }
            proof {
                lemma_no_overlap(old(self).model(), *r, merged);
            }
            let qlen1 = if gap > 0 {
                qlen + 1
            } else {
                qlen
            };
            if !merged && qlen1 == MAX_LOAD_COMMANDS {
                return Err(LoadError::TooManyLoads);
            }
            if gap > 0 {
                let _ = queue_push(&mut self.commands, LoadCommand::Discard { count: gap as u32 });
            }
            if merged {
                let _ = queue_pop(&mut self.commands);
            }
            mark_blocks(&mut self.erased, w, start, end);
            let _ = queue_push(
                &mut self.commands,
                LoadCommand::Flash { offset: cand_off, count: cand_count },
            );
            self.load_pos = r.p_offset as u64 + r.p_filesz as u64;
            proof {
                let o = old(self).model();
                let cand = candidate(o, *r);
                if gap_of(o, *r) > 0 {
                    lemma_append_nonflash(
                        o.cmds,
                        LoadCommand::Discard { count: gap_of(o, *r) as u32 },
                        o.windows,
                    );
                }
                if merges(o, *r) {
                    lemma_drop_last(o.cmds, o.windows);
                    assert(cmd_wf(o.cmds[o.cmds.len() - 1], o.windows));
                }
                assert(cmd_wf(cand, o.windows));
                assert forall|i: int|
                    0 <= i < base_cmds(o, *r).len() implies !(#[trigger] base_cmds(o, *r)[i]
                    is Flash && flash_overlap(base_cmds(o, *r)[i], cand)) by {
                    if base_cmds(o, *r)[i] is Flash && flash_overlap(base_cmds(o, *r)[i], cand) {
                        assert(overlap_found(o, *r));
                    }
                }
                lemma_append_flash(base_cmds(o, *r), cand, o.windows);
                assert(self.model() =~= step_state(o, *r));
            }
            Ok(())
        } else if start >= w.ram_start as u64 && end <= w.ram_end as u64 {
            let qlen1 = if gap > 0 {
                qlen + 1
            } else {
                qlen
            };
            if qlen1 == MAX_LOAD_COMMANDS {
                return Err(LoadError::TooManyLoads);
            }
            if gap > 0 {
                let _ = queue_push(&mut self.commands, LoadCommand::Discard { count: gap as u32 });
            }
            let _ = queue_push(
                &mut self.commands,
                LoadCommand::Ram { offset: r.p_vaddr, count: (end - start) as u32 },
            );
            self.load_pos = r.p_offset as u64 + r.p_filesz as u64;
            proof {
                let o = old(self).model();
                if gap_of(o, *r) > 0 {
                    lemma_append_nonflash(
                        o.cmds,
                        LoadCommand::Discard { count: gap_of(o, *r) as u32 },
                        o.windows,
                    );
                }
                lemma_append_nonflash(
                    with_gap(o, *r),
                    LoadCommand::Ram {
                        offset: r.p_vaddr,
                        count: (seg_end(*r) - seg_start(*r)) as u32,
                    },
                    o.windows,
                );
                assert(self.model() =~= step_state(o, *r));
            }
            Ok(())
        } else {
            Err(LoadError::BadLoad)
        }
    }

    /// Seals the plan. An executable that queued no command at all is
    /// rejected.
    pub fn finish(self) -> (res: Result<LoadPlan, LoadError>)
        requires
            self.wf(),
        ensures
            self.cmds().len() == 0 ==> res == Err::<LoadPlan, LoadError>(LoadError::NoLoads),
            self.cmds().len() > 0 ==> {
                &&& res matches Ok(p)
                &&& p.commands@ == self.cmds()
                &&& p.entry == self.entry
                &&& p.erased@ == self.erased@
                &&& p.wf()
            },
    {
        let n = queue_len(&self.commands);
        if n == 0 {
            return Err(LoadError::NoLoads);
        }
        let mut cmds: Vec<LoadCommand> = Vec::new();
        let mut i: usize = 0;
        while i < n
            invariant
                i <= n,
                n == self.cmds().len(),
                cmds@ == self.cmds().take(i as int),
            decreases n - i,
        {
            if let Some(c) = queue_get(&self.commands, i) {
                cmds.push(c);
                assert(cmds@ =~= self.cmds().take(i + 1));
            } else {
                proof {
                    assert(false);
                }
            }
            i = i + 1;
        }
        assert(cmds@ =~= self.cmds());
        proof {
            assert forall|j: int| 0 <= j < cmds@.len() implies cmd_bounded(#[trigger] cmds@[j]) by {
                assert(cmd_wf(self.cmds()[j], self.windows));
            }
        }
        Ok(LoadPlan { entry: self.entry, commands: cmds, erased: self.erased })
    }
}

/// A sealed plan: the validated entry point, the commands in file order,
/// and the blocks the loader must erase before writing.
#[derive(Debug)]
pub struct LoadPlan {
    /// Address execution jumps to once the image is loaded.
    pub entry: u32,
    /// The planned commands, in file order.
    pub commands: Vec<LoadCommand>,
    /// One flag per erase block touched by a planned flash write.
    pub erased: Vec<bool>,
}

impl LoadPlan {
    /// What `LoadPlanner::finish` guarantees of every plan it seals.
    pub open spec fn wf(self) -> bool {
        &&& flash_pairwise_disjoint(self.commands@)
        &&& self.commands@.len() > 0
        &&& self.commands@.len() <= MAX_LOAD_COMMANDS
        &&& forall|i: int| 0 <= i < self.commands@.len() ==> cmd_bounded(#[trigger] self.commands@[i])
    }
}

/// Smallest page-aligned value not below `a`.
fn page_up_exec(a: u64) -> (r: u64)
    requires
        a <= 0x8_0000_0000,
    ensures
        r == page_up(a as int),
{
    if a % 0x100 == 0 {
        a
    } else {
        a + (0x100 - a % 0x100)
    }
}

/// Whether the page-aligned ranges of two flash commands intersect.
fn overlaps(a_off: u32, a_count: u32, b_off: u32, b_count: u32) -> (r: bool)
    ensures
        r == flash_overlap(
            LoadCommand::Flash { offset: a_off, count: a_count },
            LoadCommand::Flash { offset: b_off, count: b_count },
        ),
{
    let a1 = a_off as u64 - (a_off as u64) % 0x100;
    let a2 = page_up_exec(a_off as u64 + a_count as u64);
    let b1 = b_off as u64 - (b_off as u64) % 0x100;
    let b2 = page_up_exec(b_off as u64 + b_count as u64);
    a1 < b2 && b1 < a2
}

/// Marks every erase block that the page-aligned form of `[lo, hi)`
/// touches; already-marked blocks stay marked, so each block is erased at
/// most once per load session.
#[verifier::loop_isolation(false)]
fn mark_blocks(erased: &mut Vec<bool>, w: MemoryWindows, lo: u64, hi: u64)
    requires
        old(erased)@.len() == ERASE_BLOCKS,
        lo <= hi,
        hi <= 0xffff_ffff,
    ensures
        final(erased)@.len() == ERASE_BLOCKS,
        forall|k: int|
            0 <= k < ERASE_BLOCKS ==> final(erased)@[k] == (old(erased)@[k] || block_touched(
                w,
                lo as int,
                hi as int,
                k,
            )),
{
    let ghost e0 = erased@;
    let fs = w.flash_start as u64;
    let pa_lo = lo - lo % PAGE_SIZE;
    let pa_hi = page_up_exec(hi);
    let mut k: usize = 0;
    while k < ERASE_BLOCKS
        invariant
            erased@.len() == ERASE_BLOCKS,
            e0.len() == ERASE_BLOCKS,
            k <= ERASE_BLOCKS,
            fs == w.flash_start,
            pa_lo == page_down(lo as int),
            pa_hi == page_up(hi as int),
            forall|j: int|
                0 <= j < k ==> #[trigger] erased@[j] == (e0[j] || block_touched(
                    w,
                    lo as int,
                    hi as int,
                    j,
                )),
            forall|j: int| k <= j < ERASE_BLOCKS ==> #[trigger] erased@[j] == e0[j],
        decreases ERASE_BLOCKS - k,
    {
        let blk_lo = fs + (k as u64) * ERASE_SIZE;
        let blk_hi = blk_lo + ERASE_SIZE;
        if blk_lo < pa_hi && blk_hi > pa_lo {
            erased[k] = true;
        }
        assert(erased@[k as int] == (e0[k as int] || block_touched(
            w,
            lo as int,
            hi as int,
            k as int,
        )));
        k = k + 1;
    }
    assert(e0 =~= old(erased)@);
}

/// Rounding down to a page boundary is monotone.
proof fn lemma_page_down_monotone(a: int, b: int)
    requires
        a <= b,
    ensures
        page_down(a) <= page_down(b),
{
    let p = PAGE_SIZE as int;
    lemma_fundamental_div_mod(a, p);
    lemma_fundamental_div_mod(b, p);
    lemma_div_is_ordered(a, b, p);
    assert(page_down(a) == p * (a / p));
    assert(page_down(b) == p * (b / p));
    assert(p * (a / p) <= p * (b / p)) by (nonlinear_arith)
        requires
            a / p <= b / p,
            p > 0,
    ;
}

/// A value lies between its page roundings, each less than a page away.
proof fn lemma_page_bounds(a: int)
    ensures
        page_down(a) <= a < page_down(a) + PAGE_SIZE,
        a <= page_up(a) < a + PAGE_SIZE,
        page_down(a) % (PAGE_SIZE as int) == 0,
        page_up(a) % (PAGE_SIZE as int) == 0,
{
    let p = PAGE_SIZE as int;
    lemma_fundamental_div_mod(a, p);
    assert(0 <= a % p < p) by (nonlinear_arith)
        requires
            p > 0,
    ;
    assert(page_down(a) % p == 0) by (nonlinear_arith)
        requires
            page_down(a) == p * (a / p),
            p > 0,
    ;
    if a % p != 0 {
        assert(page_up(a) == page_down(a) + p);
        assert((page_down(a) + p) % p == 0) by (nonlinear_arith)
            requires
                page_down(a) % p == 0,
                p > 0,
        ;
    }
}

/// Rounding up to a page boundary is monotone.
proof fn lemma_page_up_monotone(a: int, b: int)
    requires
        a <= b,
    ensures
        page_up(a) <= page_up(b),
{
    let p = PAGE_SIZE as int;
    lemma_page_bounds(a);
    lemma_page_bounds(b);
    if page_up(b) < page_up(a) {
        // Two distinct page multiples differ by at least a page.
        assert(false) by (nonlinear_arith)
            requires
                page_up(a) % p == 0,
                page_up(b) % p == 0,
                page_up(b) < page_up(a),
                page_up(a) < a + p,
                a <= b <= page_up(b),
                p > 0,
        ;
    }
}

/// Which erase blocks a flash command's page-aligned range touches.
pub open spec fn cmd_touches(w: MemoryWindows, c: LoadCommand, k: int) -> bool
    recommends
        c is Flash,
{
    block_touched(w, c->Flash_offset as int, c->Flash_offset + c->Flash_count, k)
}

/// The erase tracker is exact: a block is marked iff the page-aligned range
/// of some queued flash command touches it, so each block is erased at most
/// once per load session, lazily, on first touch.
pub open spec fn tracker_exact(w: MemoryWindows, cmds: Seq<LoadCommand>, erased: Seq<bool>) -> bool {
    forall|k: int|
        0 <= k < erased.len() ==> (#[trigger] erased[k] <==> exists|i: int|
            0 <= i < cmds.len() && #[trigger] cmds[i] is Flash && cmd_touches(w, cmds[i], k))
}

/// A narrower byte range touches no block that the wider one misses.
proof fn lemma_touched_mono(w: MemoryWindows, lo1: int, hi1: int, lo: int, hi: int, k: int)
    requires
        lo <= lo1,
        hi1 <= hi,
        block_touched(w, lo1, hi1, k),
    ensures
        block_touched(w, lo, hi, k),
{
    lemma_page_down_monotone(lo, lo1);
    lemma_page_up_monotone(hi1, hi);
}

/// A block touched by a contiguous range is touched by one of its halves.
proof fn lemma_touched_split(w: MemoryWindows, a: int, b: int, c: int, k: int)
    requires
        a <= b <= c,
        block_touched(w, a, c, k),
    ensures
        block_touched(w, a, b, k) || block_touched(w, b, c, k),
{
    lemma_page_bounds(b);
    if w.flash_start + k * (ERASE_SIZE as int) < page_up(b) {
        lemma_page_down_monotone(a, b);
    } else {
        // The block starts at or past the first half's aligned end, so its
        // end clears the second half's aligned start.
        assert(w.flash_start + (k + 1) * (ERASE_SIZE as int) > page_down(b));
    }
}

/// A fresh planner's tracker is exact: nothing queued, nothing marked.
pub proof fn lemma_tracker_exact_initial(w: MemoryWindows, erased: Seq<bool>)
    requires
        forall|k: int| 0 <= k < erased.len() ==> !(#[trigger] erased[k]),
    ensures
        tracker_exact(w, Seq::<LoadCommand>::empty(), erased),
{
}

/// One successful planning step keeps the tracker exact: the blocks marked
/// anew are exactly those of the record's range, and a merged command
/// covers the ranges of both commands it replaces.
pub proof fn lemma_tracker_exact_preserved(o: PlanState, r: ProgramHeaderRecord)
    requires
        o.wf(),
        tracker_exact(o.windows, o.cmds, o.erased),
        step_error(o, r) is None,
    ensures
        tracker_exact(o.windows, step_state(o, r).cmds, step_state(o, r).erased),
{
    let erased1 = step_state(o, r).erased;
    let w = o.windows;
    let cmds0 = o.cmds;
    let cmds1 = step_cmds(o, r);
    if record_skipped(r) || r.p_memsz == 0 || !in_flash(w, r) {
        // Only non-flash commands can join the queue; the tracker and the
        // flash members are unchanged.
        assert forall|k: int| 0 <= k < erased1.len() implies (#[trigger] erased1[k]
            <==> exists|i: int|
            0 <= i < cmds1.len() && #[trigger] cmds1[i] is Flash && cmd_touches(
                w,
                cmds1[i],
                k,
            )) by {
            if erased1[k] {
                let i = choose|i: int|
                    0 <= i < cmds0.len() && #[trigger] cmds0[i] is Flash && cmd_touches(
                        w,
                        cmds0[i],
                        k,
                    );
                assert(cmds1[i] == cmds0[i]);
            } else {
                if exists|i: int|
                    0 <= i < cmds1.len() && #[trigger] cmds1[i] is Flash && cmd_touches(
                        w,
                        cmds1[i],
                        k,
                    ) {
                    let i = choose|i: int|
                        0 <= i < cmds1.len() && #[trigger] cmds1[i] is Flash && cmd_touches(
                            w,
                            cmds1[i],
                            k,
                        );
                    assert(i < cmds0.len() && cmds1[i] == cmds0[i]);
                    assert(o.erased[k]);
                }
            }
        }
        return ;
    }
    let cand = candidate(o, r);
    let base = base_cmds(o, r);
    let lo = seg_start(r);
    let hi = seg_end(r);
    assert forall|k: int| 0 <= k < erased1.len() implies (#[trigger] erased1[k]
        <==> exists|i: int|
        0 <= i < cmds1.len() && #[trigger] cmds1[i] is Flash && cmd_touches(w, cmds1[i], k)) by {
        if erased1[k] {
            if o.erased[k] {
                let i = choose|i: int|
                    0 <= i < cmds0.len() && #[trigger] cmds0[i] is Flash && cmd_touches(
                        w,
                        cmds0[i],
                        k,
                    );
                if merges(o, r) && i == cmds0.len() - 1 {
                    // The last command merged into the candidate, whose
                    // range covers it.
                    assert(cmd_wf(cmds0[i], w));
                    lemma_touched_mono(
                        w,
                        cmds0[i]->Flash_offset as int,
                        cmds0[i]->Flash_offset + cmds0[i]->Flash_count,
                        cand->Flash_offset as int,
                        cand->Flash_offset + cand->Flash_count,
                        k,
                    );
                    assert(cmds1[cmds1.len() - 1] == cand && cmd_touches(w, cand, k));
                } else {
                    assert(cmds1[i] == cmds0[i]);
                }
            } else {
                // Marked by this step: the record's range lies inside the
                // candidate's.
                assert(block_touched(w, lo, hi, k));
                assert(cmd_wf(cand, w)) by {
                    if merges(o, r) {
                        assert(cmd_wf(cmds0[cmds0.len() - 1], w));
                    }
                }
                lemma_touched_mono(
                    w,
                    lo,
                    hi,
                    cand->Flash_offset as int,
                    cand->Flash_offset + cand->Flash_count,
                    k,
                );
                assert(cmds1[cmds1.len() - 1] == cand && cmd_touches(w, cand, k));
            }
        } else {
            if exists|i: int|
                0 <= i < cmds1.len() && #[trigger] cmds1[i] is Flash && cmd_touches(
                    w,
                    cmds1[i],
                    k,
                ) {
                let i = choose|i: int|
                    0 <= i < cmds1.len() && #[trigger] cmds1[i] is Flash && cmd_touches(
                        w,
                        cmds1[i],
                        k,
                    );
                if i < base.len() {
                    if merges(o, r) {
                        assert(cmds1[i] == cmds0[i]);
                    } else if gap_of(o, r) > 0 && i == cmds0.len() {
                        assert(cmds1[i] is Discard);
                    } else {
                        assert(cmds1[i] == cmds0[i]);
                    }
                    assert(o.erased[k]);
                } else {
                    // The candidate touches the block: split its range at
                    // the record's start.
                    assert(cmds1[i] == cand);
                    if merges(o, r) {
                        let last = cmds0[cmds0.len() - 1];
                        assert(cmd_wf(last, w));
                        lemma_touched_split(
                            w,
                            cand->Flash_offset as int,
                            lo,
                            hi,
                            k,
                        );
                        if block_touched(w, cand->Flash_offset as int, lo, k) {
                            assert(cmd_touches(w, last, k));
                            assert(o.erased[k]);
                        } else {
                            assert(block_touched(w, lo, hi, k));
                        }
                    } else {
                        assert(block_touched(w, lo, hi, k));
                    }
                    assert(erased1[k]);
                }
            }
        }
    }
}

/// Exposes the planner invariant: no two queued flash commands have
/// intersecting page-aligned ranges, whatever order they merged in.
pub proof fn lemma_flash_commands_disjoint(p: LoadPlanner)
    requires
        p.wf(),
    ensures
        flash_pairwise_disjoint(p.cmds()),
{
    assert(p.model().cmds == p.cmds());
}

/// A loadable flash record whose merged range intersects a queued flash
/// command page-wise is always rejected with the overlap error.
pub proof fn lemma_overlap_rejected(o: PlanState, r: ProgramHeaderRecord)
    requires
        !record_skipped(r),
        r.p_offset >= o.load_pos,
        !(gap_of(o, r) > 0 && o.cmds.len() >= MAX_LOAD_COMMANDS),
        r.p_memsz != 0,
        in_flash(o.windows, r),
        overlap_found(o, r),
    ensures
        step_error(o, r) == Some(LoadError::OverlappingFlashWrite),
{
}

/// A flash record that continues the previously queued flash command
/// byte-exactly is merged into it before any overlap check: the step
/// replaces the last command by one covering both ranges.
pub proof fn lemma_adjacent_flash_merges(o: PlanState, r: ProgramHeaderRecord)
    requires
        o.wf(),
        !record_skipped(r),
        r.p_memsz != 0,
        in_flash(o.windows, r),
        merges(o, r),
        step_error(o, r) is None,
    ensures
        step_cmds(o, r) == o.cmds.drop_last().push(candidate(o, r)),
        candidate(o, r)->Flash_offset == o.cmds.last()->Flash_offset,
        candidate(o, r)->Flash_offset + candidate(o, r)->Flash_count == seg_end(r),
{
    assert(cmd_wf(o.cmds[o.cmds.len() - 1], o.windows));
}

/// A program header whose file offset lies before the running stream
/// position always fails with the ordering error; segments are never
/// silently reordered.
pub proof fn lemma_out_of_order_rejected(o: PlanState, r: ProgramHeaderRecord)
    requires
        !record_skipped(r),
        r.p_offset < o.load_pos,
    ensures
        step_error(o, r) == Some(LoadError::LoadsOutOfOrder),
{
}

/// Appending a command that is not a flash write keeps every queued
/// command well-formed and the flash commands pairwise disjoint.
proof fn lemma_append_nonflash(cmds: Seq<LoadCommand>, c: LoadCommand, w: MemoryWindows)
    requires
        forall|i: int| 0 <= i < cmds.len() ==> cmd_wf(#[trigger] cmds[i], w),
        flash_pairwise_disjoint(cmds),
        cmd_wf(c, w),
        !(c is Flash),
    ensures
        forall|i: int|
            0 <= i < cmds.push(c).len() ==> cmd_wf(#[trigger] cmds.push(c)[i], w),
        flash_pairwise_disjoint(cmds.push(c)),
{
    let n = cmds.push(c);
    assert forall|i: int, j: int|
        0 <= i < j < n.len() && #[trigger] n[i] is Flash && #[trigger] n[j] is Flash implies
        !flash_overlap(n[i], n[j]) by {
        if j < cmds.len() {
            assert(n[i] == cmds[i] && n[j] == cmds[j]);
        } else {
            assert(n[j] == c);
        }
    }
}

/// Appending a flash command that the overlap check cleared against every
/// queued command keeps the flash commands pairwise disjoint.
proof fn lemma_append_flash(cmds: Seq<LoadCommand>, c: LoadCommand, w: MemoryWindows)
    requires
        forall|i: int| 0 <= i < cmds.len() ==> cmd_wf(#[trigger] cmds[i], w),
        flash_pairwise_disjoint(cmds),
        cmd_wf(c, w),
        c is Flash,
        forall|i: int|
            0 <= i < cmds.len() ==> !(#[trigger] cmds[i] is Flash && flash_overlap(cmds[i], c)),
    ensures
        forall|i: int|
            0 <= i < cmds.push(c).len() ==> cmd_wf(#[trigger] cmds.push(c)[i], w),
        flash_pairwise_disjoint(cmds.push(c)),
{
    let n = cmds.push(c);
    assert forall|i: int, j: int|
        0 <= i < j < n.len() && #[trigger] n[i] is Flash && #[trigger] n[j] is Flash implies
        !flash_overlap(n[i], n[j]) by {
        if j < cmds.len() {
            assert(n[i] == cmds[i] && n[j] == cmds[j]);
        } else {
            assert(n[i] == cmds[i] && n[j] == c);
        }
    }
}

/// Removing the last command keeps every queued command well-formed and
/// the flash commands pairwise disjoint.
proof fn lemma_drop_last(cmds: Seq<LoadCommand>, w: MemoryWindows)
    requires
        cmds.len() > 0,
        forall|i: int| 0 <= i < cmds.len() ==> cmd_wf(#[trigger] cmds[i], w),
        flash_pairwise_disjoint(cmds),
    ensures
        forall|i: int|
            0 <= i < cmds.drop_last().len() ==> cmd_wf(#[trigger] cmds.drop_last()[i], w),
        flash_pairwise_disjoint(cmds.drop_last()),
{
    let n = cmds.drop_last();
    assert forall|i: int| 0 <= i < n.len() implies cmd_wf(#[trigger] n[i], w) by {
        assert(n[i] == cmds[i]);
    }
    assert forall|i: int, j: int|
        0 <= i < j < n.len() && #[trigger] n[i] is Flash && #[trigger] n[j] is Flash implies
        !flash_overlap(n[i], n[j]) by {
        assert(n[i] == cmds[i] && n[j] == cmds[j]);
    }
}

/// The loop that found `cmds[i]` overlapping the candidate witnesses
/// `overlap_found`.
proof fn lemma_overlap_witness(o: PlanState, r: ProgramHeaderRecord, i: int, merged: bool)
    requires
        o.wf(),
        merged == merges(o, r),
        0 <= i < o.cmds.len() - (if merged { 1int } else { 0int }),
        o.cmds[i] is Flash,
        flash_overlap(o.cmds[i], candidate(o, r)),
    ensures
        overlap_found(o, r),
{
    if merged {
        assert(base_cmds(o, r)[i] == o.cmds[i]);
    } else {
        assert(base_cmds(o, r)[i] == o.cmds[i]);
    }
}

/// When the loop found no overlapping queued flash command, none exists in
/// the base the candidate is checked against.
proof fn lemma_no_overlap(o: PlanState, r: ProgramHeaderRecord, merged: bool)
    requires
        o.wf(),
        merged == merges(o, r),
        r.p_offset >= o.load_pos,
        forall|j: int|
            0 <= j < o.cmds.len() - (if merged { 1int } else { 0int }) ==> !(
            #[trigger] o.cmds[j] is Flash && flash_overlap(o.cmds[j], candidate(o, r))),
    ensures
        !overlap_found(o, r),
{
    assert forall|i: int|
        0 <= i < base_cmds(o, r).len() implies !(#[trigger] base_cmds(o, r)[i] is Flash
        && flash_overlap(base_cmds(o, r)[i], candidate(o, r))) by {
        if merged {
            assert(base_cmds(o, r)[i] == o.cmds[i]);
        } else {
            if i < o.cmds.len() {
                assert(base_cmds(o, r)[i] == o.cmds[i]);
            } else {
                assert(base_cmds(o, r)[i] is Discard);
            }
        }
    }
}

} // verus!
