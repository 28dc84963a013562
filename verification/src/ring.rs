//! A circular byte store designed to persist across warm resets.
//!
//! The buffer lives in a memory region that a reset does not clear, so on
//! every boot the header may hold garbage, a stale layout, or a valid buffer
//! written by a different firmware build. `init` validates the header in
//! place and either adopts the surviving content or resets the buffer; the
//! model here carries the region's data area as an owned byte vector.

use vstd::prelude::*;

verus! {

/// Value of the magic header field that marks an initialized buffer.
pub const RING_MAGIC: u32 = 0x4c4f4745;

/// A ring buffer over a reset-surviving memory region.
///
/// `read == write` is ambiguous between empty and full; the `full` flag
/// disambiguates. The fields are public so that a boot-time image, including
/// a corrupted one, can be written down directly; every operation other than
/// `init` and `valid` expects a well-formed buffer.
pub struct PersistentRingBuffer {
    /// Magic marker; anything but `RING_MAGIC` means the region holds garbage.
    pub magic: u32,
    /// Build identifier of the firmware that last stamped the buffer.
    pub id: u32,
    /// True when the buffer holds exactly `capacity` bytes.
    pub full: bool,
    /// Index of the oldest stored byte.
    pub read: usize,
    /// Index one past the newest stored byte.
    pub write: usize,
    /// Size of the data area; mirrors `storage.len()` once initialized.
    pub capacity: usize,
    /// Count of bytes that already sat in the buffer at boot.
    pub persisted: usize,
    /// The data area of the region.
    pub storage: Vec<u8>,
}

impl View for PersistentRingBuffer {
    type V = Seq<u8>;

    /// The stored bytes, oldest first.
    open spec fn view(&self) -> Seq<u8> {
        if self.full {
            self.storage@.subrange(self.read as int, self.capacity as int) + self.storage@.subrange(
                0,
                self.read as int,
            )
        } else if self.read <= self.write {
            self.storage@.subrange(self.read as int, self.write as int)
        } else {
            self.storage@.subrange(self.read as int, self.capacity as int) + self.storage@.subrange(
                0,
                self.write as int,
            )
        }
    }
}

impl PersistentRingBuffer {
    /// Well-formedness of an initialized buffer.
    pub open spec fn wf(self) -> bool {
        &&& self.storage@.len() == self.capacity
        &&& self.read < self.capacity
        &&& self.write < self.capacity
        &&& (self.full ==> self.read == self.write)
    }

    /// Number of stored bytes.
    pub open spec fn len_spec(self) -> nat {
        self@.len()
    }

    /// Number of bytes that can still be pushed.
    pub open spec fn free_spec(self) -> nat
        recommends
            self.wf(),
    {
        (self.capacity - self.len_spec()) as nat
    }

    /// What the boot-time validation accepts: the magic marker is present,
    /// both cursors lie inside the region, no persisted marker is pending,
    /// and the full flag is consistent with the cursors.
    pub open spec fn valid_spec(self) -> bool {
        &&& self.magic == RING_MAGIC
        &&& self.write < self.capacity
        &&& self.read < self.capacity
        &&& self.persisted == 0
        &&& (self.full ==> self.read == self.write)
    }

    /// Checks whether the header left in memory by an earlier boot is usable.
    pub fn valid(&self) -> (r: bool)
        ensures
            r == self.valid_spec(),
    {
        self.magic == RING_MAGIC && self.write < self.capacity && self.read < self.capacity
            && self.persisted == 0 && (!self.full || self.read == self.write)
    }

    /// Validates the buffer found in memory at boot.
    ///
    /// An invalid header, or a capacity that no longer matches the region,
    /// resets the buffer to empty under the new build `id`. A valid empty
    /// buffer adopts the new `id` at once. A valid non-empty buffer keeps its
    /// content and its previous `id`, and records the surviving byte count in
    /// `persisted` until `reset_presisted` acknowledges it.
    pub fn init(&mut self, id: u32, capacity: usize)
        requires
            old(self).storage@.len() == capacity,
            capacity > 0,
        ensures
            final(self).wf(),
            final(self).capacity == capacity,
            final(self).magic == RING_MAGIC,
            final(self).storage@.len() == capacity,
            !(old(self).valid_spec() && old(self).capacity == capacity) ==> {
                &&& final(self).id == id
                &&& final(self).read == 0
                &&& final(self).write == 0
                &&& !final(self).full
                &&& final(self).persisted == 0
                &&& final(self)@ == Seq::<u8>::empty()
            },
            (old(self).valid_spec() && old(self).capacity == capacity && old(self).len_spec()
                == 0) ==> {
                &&& final(self).id == id
                &&& final(self).persisted == 0
                &&& final(self)@ == Seq::<u8>::empty()
                &&& final(self).read == old(self).read
                &&& final(self).write == old(self).write
                &&& final(self).full == old(self).full
            },
            (old(self).valid_spec() && old(self).capacity == capacity && old(self).len_spec()
                > 0) ==> {
                &&& final(self).id == old(self).id
                &&& final(self).persisted == old(self).len_spec()
                &&& final(self)@ == old(self)@
                &&& final(self).read == old(self).read
                &&& final(self).write == old(self).write
            },
    {
        if !(self.valid() && self.capacity == capacity) {
            self.magic = RING_MAGIC;
            self.id = id;
            self.read = 0;
            self.write = 0;
            self.full = false;
            self.capacity = capacity;
            self.persisted = 0;
        } else if self.len() == 0 {
            self.id = id;
            self.persisted = 0;
        } else {
            // Preserve the previous id until the persisted data is drained.
            self.persisted = self.len();
        }
    }

    /// The build identifier stamped on the stored bytes.
    pub fn id(&self) -> (r: u32)
        ensures
            r == self.id,
    {
        self.id
    }

    /// Count of bytes already in the buffer at boot.
    pub fn persisted(&self) -> (r: usize)
        ensures
            r == self.persisted,
    {
        self.persisted
    }

    /// Clears the persisted marker and stamps the buffer with the current
    /// build `id`.
    pub fn reset_presisted(&mut self, id: u32)
        ensures
            *final(self) == (PersistentRingBuffer { persisted: 0usize, id, ..*old(self) }),
    {
        self.persisted = 0;
        self.id = id;
    }

    /// Number of stored bytes.
    pub fn len(&self) -> (r: usize)
        requires
            self.wf(),
        ensures
            r == self.len_spec(),
    {
        self.capacity - self.free_space()
    }

    /// Number of bytes that can still be pushed.
    pub fn free_space(&self) -> (r: usize)
        requires
            self.wf(),
        ensures
            r == self.free_spec(),
    {
        if self.full {
            0
        } else if self.read > self.write {
            self.read - self.write
        } else {
            self.capacity - (self.write - self.read)
        }
    }

    /// True when no byte is stored.
    pub fn empty(&self) -> (r: bool)
        requires
            self.wf(),
        ensures
            r == (self.len_spec() == 0),
    {
        self.read == self.write && !self.full
    }

    /// The write cursor, captured by the logger as the start marker of the
    /// frame it is about to push.
    pub fn get_write_ptr(&self) -> (r: usize)
        ensures
            r == self.write,
    {
        self.write
    }

    /// Number of bytes that `erase_to(marker)` discards: the circular
    /// distance from the read cursor to `marker`, which is everything stored
    /// when the buffer is full and `marker` sits on the cursors.
    pub open spec fn erase_count(self, marker: usize) -> nat {
        if self.full && marker == self.read {
            self.capacity as nat
        } else if marker >= self.read {
            (marker - self.read) as nat
        } else {
            (self.capacity - self.read + marker) as nat
        }
    }

    /// A marker is meaningful only when it lies inside the stored span (or on
    /// its ends); the logger guarantees this by capturing the write cursor.
    pub open spec fn marker_ok(self, marker: usize) -> bool {
        marker < self.capacity && self.erase_count(marker) <= self.len_spec()
    }

    /// Discards stored content up to `marker`, a write-cursor position
    /// captured earlier, and returns the discarded byte count. Used only
    /// under overflow, so that an in-progress frame, which starts at
    /// `marker`, is never split by the eviction.
    pub fn erase_to(&mut self, marker: usize) -> (n: usize)
        requires
            old(self).wf(),
            old(self).marker_ok(marker),
        ensures
            final(self).wf(),
            n == old(self).erase_count(marker),
            final(self)@ == old(self)@.skip(n as int),
            final(self).read == marker,
            !final(self).full,
            final(self).write == old(self).write,
            final(self).id == old(self).id,
            final(self).persisted == old(self).persisted,
            final(self).capacity == old(self).capacity,
            final(self).magic == old(self).magic,
            final(self).storage@ == old(self).storage@,
    {
        let n = if self.full && marker == self.read {
            self.capacity
        } else if marker >= self.read {
            marker - self.read
        } else {
            self.capacity - (self.read - marker)
        };
        self.read = marker;
        self.full = false;
        assert(self@ =~= old(self)@.skip(n as int));
        n
    }

    /// Appends `slice` whole, or fails without changing anything when the
    /// free space does not suffice.
    pub fn push_slice(&mut self, slice: &[u8]) -> (r: bool)
        requires
            old(self).wf(),
        ensures
            final(self).wf(),
            r == (slice@.len() <= old(self).free_spec()),
            r ==> final(self)@ == old(self)@ + slice@,
            !r ==> *final(self) == *old(self),
            final(self).id == old(self).id,
            final(self).persisted == old(self).persisted,
            final(self).capacity == old(self).capacity,
            final(self).magic == old(self).magic,
            final(self).read == old(self).read,
    {
        let n = slice.len();
        if self.free_space() < n {
            return false;
        }
        if n == 0 {
            assert(self@ =~= self@ + slice@);
            return true;
        }
        let top = if self.write < self.read {
            self.read
        } else {
            self.capacity
        };
        let len1 = if n < top - self.write {
            n
        } else {
            top - self.write
        };
        copy_range(&mut self.storage, self.write, slice, 0, len1);
        self.write = self.write + len1;
        if self.write == self.capacity {
            let len2 = n - len1;
            copy_range(&mut self.storage, 0, slice, len1, len2);
            self.write = len2;
        }
        self.full = self.write == self.read;
        assert(self@ =~= old(self)@ + slice@);
        true
    }

    /// Moves up to `buf.len()` stored bytes into the front of `buf`,
    /// returning how many were moved.
    pub fn pop_to_buf(&mut self, buf: &mut [u8]) -> (n: usize)
        requires
            old(self).wf(),
        ensures
            final(self).wf(),
            n == if old(self).len_spec() <= old(buf)@.len() {
                old(self).len_spec()
            } else {
                old(buf)@.len()
            },
            final(buf)@.len() == old(buf)@.len(),
            final(buf)@ == old(self)@.take(n as int) + old(buf)@.skip(n as int),
            final(self)@ == old(self)@.skip(n as int),
            final(self).id == old(self).id,
            final(self).persisted == old(self).persisted,
            final(self).capacity == old(self).capacity,
            final(self).magic == old(self).magic,
            final(self).write == old(self).write,
    {
        if (self.read == self.write && !self.full) || buf.len() == 0 {
            assert(final(buf)@ =~= old(self)@.take(0) + old(buf)@.skip(0));
            assert(self@ =~= old(self)@.skip(0));
            return 0;
        }
        let top = if self.read < self.write {
            self.write
        } else {
            self.capacity
        };
        let len1 = if buf.len() < top - self.read {
            buf.len()
        } else {
            top - self.read
        };
        copy_to_slice(buf, 0, &self.storage, self.read, len1);
        self.read = self.read + len1;
        self.full = false;
        if self.read == self.capacity {
            self.read = 0;
            let rem = buf.len() - len1;
            let len2 = if rem < self.write {
                rem
            } else {
                self.write
            };
            copy_to_slice(buf, len1, &self.storage, 0, len2);
            self.read = len2;
            assert(final(buf)@ =~= old(self)@.take((len1 + len2) as int) + old(buf)@.skip(
                (len1 + len2) as int,
            ));
            assert(self@ =~= old(self)@.skip((len1 + len2) as int));
            return len1 + len2;
        }
        assert(final(buf)@ =~= old(self)@.take(len1 as int) + old(buf)@.skip(len1 as int));
        assert(self@ =~= old(self)@.skip(len1 as int));
        len1
    }
}

/// A well-formed buffer never holds more than its capacity, and its free
/// space and content length always split the capacity exactly.
pub proof fn lemma_content_bounded(rb: PersistentRingBuffer)
    requires
        rb.wf(),
    ensures
        rb.len_spec() <= rb.capacity,
        rb.len_spec() + rb.free_spec() == rb.capacity,
{
}

/// A push that does not fit leaves the buffer unchanged (that is
/// `push_slice`'s contract), and evicting up to a frame marker makes room
/// for exactly the discarded bytes: after `erase_to(marker)` the free space
/// has grown by the discarded count, so a push of any length up to it, in
/// particular the push that just failed, succeeds.
pub proof fn lemma_push_after_erase(rb0: PersistentRingBuffer, rb1: PersistentRingBuffer, marker: usize)
    requires
        rb0.wf(),
        rb0.marker_ok(marker),
        rb1 == (PersistentRingBuffer { read: marker, full: false, ..rb0 }),
    ensures
        rb1.wf(),
        rb1.free_spec() == rb0.free_spec() + rb0.erase_count(marker),
{
    assert(rb1@.len() == rb0@.len() - rb0.erase_count(marker)) by {
        assert(rb1@ =~= rb0@.skip(rb0.erase_count(marker) as int));
    }
}

/// Copies `src[from .. from + count]` over `dst[at .. at + count]`.
fn copy_range(dst: &mut Vec<u8>, at: usize, src: &[u8], from: usize, count: usize)
    requires
        at + count <= old(dst)@.len(),
        from + count <= src@.len(),
    ensures
        final(dst)@.len() == old(dst)@.len(),
        final(dst)@ == old(dst)@.take(at as int) + src@.subrange(
            from as int,
            from as int + count as int,
        ) + old(dst)@.skip(at as int + count as int),
{
    let ghost dst0 = dst@;
    let dlen: usize = dst.len();
    let slen: usize = src.len();
    let mut i: usize = 0;
    while i < count
        invariant
            at + count <= dlen,
            from + count <= slen,
            src@.len() == slen,
            dst@.len() == dlen,
            dst0.len() == dlen,
            i <= count,
            forall|j: int| 0 <= j < at ==> dst@[j] == dst0[j],
            forall|j: int| 0 <= j < i ==> #[trigger] dst@[at + j] == src@[from + j],
            forall|j: int| at + i <= j < dlen ==> dst@[j] == dst0[j],
        decreases count - i,
    {
        dst[at + i] = src[from + i];
        i = i + 1;
    }
    assert(dst0 =~= old(dst)@);
    let ghost goal = old(dst)@.take(at as int) + src@.subrange(
        from as int,
        from as int + count as int,
    ) + old(dst)@.skip(at as int + count as int);
    assert forall|k: int| 0 <= k < dst@.len() implies dst@[k] == goal[k] by {
        if at <= k < at + count {
            assert(dst@[at + (k - at)] == src@[from + (k - at)]);
        }
    }
    assert(dst@ =~= goal);
}

/// Copies `src[from .. from + count]` over `dst[at .. at + count]`.
fn copy_to_slice(dst: &mut [u8], at: usize, src: &Vec<u8>, from: usize, count: usize)
    requires
        at + count <= old(dst)@.len(),
        from + count <= src@.len(),
    ensures
        final(dst)@.len() == old(dst)@.len(),
        final(dst)@ == old(dst)@.take(at as int) + src@.subrange(
            from as int,
            from as int + count as int,
        ) + old(dst)@.skip(at as int + count as int),
{
    let ghost dst0 = dst@;
    let dlen: usize = dst.len();
    let slen: usize = src.len();
    let mut i: usize = 0;
    while i < count
        invariant
            at + count <= dlen,
            from + count <= slen,
            src@.len() == slen,
            dst@.len() == dlen,
            dst0.len() == dlen,
            i <= count,
            forall|j: int| 0 <= j < at ==> dst@[j] == dst0[j],
            forall|j: int| 0 <= j < i ==> #[trigger] dst@[at + j] == src@[from + j],
            forall|j: int| at + i <= j < dlen ==> dst@[j] == dst0[j],
        decreases count - i,
    {
        dst[at + i] = src[from + i];
        i = i + 1;
    }
    assert(dst0 =~= old(dst)@);
    let ghost goal = old(dst)@.take(at as int) + src@.subrange(
        from as int,
        from as int + count as int,
    ) + old(dst)@.skip(at as int + count as int);
    assert forall|k: int| 0 <= k < dst@.len() implies dst@[k] == goal[k] by {
        if at <= k < at + count {
            assert(dst@[at + (k - at)] == src@[from + (k - at)]);
        }
    }
    assert(dst@ =~= goal);
}

} // verus!
