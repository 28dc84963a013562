//! The frame logger: brackets one diagnostic frame between `acquire` and
//! `release`, pushing its bytes into the persistent ring buffer.
//!
//! On the device these operations run under a critical section (interrupt
//! masking), so a whole frame is pushed without interleaving; the state here
//! models what that exclusive section reads and writes. A frame is atomic:
//! on overflow the buffer is evicted only up to the start marker of the
//! frame in flight, never through it, and the evicted bytes are counted as
//! dropped rather than reported as a failure.

use vstd::prelude::*;

use crate::ring::PersistentRingBuffer;

verus! {

/// Logger state shared by every logging call site and the drain task.
pub struct FrameLogger {
    /// True between `acquire` and `release`; detects reentrant acquisition.
    pub taken: bool,
    /// Bytes lost to ring-buffer overflow since the drain last accounted
    /// for them.
    pub dropped: usize,
    /// Write-cursor position captured at `acquire`: the start of the frame
    /// in flight.
    pub frame_start: usize,
}

impl FrameLogger {
    /// The frame-start marker is meaningful whenever a frame is in flight.
    pub open spec fn marker_wf(self, rb: PersistentRingBuffer) -> bool {
        self.taken ==> rb.marker_ok(self.frame_start)
    }

    /// Ring contents after pushing `bytes` of the current frame: appended
    /// when they fit, otherwise everything before the frame in flight is
    /// evicted and the push is retried once.
    pub open spec fn pushed_contents(
        self,
        rb: PersistentRingBuffer,
        bytes: Seq<u8>,
    ) -> Seq<u8> {
        if !self.taken {
            rb@
        } else if bytes.len() <= rb.free_spec() {
            rb@ + bytes
        } else if bytes.len() <= rb.free_spec() + rb.erase_count(self.frame_start) {
            rb@.skip(rb.erase_count(self.frame_start) as int) + bytes
        } else {
            rb@.skip(rb.erase_count(self.frame_start) as int)
        }
    }

    /// Dropped-byte counter after pushing `bytes`: it grows by the evicted
    /// count exactly when the push did not fit at once.
    pub open spec fn pushed_dropped(self, rb: PersistentRingBuffer, bytes: Seq<u8>) -> nat {
        if !self.taken || bytes.len() <= rb.free_spec() {
            self.dropped as nat
        } else {
            (self.dropped + rb.erase_count(self.frame_start)) as nat
        }
    }

    /// A fresh logger: no frame in flight, nothing dropped.
    pub fn new() -> (r: FrameLogger)
        ensures
            !r.taken,
            r.dropped == 0,
            r.frame_start == 0,
    {
        FrameLogger { taken: false, dropped: 0, frame_start: 0 }
    }

    /// Opens a frame, capturing the write cursor as the frame-start marker.
    ///
    /// Returns false on reentrant acquisition, which is a programming error
    /// the caller must treat as fatal; the flag is cleared first so that the
    /// fatal report itself can still be logged.
    pub fn acquire(&mut self, rb: &PersistentRingBuffer) -> (r: bool)
        ensures
            r == !old(self).taken,
            final(self).dropped == old(self).dropped,
            !old(self).taken ==> {
                &&& final(self).taken
                &&& final(self).frame_start == rb.write
            },
            old(self).taken ==> *final(self) == (FrameLogger {
                taken: false,
                ..*old(self)
            }),
            rb.wf() ==> final(self).marker_wf(*rb),
    {
        if self.taken {
            // Clear the guard so the fatal report can itself be flushed.
            self.taken = false;
            return false;
        }
        self.taken = true;
        self.frame_start = rb.get_write_ptr();
        proof {
            if rb.wf() {
                assert(rb.erase_count(rb.write) <= rb.len_spec());
            }
        }
        true
    }

    /// Pushes frame bytes into the ring buffer. When they do not fit, the
    /// buffer is evicted up to the frame-start marker, the evicted count is
    /// added to `dropped`, and the push is retried once; a frame larger than
    /// the whole buffer is itself dropped.
    pub fn push_bytes(&mut self, rb: &mut PersistentRingBuffer, bytes: &[u8])
        requires
            old(rb).wf(),
            old(self).marker_wf(*old(rb)),
            old(self).dropped + old(rb).capacity <= usize::MAX,
        ensures
            final(rb).wf(),
            final(self).marker_wf(*final(rb)),
            final(rb)@ == old(self).pushed_contents(*old(rb), bytes@),
            final(self).dropped == old(self).pushed_dropped(*old(rb), bytes@),
            final(self).taken == old(self).taken,
            final(self).frame_start == old(self).frame_start,
            final(rb).id == old(rb).id,
            final(rb).persisted == old(rb).persisted,
            final(rb).capacity == old(rb).capacity,
            final(rb).magic == old(rb).magic,
    {
        if self.taken {
            if !rb.push_slice(bytes) {
                // The buffer is full: evict everything before the current
                // frame, then try once more.
                let erased = rb.erase_to(self.frame_start);
                self.dropped = self.dropped + erased;
                let _ = rb.push_slice(bytes);
            }
        }
    }

    /// Pushes frame bytes; the serialization into the frame happens before
    /// this call, so the bytes pass straight through to `push_bytes`.
    pub fn write(&mut self, rb: &mut PersistentRingBuffer, bytes: &[u8])
        requires
            old(rb).wf(),
            old(self).marker_wf(*old(rb)),
            old(self).dropped + old(rb).capacity <= usize::MAX,
        ensures
            final(rb).wf(),
            final(self).marker_wf(*final(rb)),
            final(rb)@ == old(self).pushed_contents(*old(rb), bytes@),
            final(self).dropped == old(self).pushed_dropped(*old(rb), bytes@),
            final(self).taken == old(self).taken,
            final(self).frame_start == old(self).frame_start,
            final(rb).id == old(rb).id,
            final(rb).persisted == old(rb).persisted,
            final(rb).capacity == old(rb).capacity,
    {
        self.push_bytes(rb, bytes);
    }

    /// Closes the frame: pushes the single zero byte that delimits frames
    /// on the wire, then releases the logger. Waking the drain task is the
    /// caller's part.
    pub fn release(&mut self, rb: &mut PersistentRingBuffer)
        requires
            old(rb).wf(),
            old(self).marker_wf(*old(rb)),
            old(self).dropped + old(rb).capacity <= usize::MAX,
        ensures
            final(rb).wf(),
            final(rb)@ == old(self).pushed_contents(*old(rb), seq![0u8]),
            final(self).dropped == old(self).pushed_dropped(*old(rb), seq![0u8]),
            !final(self).taken,
            final(self).frame_start == old(self).frame_start,
            final(rb).id == old(rb).id,
            final(rb).persisted == old(rb).persisted,
            final(rb).capacity == old(rb).capacity,
    {
        let terminator: [u8; 1] = [0];
        assert(terminator@ =~= seq![0u8]);
        self.push_bytes(rb, terminator.as_slice());
        self.taken = false;
    }

    /// One poll of the wait-for-data future: clears the dropped counter
    /// (the drain reports it out of band) and returns the available length,
    /// or nothing when the buffer is empty and the task must keep waiting.
    pub fn poll_wait(&mut self, rb: &PersistentRingBuffer) -> (r: Option<usize>)
        requires
            rb.wf(),
        ensures
            final(self).dropped == 0,
            final(self).taken == old(self).taken,
            final(self).frame_start == old(self).frame_start,
            r == if rb.len_spec() == 0 {
                Option::<usize>::None
            } else {
                Option::<usize>::Some(rb.len_spec() as usize)
            },
    {
        if self.dropped != 0 {
            self.dropped = 0;
        }
        if rb.empty() {
            None
        } else {
            Some(rb.len())
        }
    }
}

/// True when every diagnostic byte produced so far has been drained to the
/// host: the ring buffer holds nothing.
pub fn is_drained(rb: &PersistentRingBuffer) -> (r: bool)
    requires
        rb.wf(),
    ensures
        r == (rb.len_spec() == 0),
{
    rb.empty()
}

} // verus!
