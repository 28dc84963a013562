//! A sequential, forward-only read cursor over the bytes of one inbound
//! load connection.
//!
//! The cursor tracks its absolute position so that later pipeline stages can
//! request forward seeks; the transport has no real seek, so a forward seek
//! discards bytes, and a backward seek is an error by design. The cursor
//! here ranges over bytes already buffered as plain values; the socket that
//! produces them stays outside the library.

use vstd::prelude::*;

use crate::errors::LoadError;

verus! {

/// A read cursor with an absolute position.
pub struct StreamCursor {
    /// The bytes of the connection, in arrival order.
    pub data: Vec<u8>,
    /// Absolute position of the next unread byte.
    pub pos: usize,
}

impl StreamCursor {
    /// The position never passes the end of the data.
    pub open spec fn wf(self) -> bool {
        self.pos <= self.data@.len()
    }

    /// A cursor at the start of `data`.
    pub fn new(data: Vec<u8>) -> (r: StreamCursor)
        ensures
            r.wf(),
            r.data@ == data@,
            r.pos == 0,
    {
        StreamCursor { data, pos: 0 }
    }

    /// The absolute position of the next unread byte.
    pub fn position(&self) -> (r: usize)
        ensures
            r == self.pos,
    {
        self.pos
    }

    /// Reads exactly `n` bytes, or fails without moving when the stream ends
    /// first.
    pub fn read_exact(&mut self, n: usize) -> (r: Result<Vec<u8>, LoadError>)
        requires
            old(self).wf(),
        ensures
            final(self).wf(),
            final(self).data@ == old(self).data@,
            old(self).pos + n <= old(self).data@.len() ==> {
                &&& r matches Ok(v) && v@ == old(self).data@.subrange(
                    old(self).pos as int,
                    old(self).pos + n,
                )
                &&& final(self).pos == old(self).pos + n
            },
            old(self).pos + n > old(self).data@.len() ==> {
                &&& r == Err::<Vec<u8>, LoadError>(LoadError::UnexpectedEof)
                &&& final(self).pos == old(self).pos
            },
    {
        if n > self.data.len() - self.pos {
            return Err(LoadError::UnexpectedEof);
        }
        let mut out: Vec<u8> = Vec::new();
        let dlen: usize = self.data.len();
        let mut i: usize = 0;
        while i < n
            invariant
                self.pos + n <= self.data@.len(),
                self.data@.len() == dlen,
                i <= n,
                out@ == self.data@.subrange(self.pos as int, self.pos + i),
            decreases n - i,
        {
            out.push(self.data[self.pos + i]);
            assert(out@ =~= self.data@.subrange(self.pos as int, self.pos + i + 1));
            i = i + 1;
        }
        self.pos = self.pos + n;
        Ok(out)
    }

    /// Moves the cursor forward to absolute position `target`. A target
    /// before the cursor is a `BackwardsSeek` error; one past the end of the
    /// stream is an `UnexpectedEof`.
    pub fn seek_absolute(&mut self, target: u64) -> (r: Result<(), LoadError>)
        requires
            old(self).wf(),
        ensures
            final(self).wf(),
            final(self).data@ == old(self).data@,
            target < old(self).pos ==> {
                &&& r == Err::<(), LoadError>(LoadError::BackwardsSeek)
                &&& final(self).pos == old(self).pos
            },
            old(self).pos <= target <= old(self).data@.len() ==> {
                &&& r == Ok::<(), LoadError>(())
                &&& final(self).pos == target
            },
            target > old(self).data@.len() ==> {
                &&& r == Err::<(), LoadError>(LoadError::UnexpectedEof)
                &&& final(self).pos == old(self).pos
            },
    {
        if target < self.pos as u64 {
            return Err(LoadError::BackwardsSeek);
        }
        if target > self.data.len() as u64 {
            return Err(LoadError::UnexpectedEof);
        }
        self.pos = target as usize;
        Ok(())
    }

    /// Moves the cursor forward by `delta` bytes, discarding them. A
    /// negative `delta` is a `BackwardsSeek` error.
    pub fn seek_relative(&mut self, delta: i64) -> (r: Result<(), LoadError>)
        requires
            old(self).wf(),
        ensures
            final(self).wf(),
            final(self).data@ == old(self).data@,
            delta < 0 ==> {
                &&& r == Err::<(), LoadError>(LoadError::BackwardsSeek)
                &&& final(self).pos == old(self).pos
            },
            delta >= 0 && old(self).pos + delta <= old(self).data@.len() ==> {
                &&& r == Ok::<(), LoadError>(())
                &&& final(self).pos == old(self).pos + delta
            },
            delta >= 0 && old(self).pos + delta > old(self).data@.len() ==> {
                &&& r == Err::<(), LoadError>(LoadError::UnexpectedEof)
                &&& final(self).pos == old(self).pos
            },
    {
        if delta < 0 {
            return Err(LoadError::BackwardsSeek);
        }
        if (delta as u64) > (self.data.len() - self.pos) as u64 {
            return Err(LoadError::UnexpectedEof);
        }
        self.pos = self.pos + delta as usize;
        Ok(())
    }
}

} // verus!
