//! Error taxonomy of the loader pipeline and of the log-drain client.

use vstd::prelude::*;

verus! {

/// An error that aborts one load attempt over the control connection.
/// The device stays up and can accept a new attempt.
#[derive(Clone, Copy, Debug, PartialEq, Eq, Structural)]
pub enum LoadError {
    /// The peer closed or reset the connection mid-transfer.
    ConnectionReset,
    /// The stream ended before the expected number of bytes arrived.
    UnexpectedEof,
    /// Magic, class, byte order, version, type or machine mismatch in the
    /// fixed executable header.
    BadElfHeader,
    /// A seek to a position before the current stream position was requested.
    BackwardsSeek,
    /// A loadable segment's address range lies outside both the flash window
    /// and the RAM window.
    BadLoad,
    /// A segment's file offset lies before the running stream position.
    LoadsOutOfOrder,
    /// Two planned flash writes touch the same page-aligned range.
    OverlappingFlashWrite,
    /// The fixed-capacity command queue overflowed.
    TooManyLoads,
    /// The executable declared no loadable segment.
    NoLoads,
    /// An unknown command byte arrived on the control connection.
    UnknownCommand,
}

/// An error raised by the log-drain client while decoding one framed chunk.
#[derive(Clone, Copy, Debug, PartialEq, Eq, Structural)]
pub enum ChunkError {
    /// The four magic bytes of the chunk header did not match.
    BadMagic,
    /// The advertised payload length exceeds the client's receive buffer.
    TooLarge,
    /// The buffered data ends before the chunk does.
    Truncated,
    /// The trailing dropped-byte count exceeds the payload length.
    BadDroppedCount,
}

/// An error raised while undoing the rzcobs byte-stuffing of one log frame.
#[derive(Clone, Copy, Debug, PartialEq, Eq, Structural)]
pub enum FrameError {
    /// The stuffed frame contains a zero byte or ends mid-group.
    Malformed,
}

} // verus!
