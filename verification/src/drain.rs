//! The log-drain service and its wire protocol: the device advertises
//! itself over a broadcast, accepts one client at a time, replays what
//! survived the last reset, then streams live ring-buffer content as framed
//! chunks with byte-exact overflow accounting. The client-side parser of
//! the same chunk format lives here too.

use vstd::prelude::*;

use crate::bytes::{le32, push_u32_le, read_u32_le, u32_le_bytes};
use crate::errors::ChunkError;
use crate::logger::FrameLogger;
use crate::ring::PersistentRingBuffer;

verus! {

/// TCP port of the drain service, and source port of its broadcasts.
pub const DRAIN_PORT: u16 = 4300;

/// UDP port the discovery broadcast is sent to.
pub const DISCOVERY_PORT: u16 = 4301;

/// The payload of one discovery broadcast.
pub open spec fn discovery_payload_spec() -> Seq<u8> {
    seq![0x68u8, 0x65u8, 0x6cu8, 0x6cu8, 0x6fu8]
}

/// The discovery broadcast payload: the five ASCII bytes of "hello".
pub fn discovery_payload() -> (r: Vec<u8>)
    ensures
        r@ == discovery_payload_spec(),
{
    let mut v: Vec<u8> = Vec::new();
    v.push(0x68);
    v.push(0x65);
    v.push(0x6c);
    v.push(0x6c);
    v.push(0x6f);
    assert(v@ =~= discovery_payload_spec());
    v
}

/// The four magic bytes that open every chunk: ASCII "LOGS".
pub open spec fn chunk_magic() -> Seq<u8> {
    seq![0x4cu8, 0x4fu8, 0x47u8, 0x53u8]
}

/// One chunk on the wire: a 12-byte header of magic, build id and payload
/// length, the payload, and a trailing count of payload bytes that stand
/// for dropped data.
pub open spec fn chunk_bytes(id: u32, payload: Seq<u8>, dropped: u32) -> Seq<u8> {
    chunk_magic() + u32_le_bytes(id) + u32_le_bytes(payload.len() as u32) + payload + u32_le_bytes(
        dropped,
    )
}

/// Builds one outbound chunk of `len` payload bytes, tagged `id`.
///
/// While nothing was dropped, the payload is popped from the ring buffer.
/// Once bytes were dropped, the surviving buffer content is unreliable, so
/// the payload is sentinel fill instead, the whole chunk is accounted as
/// dropped in its footer, and the dropped counter is relieved by that much.
#[verifier::loop_isolation(false)]
pub fn build_chunk(logger: &mut FrameLogger, rb: &mut PersistentRingBuffer, id: u32, len: usize) -> (r:
    Vec<u8>)
    requires
        old(rb).wf(),
        len <= old(rb).len_spec(),
        len <= u32::MAX,
    ensures
        final(rb).wf(),
        old(logger).dropped == 0 ==> {
            &&& r@ == chunk_bytes(id, old(rb)@.take(len as int), 0)
            &&& final(rb)@ == old(rb)@.skip(len as int)
            &&& *final(logger) == *old(logger)
        },
        old(logger).dropped > 0 ==> {
            &&& r@ == chunk_bytes(id, Seq::new(len as nat, |i: int| 0xffu8), len as u32)
            &&& *final(rb) == *old(rb)
            &&& final(logger).dropped == if len <= old(logger).dropped {
                (old(logger).dropped - len) as int
            } else {
                0int
            }
        },
        final(logger).taken == old(logger).taken,
        final(logger).frame_start == old(logger).frame_start,
        final(rb).id == old(rb).id,
        final(rb).persisted == old(rb).persisted,
        final(rb).capacity == old(rb).capacity,
{
    let mut out: Vec<u8> = Vec::new();
    out.push(0x4c);
    out.push(0x4f);
    out.push(0x47);
    out.push(0x53);
    push_u32_le(&mut out, id);
    push_u32_le(&mut out, len as u32);
    let ghost header = out@;
    proof {
        assert(header =~= chunk_magic() + u32_le_bytes(id) + u32_le_bytes(len as u32));
    }
    let dropped_chunk: usize;
    if logger.dropped == 0 {
        let mut body: Vec<u8> = vec![0u8; len];
        let _ = rb.pop_to_buf(body.as_mut_slice());
        assert(body@ =~= old(rb)@.take(len as int));
        let mut k: usize = 0;
        let ghost with_body = header + body@;
        while k < len
            invariant
                k <= len,
                len == body@.len(),
                out@ == with_body.take(header.len() + k),
            decreases len - k,
        {
            out.push(body[k]);
            assert(out@ =~= with_body.take(header.len() + k + 1));
            k = k + 1;
        }
        assert(out@ =~= with_body);
        dropped_chunk = 0;
    } else {
        let mut k: usize = 0;
        let ghost fill = Seq::new(len as nat, |i: int| 0xffu8);
        while k < len
            invariant
                k <= len,
                out@ == header + fill.take(k as int),
            decreases len - k,
        {
            out.push(0xff);
            assert(out@ =~= header + fill.take(k as int + 1));
            k = k + 1;
        }
        assert(out@ =~= header + fill);
        dropped_chunk = len;
        if len <= logger.dropped {
            logger.dropped = logger.dropped - len;
        } else {
            logger.dropped = 0;
        }
    }
    push_u32_le(&mut out, dropped_chunk as u32);
    out
}

/// One chunk decoded by the drain client.
#[derive(Clone, Debug, PartialEq, Eq)]
pub struct LogChunk {
    /// Build id the payload was produced by.
    pub id: u32,
    /// The payload bytes, sentinel fill included.
    pub payload: Vec<u8>,
    /// How many payload bytes stand for dropped data; the valid prefix of
    /// the payload is what precedes them.
    pub dropped: u32,
}

/// Size of the client's chunk receive buffer; an advertised payload length
/// beyond it is rejected.
pub const CLIENT_BUF_LEN: usize = 4096;

/// Whether `buf` starts with a complete chunk whose fields all check out.
pub open spec fn chunk_parses(buf: Seq<u8>) -> bool {
    &&& buf.len() >= 12
    &&& buf.subrange(0, 4) == chunk_magic()
    &&& le32(buf.subrange(8, 12)) <= CLIENT_BUF_LEN
    &&& buf.len() >= 16 + le32(buf.subrange(8, 12))
    &&& le32(
        buf.subrange(
            12 + le32(buf.subrange(8, 12)) as int,
            16 + le32(buf.subrange(8, 12)) as int,
        ),
    ) <= le32(buf.subrange(8, 12))
}

/// Parses the chunk at the front of `buf`: the 12-byte header, the payload
/// it announces, and the 4-byte dropped-count footer. Returns the chunk and
/// how many bytes it occupied.
#[verifier::loop_isolation(false)]
pub fn parse_chunk(buf: &[u8]) -> (r: Result<(LogChunk, usize), ChunkError>)
    ensures
        chunk_parses(buf@) ==> {
            &&& r matches Ok((c, consumed))
            &&& c.id == le32(buf@.subrange(4, 8))
            &&& c.payload@ == buf@.subrange(12, 12 + le32(buf@.subrange(8, 12)))
            &&& c.dropped == le32(
                buf@.subrange(
                    12 + le32(buf@.subrange(8, 12)) as int,
                    16 + le32(buf@.subrange(8, 12)) as int,
                ),
            )
            &&& consumed == 16 + le32(buf@.subrange(8, 12))
        },
        !chunk_parses(buf@) ==> r is Err,
        buf@.len() < 12 ==> r == Err::<(LogChunk, usize), ChunkError>(ChunkError::Truncated),
        buf@.len() >= 12 && buf@.subrange(0, 4) != chunk_magic() ==> r == Err::<
            (LogChunk, usize),
            ChunkError,
        >(ChunkError::BadMagic),
        (buf@.len() >= 12 && buf@.subrange(0, 4) == chunk_magic() && le32(buf@.subrange(8, 12))
            > CLIENT_BUF_LEN) ==> r == Err::<(LogChunk, usize), ChunkError>(ChunkError::TooLarge),
        (buf@.len() >= 12 && buf@.subrange(0, 4) == chunk_magic() && le32(buf@.subrange(8, 12))
            <= CLIENT_BUF_LEN && buf@.len() < 16 + le32(buf@.subrange(8, 12))) ==> r == Err::<
            (LogChunk, usize),
            ChunkError,
        >(ChunkError::Truncated),
        (buf@.len() >= 12 && buf@.subrange(0, 4) == chunk_magic() && le32(buf@.subrange(8, 12))
            <= CLIENT_BUF_LEN && buf@.len() >= 16 + le32(buf@.subrange(8, 12)) && le32(
            buf@.subrange(
                12 + le32(buf@.subrange(8, 12)) as int,
                16 + le32(buf@.subrange(8, 12)) as int,
            ),
        ) > le32(buf@.subrange(8, 12))) ==> r == Err::<(LogChunk, usize), ChunkError>(
            ChunkError::BadDroppedCount,
        ),
{
    if buf.len() < 12 {
        return Err(ChunkError::Truncated);
    }
    if !(buf[0] == 0x4c && buf[1] == 0x4f && buf[2] == 0x47 && buf[3] == 0x53) {
        proof {
            assert(buf@.subrange(0, 4) != chunk_magic());
        }
        return Err(ChunkError::BadMagic);
    }
    proof {
        assert(buf@.subrange(0, 4) =~= chunk_magic());
    }
    let id = read_u32_le(buf, 4);
    let bytes = read_u32_le(buf, 8);
    if bytes as usize > CLIENT_BUF_LEN {
        return Err(ChunkError::TooLarge);
    }
    if buf.len() < 16 || buf.len() - 16 < bytes as usize {
        return Err(ChunkError::Truncated);
    }
    let count = bytes as usize;
    let mut payload: Vec<u8> = Vec::new();
    let mut k: usize = 0;
    while k < count
        invariant
            k <= count,
            count + 16 <= buf@.len(),
            payload@ == buf@.subrange(12, 12 + k),
        decreases count - k,
    {
        payload.push(buf[12 + k]);
        assert(payload@ =~= buf@.subrange(12, 12 + k + 1));
        k = k + 1;
    }
    let dropped = read_u32_le(buf, 12 + count);
    if dropped > bytes {
        return Err(ChunkError::BadDroppedCount);
    }
    Ok((LogChunk { id, payload, dropped }, 16 + count))
}

/// The connection-opening decision over the persisted marker: what
/// `handle_socket` does first, atomically, under the critical section.
///
/// With nothing dropped since boot, a non-zero persisted count asks for one
/// replay chunk tagged with the previous build id. Once bytes were dropped,
/// the surviving tail is unreliable: the persisted marker is cleared under
/// the current `id`, the dropped counter is reset, and nothing is replayed.
pub fn persisted_snapshot(logger: &mut FrameLogger, rb: &mut PersistentRingBuffer, id: u32) -> (r:
    Option<(usize, u32)>)
    ensures
        old(logger).dropped == 0 ==> {
            &&& *final(rb) == *old(rb)
            &&& *final(logger) == *old(logger)
            &&& r == if old(rb).persisted != 0 {
                Some((old(rb).persisted, old(rb).id))
            } else {
                Option::<(usize, u32)>::None
            }
        },
        old(logger).dropped != 0 ==> {
            &&& r is None
            &&& *final(logger) == (FrameLogger { dropped: 0usize, ..*old(logger) })
            &&& *final(rb) == if old(rb).persisted != 0 {
                PersistentRingBuffer { persisted: 0usize, id, ..*old(rb) }
            } else {
                *old(rb)
            }
        },
{
    let persisted = rb.persisted();
    if logger.dropped == 0 {
        if persisted != 0 {
            Some((persisted, rb.id()))
        } else {
            None
        }
    } else {
        if persisted != 0 {
            rb.reset_presisted(id);
        }
        logger.dropped = 0;
        None
    }
}

/// Opens one client session over the persisted marker: when a replay is
/// owed, the pre-reset bytes leave as one chunk tagged with the previous
/// build id, and the marker is acknowledged under the current `id`.
/// Returns the replay chunk to send, if any.
pub fn replay_persisted(logger: &mut FrameLogger, rb: &mut PersistentRingBuffer, id: u32) -> (r:
    Option<Vec<u8>>)
    requires
        old(rb).wf(),
        old(rb).persisted <= old(rb).len_spec(),
        old(rb).persisted <= u32::MAX,
    ensures
        final(rb).wf(),
        final(rb).persisted == 0 || old(rb).persisted == 0,
        (old(logger).dropped == 0 && old(rb).persisted > 0) ==> {
            &&& r matches Some(chunk) && chunk@ == chunk_bytes(
                old(rb).id,
                old(rb)@.take(old(rb).persisted as int),
                0,
            )
            &&& final(rb)@ == old(rb)@.skip(old(rb).persisted as int)
            &&& final(rb).id == id
            &&& *final(logger) == *old(logger)
        },
        !(old(logger).dropped == 0 && old(rb).persisted > 0) ==> {
            &&& r is None
            &&& final(rb)@ == old(rb)@
            &&& final(rb).read == old(rb).read
            &&& final(rb).write == old(rb).write
            &&& final(rb).full == old(rb).full
            &&& final(rb).capacity == old(rb).capacity
            &&& final(rb).storage@ == old(rb).storage@
        },
        (old(logger).dropped > 0 && old(rb).persisted > 0) ==> {
            &&& final(rb).id == id
            &&& final(rb).persisted == 0
        },
        old(rb).persisted == 0 ==> *final(rb) == *old(rb),
        old(logger).dropped > 0 ==> *final(logger) == (FrameLogger {
            dropped: 0usize,
            ..*old(logger)
        }),
        old(logger).dropped == 0 && old(rb).persisted == 0 ==> *final(logger) == *old(logger),
{
    let persisted = match persisted_snapshot(logger, rb, id) {
        Some(p) => p,
        None => {
            return None;
        },
    };
    let (bytes, prev_id) = persisted;
    let chunk = build_chunk(logger, rb, prev_id, bytes);
    rb.reset_presisted(id);
    Some(chunk)
}

/// The states of one drain connection cycle.
#[derive(Clone, Copy, Debug, PartialEq, Eq, Structural)]
pub enum DrainState {
    /// Nothing in progress; the next step opens a new cycle.
    Idle,
    /// The discovery payload is being sent to the broadcast address.
    Broadcasting,
    /// Waiting for a client on the drain port, with a bounded timeout.
    Listening,
    /// One client is connected and chunks are flowing.
    Connected,
}

/// What the service observes while in a state.
#[derive(Clone, Copy, Debug, PartialEq, Eq, Structural)]
pub enum DrainEvent {
    /// The cycle starts.
    Started,
    /// The broadcast left the socket.
    BroadcastSent,
    /// A client connected.
    AcceptSucceeded,
    /// Accepting failed with an error.
    AcceptFailed,
    /// No client connected within the timeout.
    AcceptTimedOut,
    /// The ring buffer has content to send.
    DataReady,
    /// The client sent bytes; the read exists only to detect a close.
    PeerData,
    /// The client disconnected.
    PeerClosed,
    /// Sending a chunk failed.
    SendFailed,
}

/// What the service does on entering the next state.
#[derive(Clone, Copy, Debug, PartialEq, Eq, Structural)]
pub enum DrainAction {
    /// Send the discovery payload, wait briefly, close the socket.
    Broadcast,
    /// Accept one client with the bounded timeout.
    Accept,
    /// Wait out the retry delay, then broadcast again.
    Retry,
    /// Snapshot the persisted marker and replay it if owed.
    ServeClient,
    /// Build and send one chunk of the available length.
    SendChunk,
    /// Wait for ring-buffer content or a peer read.
    WaitForData,
    /// Drop the client and return to the start of the cycle.
    Disconnect,
}

/// The transition table of the connection cycle
/// `Idle -> Broadcasting -> Listening -> Connected -> Idle`. Pairs that the
/// service cannot observe have no transition.
pub open spec fn drain_step_spec(s: DrainState, e: DrainEvent) -> Option<(DrainState, DrainAction)> {
    match (s, e) {
        (DrainState::Idle, DrainEvent::Started) => Some(
            (DrainState::Broadcasting, DrainAction::Broadcast),
        ),
        (DrainState::Broadcasting, DrainEvent::BroadcastSent) => Some(
            (DrainState::Listening, DrainAction::Accept),
        ),
        (DrainState::Listening, DrainEvent::AcceptSucceeded) => Some(
            (DrainState::Connected, DrainAction::ServeClient),
        ),
        (DrainState::Listening, DrainEvent::AcceptFailed) => Some(
            (DrainState::Broadcasting, DrainAction::Retry),
        ),
        (DrainState::Listening, DrainEvent::AcceptTimedOut) => Some(
            (DrainState::Broadcasting, DrainAction::Broadcast),
        ),
        (DrainState::Connected, DrainEvent::DataReady) => Some(
            (DrainState::Connected, DrainAction::SendChunk),
        ),
        (DrainState::Connected, DrainEvent::PeerData) => Some(
            (DrainState::Connected, DrainAction::WaitForData),
        ),
        (DrainState::Connected, DrainEvent::PeerClosed) => Some(
            (DrainState::Idle, DrainAction::Disconnect),
        ),
        (DrainState::Connected, DrainEvent::SendFailed) => Some(
            (DrainState::Idle, DrainAction::Disconnect),
        ),
        _ => None,
    }
}

/// One decision of the drain service: the next state and what to do there.
/// The loop that performs the actions runs outside the library.
pub fn drain_step(s: DrainState, e: DrainEvent) -> (r: Option<(DrainState, DrainAction)>)
    ensures
        r == drain_step_spec(s, e),
{
    match (s, e) {
        (DrainState::Idle, DrainEvent::Started) => Some(
            (DrainState::Broadcasting, DrainAction::Broadcast),
        ),
        (DrainState::Broadcasting, DrainEvent::BroadcastSent) => Some(
            (DrainState::Listening, DrainAction::Accept),
        ),
        (DrainState::Listening, DrainEvent::AcceptSucceeded) => Some(
            (DrainState::Connected, DrainAction::ServeClient),
        ),
        (DrainState::Listening, DrainEvent::AcceptFailed) => Some(
            (DrainState::Broadcasting, DrainAction::Retry),
        ),
        (DrainState::Listening, DrainEvent::AcceptTimedOut) => Some(
            (DrainState::Broadcasting, DrainAction::Broadcast),
        ),
        (DrainState::Connected, DrainEvent::DataReady) => Some(
            (DrainState::Connected, DrainAction::SendChunk),
        ),
        (DrainState::Connected, DrainEvent::PeerData) => Some(
            (DrainState::Connected, DrainAction::WaitForData),
        ),
        (DrainState::Connected, DrainEvent::PeerClosed) => Some(
            (DrainState::Idle, DrainAction::Disconnect),
        ),
        (DrainState::Connected, DrainEvent::SendFailed) => Some(
            (DrainState::Idle, DrainAction::Disconnect),
        ),
        _ => None,
    }
}

} // verus!
