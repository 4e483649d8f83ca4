//! Length-prefixed wire framing.
//!
//! Every message set on every connection, whatever its inner encoding,
//! travels inside a frame: a 4-byte little-endian length header followed by
//! exactly that many payload bytes. Frames whose announced payload exceeds
//! [`MAX_FRAME_LEN`] are rejected as malformed, which is the connection-level
//! decode error of the wire protocol.

use vstd::bytes::{
    lemma_auto_spec_u32_to_from_le_bytes, spec_u32_from_le_bytes, spec_u32_to_le_bytes,
    u32_from_le_bytes, u32_to_le_bytes,
};
use vstd::prelude::*;
use vstd::slice::{slice_subrange, slice_to_vec};

verus! {

/// The largest payload a single frame may announce, in bytes.
pub const MAX_FRAME_LEN: u32 = 8 * 1024 * 1024;

/// The number of bytes in a frame's length header.
pub const HEADER_LEN: usize = 4;

/// A framing-level decode failure: the only way raw bytes can be rejected
/// before their payload is even looked at.
#[derive(Clone, Copy, Debug, PartialEq, Eq, Structural)]
pub enum FrameError {
    /// The header announces a payload longer than `MAX_FRAME_LEN`.
    Oversize,
}

/// What one decoding step found at the front of a receive buffer.
#[derive(Clone, Debug, PartialEq, Eq)]
pub enum FrameStep {
    /// The buffer does not yet hold a whole frame; more bytes are needed.
    Incomplete,
    /// A whole frame: its payload, and how many bytes of the buffer it used.
    Frame(Vec<u8>, usize),
}

/// The bytes of the frame that carries `payload`.
pub open spec fn spec_frame(payload: Seq<u8>) -> Seq<u8>
    recommends
        payload.len() <= MAX_FRAME_LEN,
{
    spec_u32_to_le_bytes(payload.len() as u32) + payload
}

/// Wraps a payload in a length-prefixed frame.
pub fn encode_frame(payload: &[u8]) -> (r: Vec<u8>)
    requires
        payload@.len() <= MAX_FRAME_LEN,
    ensures
        r@ == spec_frame(payload@),
        r@.len() == HEADER_LEN + payload@.len(),
{
    proof {
        lemma_auto_spec_u32_to_from_le_bytes();
    }
    let mut out = u32_to_le_bytes(payload.len() as u32);
    out.extend_from_slice(payload);
    out
}

/// Tries to take one frame off the front of a receive buffer.
///
/// Returns the payload and the number of bytes consumed when a whole frame is
/// present, `Incomplete` when more bytes are needed, and `Oversize` when the
/// header announces more than `MAX_FRAME_LEN` payload bytes.
pub fn decode_frame(buf: &[u8]) -> (r: Result<FrameStep, FrameError>)
    ensures
        buf@.len() < HEADER_LEN ==> (r matches Ok(s) && s is Incomplete),
        buf@.len() >= HEADER_LEN ==> {
            let n = spec_u32_from_le_bytes(buf@.subrange(0, HEADER_LEN as int)) as int;
            &&& n > MAX_FRAME_LEN ==> (r matches Err(e) && e == FrameError::Oversize)
            &&& n <= MAX_FRAME_LEN && buf@.len() < HEADER_LEN + n ==> (r matches Ok(s)
                && s is Incomplete)
            &&& n <= MAX_FRAME_LEN && buf@.len() >= HEADER_LEN + n ==> (r matches Ok(s)
                && (s matches FrameStep::Frame(p, c) && p@ == buf@.subrange(
                HEADER_LEN as int,
                HEADER_LEN + n,
            ) && c == HEADER_LEN + n))
        },
{
    if buf.len() < HEADER_LEN {
        return Ok(FrameStep::Incomplete);
    }
    let header = slice_subrange(buf, 0, HEADER_LEN);
    let n32 = u32_from_le_bytes(header);
    if n32 > MAX_FRAME_LEN {
        return Err(FrameError::Oversize);
    }
    let n = n32 as usize;
    if buf.len() - HEADER_LEN < n {
        return Ok(FrameStep::Incomplete);
    }
    let payload_slice = slice_subrange(buf, HEADER_LEN, HEADER_LEN + n);
    let payload = slice_to_vec(payload_slice);
    Ok(FrameStep::Frame(payload, HEADER_LEN + n))
}

/// Framing round trip: a frame built from `payload`, followed by any trailing
/// bytes, decodes back to exactly `payload`, consuming exactly the frame.
pub proof fn lemma_frame_round_trip(payload: Seq<u8>, rest: Seq<u8>)
    requires
        payload.len() <= MAX_FRAME_LEN,
    ensures
        ({
            let b = spec_frame(payload) + rest;
            &&& b.len() >= HEADER_LEN
            &&& spec_u32_from_le_bytes(b.subrange(0, HEADER_LEN as int)) == payload.len()
            &&& payload.len() <= MAX_FRAME_LEN
            &&& b.len() >= HEADER_LEN + payload.len()
            &&& b.subrange(HEADER_LEN as int, HEADER_LEN + payload.len() as int) == payload
        }),
{
    lemma_auto_spec_u32_to_from_le_bytes();
    let b = spec_frame(payload) + rest;
    assert(b.subrange(0, HEADER_LEN as int) =~= spec_u32_to_le_bytes(payload.len() as u32));
    assert(b.subrange(HEADER_LEN as int, HEADER_LEN + payload.len() as int) =~= payload);
}

} // verus!

verus! {

/// A per-connection receive buffer: reassembles length-prefixed frames out
/// of arbitrarily chopped byte chunks. The receive loop feeds it whatever
/// the transport delivers and takes whole frames off the front; an oversize
/// header is a fatal decode error for the connection.
pub struct RecvBuffer {
    pub buf: Vec<u8>,
}

impl RecvBuffer {
    /// An empty buffer.
    pub fn new() -> (r: RecvBuffer)
        ensures
            r.buf@.len() == 0,
    {
        RecvBuffer { buf: Vec::new() }
    }

    /// Appends one received chunk.
    pub fn feed(&mut self, chunk: &[u8])
        ensures
            final(self).buf@ == old(self).buf@ + chunk@,
    {
        self.buf.extend_from_slice(chunk);
    }

    /// Takes the frame at the front, if a whole one has arrived: its payload
    /// leaves the buffer together with its header. `None` asks for more
    /// bytes; `Oversize` is fatal and leaves the buffer untouched.
    pub fn next_frame(&mut self) -> (r: Result<Option<Vec<u8>>, FrameError>)
        ensures
            old(self).buf@.len() < HEADER_LEN ==> r == Ok::<Option<Vec<u8>>, FrameError>(None)
                && final(self).buf@ == old(self).buf@,
            old(self).buf@.len() >= HEADER_LEN ==> {
                let n = spec_u32_from_le_bytes(
                    old(self).buf@.subrange(0, HEADER_LEN as int),
                ) as int;
                &&& n > MAX_FRAME_LEN ==> r == Err::<Option<Vec<u8>>, FrameError>(
                    FrameError::Oversize,
                ) && final(self).buf@ == old(self).buf@
                &&& n <= MAX_FRAME_LEN && old(self).buf@.len() < HEADER_LEN + n ==> r == Ok::<
                    Option<Vec<u8>>,
                    FrameError,
                >(None) && final(self).buf@ == old(self).buf@
                &&& n <= MAX_FRAME_LEN && old(self).buf@.len() >= HEADER_LEN + n ==> (r matches Ok(
                    Some(p),
                ) && p@ == old(self).buf@.subrange(HEADER_LEN as int, HEADER_LEN + n)
                    && final(self).buf@ == old(self).buf@.skip(HEADER_LEN + n))
            },
    {
        let step = decode_frame(self.buf.as_slice());
        match step {
            Ok(FrameStep::Incomplete) => Ok(None),
            Ok(FrameStep::Frame(payload, consumed)) => {
                let tail = self.buf.split_off(consumed);
                self.buf = tail;
                Ok(Some(payload))
            },
            Err(e) => Err(e),
        }
    }
}

} // verus!
