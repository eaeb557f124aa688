//! Frame codec: `[length: u32 little-endian][payload: length bytes]`.

use byteorder::{ByteOrder, LittleEndian};
use vstd::prelude::*;
use vstd::slice::{slice_subrange, slice_to_vec};

verus! {

/// Number of bytes of the length prefix in front of every payload.
pub const HEADER_LEN: usize = 4;

/// Why a frame could not be taken from, or put on, a connection. Either one
/// is terminal for the connection.
#[derive(Clone, Copy, Debug, PartialEq, Eq, Structural)]
pub enum FrameError {
    /// The stream ended before the header or the declared payload was complete.
    ShortRead,
    /// The transport failed while reading or writing.
    IoError,
}

/// The number that four bytes spell in little-endian order.
pub open spec fn le_u32(b: Seq<u8>) -> int
    recommends
        b.len() >= 4,
{
    b[0] as int + 256 * (b[1] as int) + 65536 * (b[2] as int) + 16777216 * (b[3] as int)
}

/// The four bytes that spell `n` in little-endian order.
pub open spec fn le_bytes(n: u32) -> Seq<u8> {
    seq![
        (n % 256) as u8,
        ((n / 256) % 256) as u8,
        ((n / 65536) % 256) as u8,
        ((n / 16777216) % 256) as u8,
    ]
}

/// The bytes of the frame that carries `payload`.
pub open spec fn frame_of(payload: Seq<u8>) -> Seq<u8>
    recommends
        payload.len() <= u32::MAX,
{
    le_bytes(payload.len() as u32) + payload
}

/// The first frame of `stream`: its payload and the number of bytes it takes
/// up, or `None` when the stream stops short of a whole frame.
pub open spec fn first_frame(stream: Seq<u8>) -> Option<(Seq<u8>, int)> {
    if stream.len() < 4 {
        None
    } else {
        let n = le_u32(stream.subrange(0, 4));
        if stream.len() < 4 + n {
            None
        } else {
            Some((stream.subrange(4, 4 + n), 4 + n))
        }
    }
}

/// `byteorder::LittleEndian::read_u32`: the first four bytes of `buf` read as
/// a little-endian number. It panics on a shorter buffer, which `requires`
/// leaves out.
#[verifier::external_body]
pub(crate) fn read_u32_le(buf: &[u8]) -> (n: u32)
    requires
        buf@.len() >= 4,
    ensures
        n as int == le_u32(buf@),
{
    LittleEndian::read_u32(buf)
}

/// `byteorder::LittleEndian::write_u32` on a fresh four-byte buffer: the
/// little-endian bytes of `n`.
#[verifier::external_body]
pub(crate) fn write_u32_le(n: u32) -> (buf: [u8; 4])
    ensures
        buf@ == le_bytes(n),
{
    let mut buf = [0u8; 4];
    LittleEndian::write_u32(&mut buf, n);
    buf
}

/// Appends `data` to `out`.
pub fn append_bytes(out: &mut Vec<u8>, data: &[u8])
    ensures
        final(out)@ == old(out)@ + data@,
{
    let mut i: usize = 0;
    while i < data.len()
        invariant
            i <= data@.len(),
            out@ == old(out)@ + data@.subrange(0, i as int),
        decreases data@.len() - i,
    {
        out.push(data[i]);
        i += 1;
    }
    assert(data@.subrange(0, i as int) == data@);
}

/// The payload length that a four-byte header declares.
pub fn payload_length(header: &[u8; 4]) -> (n: u32)
    ensures
        n as int == le_u32(header@),
{
    read_u32_le(header.as_slice())
}

/// Builds the frame for `payload`: the little-endian length, then the payload.
pub fn write_frame(payload: &[u8]) -> (out: Vec<u8>)
    requires
        payload@.len() <= u32::MAX,
    ensures
        out@ == frame_of(payload@),
        first_frame(out@) == Some((payload@, out@.len() as int)),
{
    proof {
        lemma_frame_round_trip(payload@, Seq::empty());
        lemma_le_round_trip(payload@.len() as u32);
        assert(frame_of(payload@) + Seq::<u8>::empty() =~= frame_of(payload@));
    }
    let header = write_u32_le(payload.len() as u32);
    let mut out: Vec<u8> = Vec::new();
    append_bytes(&mut out, header.as_slice());
    append_bytes(&mut out, payload);
    out
}

/// Takes the first frame off `stream`, which holds everything the connection
/// delivered before it stopped. Returns the payload and the number of bytes
/// consumed, or `ShortRead` when the header or the payload is incomplete.
pub fn read_frame(stream: &[u8]) -> (r: Result<(Vec<u8>, usize), FrameError>)
    ensures
        match r {
            Ok((payload, used)) => first_frame(stream@) == Some((payload@, used as int)),
            Err(e) => first_frame(stream@) is None && e == FrameError::ShortRead,
        },
{
    if stream.len() < 4 {
        return Err(FrameError::ShortRead);
    }
    let declared = read_u32_le(slice_subrange(stream, 0, 4)) as usize;
    if stream.len() - 4 < declared {
        return Err(FrameError::ShortRead);
    }
    let payload = slice_to_vec(slice_subrange(stream, 4, 4 + declared));
    Ok((payload, 4 + declared))
}

/// The number spelled by the little-endian bytes of `n` is `n`.
pub proof fn lemma_le_round_trip(n: u32)
    ensures
        le_bytes(n).len() == 4,
        le_u32(le_bytes(n)) == n,
{
}

/// Reading what `write_frame` wrote gives back exactly the payload, whatever
/// follows the frame on the stream.
pub proof fn lemma_frame_round_trip(payload: Seq<u8>, rest: Seq<u8>)
    requires
        payload.len() <= u32::MAX,
    ensures
        first_frame(frame_of(payload) + rest) == Some((payload, 4 + payload.len() as int)),
{
    let stream = frame_of(payload) + rest;
    lemma_le_round_trip(payload.len() as u32);
    assert(stream.subrange(0, 4) == le_bytes(payload.len() as u32));
    assert(stream.subrange(4, 4 + payload.len() as int) == payload);
}

/// A frame cut short by even one byte is never read as a frame.
pub proof fn lemma_truncated_frame_is_short(payload: Seq<u8>, kept: int)
    requires
        payload.len() <= u32::MAX,
        0 <= kept < frame_of(payload).len(),
    ensures
        first_frame(frame_of(payload).subrange(0, kept)) is None,
{
    let cut = frame_of(payload).subrange(0, kept);
    lemma_le_round_trip(payload.len() as u32);
    if kept >= 4 {
        assert(cut.subrange(0, 4) == le_bytes(payload.len() as u32));
    }
}

} // verus!
