//! Length-prefixed framing: a payload travels as its length in four
//! big-endian bytes followed by the payload bytes. A reader refuses a length
//! above its limit before it reads the payload.

use vstd::prelude::*;

verus! {

/// Why a frame could not be written or read.
#[derive(Debug, Clone, Copy, PartialEq, Eq, Structural)]
pub enum WireError {
    /// The payload, or the length that a header announces, is above the limit.
    TooLarge,
    /// The buffer ends before the header or the payload is complete.
    Incomplete,
}

/// The four big-endian bytes of `n`.
pub open spec fn be32(n: u32) -> Seq<u8> {
    seq![(n >> 24) as u8, ((n >> 16) & 0xff) as u8, ((n >> 8) & 0xff) as u8, (n & 0xff) as u8]
}

/// The number that four big-endian bytes spell.
pub open spec fn from_be32(b0: u8, b1: u8, b2: u8, b3: u8) -> u32 {
    ((b0 as u32) << 24) | ((b1 as u32) << 16) | ((b2 as u32) << 8) | (b3 as u32)
}

/// The bytes on the wire for one payload.
pub open spec fn framed(payload: Seq<u8>) -> Seq<u8> {
    be32(payload.len() as u32) + payload
}

/// The length that the first four bytes of `buf` announce, checked against the limit.
pub open spec fn header_length(buf: Seq<u8>, max_len: usize) -> Result<nat, WireError> {
    if buf.len() < 4 {
        Err(WireError::Incomplete)
    } else {
        let n = from_be32(buf[0], buf[1], buf[2], buf[3]);
        if n > max_len {
            Err(WireError::TooLarge)
        } else {
            Ok(n as nat)
        }
    }
}

/// The first frame at the start of `buf`: its payload and the number of bytes it takes.
pub open spec fn first_frame(buf: Seq<u8>, max_len: usize) -> Result<(Seq<u8>, nat), WireError> {
    match header_length(buf, max_len) {
        Err(e) => Err(e),
        Ok(n) => if buf.len() < 4 + n {
            Err(WireError::Incomplete)
        } else {
            Ok((buf.subrange(4, 4 + n as int), 4 + n))
        },
    }
}

proof fn lemma_be32_inverse(n: u32)
    ensures
        from_be32(be32(n)[0], be32(n)[1], be32(n)[2], be32(n)[3]) == n,
{
    let b0 = (n >> 24) as u8;
    let b1 = ((n >> 16) & 0xff) as u8;
    let b2 = ((n >> 8) & 0xff) as u8;
    let b3 = (n & 0xff) as u8;
    assert(from_be32(b0, b1, b2, b3) == n) by (bit_vector)
        requires
            b0 == (n >> 24) as u8,
            b1 == ((n >> 16) & 0xff) as u8,
            b2 == ((n >> 8) & 0xff) as u8,
            b3 == (n & 0xff) as u8,
    ;
}

/// Reading back what was written gives the payload, whatever follows it.
pub proof fn lemma_frame_round_trip(payload: Seq<u8>, rest: Seq<u8>, max_len: usize)
    requires
        payload.len() <= max_len,
        max_len <= u32::MAX,
    ensures
        first_frame(framed(payload) + rest, max_len) == Ok::<(Seq<u8>, nat), WireError>(
            (payload, 4 + payload.len()),
        ),
{
    let n = payload.len() as u32;
    lemma_be32_inverse(n);
    let buf = framed(payload) + rest;
    assert(buf[0] == be32(n)[0] && buf[1] == be32(n)[1] && buf[2] == be32(n)[2] && buf[3]
        == be32(n)[3]);
    assert(buf.subrange(4, 4 + payload.len() as int) =~= payload);
}

fn be32_bytes(n: u32) -> (r: [u8; 4])
    ensures
        r@ == be32(n),
{
    let r = [(n >> 24) as u8, ((n >> 16) & 0xff) as u8, ((n >> 8) & 0xff) as u8, (n & 0xff) as u8];
    assert(r@ =~= be32(n));
    r
}

/// Frames a payload: its length in four big-endian bytes, then the payload.
/// A payload above `max_len` bytes is refused.
pub fn encode_frame(payload: &[u8], max_len: usize) -> (r: Result<Vec<u8>, WireError>)
    requires
        max_len <= u32::MAX,
    ensures
        payload@.len() > max_len ==> r == Err::<Vec<u8>, WireError>(WireError::TooLarge),
        payload@.len() <= max_len ==> (r matches Ok(bytes) && bytes@ == framed(payload@)),
{
    if payload.len() > max_len {
        return Err(WireError::TooLarge);
    }
    let header = be32_bytes(payload.len() as u32);
    let mut out: Vec<u8> = Vec::new();
    let mut i: usize = 0;
    while i < 4
        invariant
            i <= 4,
            header@ == be32(payload@.len() as u32),
            out@ =~= header@.subrange(0, i as int),
        decreases 4 - i,
    {
        out.push(header[i]);
        i = i + 1;
    }
    let mut j: usize = 0;
    while j < payload.len()
        invariant
            j <= payload@.len(),
            out@ =~= header@ + payload@.subrange(0, j as int),
        decreases payload@.len() - j,
    {
        out.push(payload[j]);
        j = j + 1;
    }
    assert(payload@.subrange(0, payload@.len() as int) =~= payload@);
    Ok(out)
}

/// The payload length that a header announces, refused when above `max_len`.
pub fn frame_length(header: &[u8], max_len: usize) -> (r: Result<usize, WireError>)
    ensures
        match (r, header_length(header@, max_len)) {
            (Ok(n), Ok(m)) => n == m,
            (Err(e), Err(f)) => e == f,
            _ => false,
        },
{
    if header.len() < 4 {
        return Err(WireError::Incomplete);
    }
    let n = ((header[0] as u32) << 24) | ((header[1] as u32) << 16) | ((header[2] as u32) << 8)
        | (header[3] as u32);
    if n as usize > max_len {
        return Err(WireError::TooLarge);
    }
    Ok(n as usize)
}

/// Reads the first frame of a buffer: its payload and how many bytes it took.
pub fn decode_frame(buf: &[u8], max_len: usize) -> (r: Result<(Vec<u8>, usize), WireError>)
    ensures
        match (r, first_frame(buf@, max_len)) {
            (Ok((payload, used)), Ok((p, u))) => payload@ == p && used == u,
            (Err(e), Err(f)) => e == f,
            _ => false,
        },
{
    let n = match frame_length(buf, max_len) {
        Ok(n) => n,
        Err(e) => return Err(e),
    };
    if buf.len() - 4 < n {
        return Err(WireError::Incomplete);
    }
    let total = buf.len();
    let mut payload: Vec<u8> = Vec::new();
    let mut i: usize = 0;
    while i < n
        invariant
            total == buf@.len(),
            i <= n,
            4 + n <= buf@.len(),
            payload@ =~= buf@.subrange(4, 4 + i),
        decreases n - i,
    {
        payload.push(buf[4 + i]);
        i = i + 1;
    }
    Ok((payload, 4 + n))
}

} // verus!
