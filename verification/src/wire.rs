//! How messages travel on a connection: a four-byte big-endian length,
//! then the encoded message.
use vstd::prelude::*;
use crate::rafka_core::Error;

verus! {

/// The four bytes of `n` (below 2^32), most significant first.
pub open spec fn be32(n: int) -> Seq<u8> {
    seq![
        ((n / 0x100_0000) % 0x100) as u8,
        ((n / 0x1_0000) % 0x100) as u8,
        ((n / 0x100) % 0x100) as u8,
        (n % 0x100) as u8,
    ]
}

/// The number whose big-endian bytes are the first four of `b`.
pub open spec fn from_be32(b: Seq<u8>) -> int {
    b[0] as int * 0x100_0000 + b[1] as int * 0x1_0000 + b[2] as int * 0x100 + b[3] as int
}

/// Reading back the bytes that `be32` writes gives the number written.
pub proof fn lemma_be32_roundtrip(n: int)
    requires
        0 <= n < 0x1_0000_0000,
    ensures
        from_be32(be32(n)) == n,
{
    let b = be32(n);
    assert(b[0] as int == (n / 0x100_0000) % 0x100);
    assert(b[1] as int == (n / 0x1_0000) % 0x100);
    assert(b[2] as int == (n / 0x100) % 0x100);
    assert(b[3] as int == n % 0x100);
    assert((n / 0x100_0000) % 0x100 * 0x100_0000 + (n / 0x1_0000) % 0x100 * 0x1_0000
        + (n / 0x100) % 0x100 * 0x100 + n % 0x100 == n) by (nonlinear_arith)
        requires 0 <= n < 0x1_0000_0000;
}

/// `u32::to_be_bytes`.
pub fn u32_to_be(n: u32) -> (b: Vec<u8>)
    ensures
        b@ == be32(n as int),
{
    let mut b: Vec<u8> = Vec::new();
    b.push(((n / 0x100_0000) % 0x100) as u8);
    b.push(((n / 0x1_0000) % 0x100) as u8);
    b.push(((n / 0x100) % 0x100) as u8);
    b.push((n % 0x100) as u8);
    assert(b@ =~= be32(n as int));
    b
}

/// `u32::from_be_bytes` of the first four bytes of `b`.
pub fn u32_from_be(b: &[u8]) -> (n: u32)
    requires
        b@.len() >= 4,
    ensures
        n as int == from_be32(b@),
{
    let b0 = b[0] as u32;
    let b1 = b[1] as u32;
    let b2 = b[2] as u32;
    let b3 = b[3] as u32;
    b0 * 0x100_0000 + b1 * 0x1_0000 + b2 * 0x100 + b3
}

/// A length prefix followed by `payload`; the prefix holds the length
/// modulo 2^32, as a `usize as u32` cast leaves it.
pub open spec fn framed(payload: Seq<u8>) -> Seq<u8> {
    be32(payload.len() as int % 0x1_0000_0000) + payload
}

/// Copies `payload` behind its length, as a sender writes a message.
pub fn frame(payload: &[u8]) -> (r: Vec<u8>)
    ensures
        r@ == framed(payload@),
{
    let len = payload.len();
    let prefix: u32 = (len as u64 % 0x1_0000_0000) as u32;
    let mut r = u32_to_be(prefix);
    let mut i: usize = 0;
    let ghost head = r@;
    while i < payload.len()
        invariant
            i <= payload@.len(),
            r@ == head + payload@.take(i as int),
        decreases payload@.len() - i,
    {
        r.push(payload[i]);
        assert(payload@.take(i + 1) =~= payload@.take(i as int).push(payload@[i as int]));
        i = i + 1;
    }
    assert(payload@.take(payload@.len() as int) =~= payload@);
    r
}

/// A frame cut from the front of a buffer: its bytes, and how many bytes
/// of the buffer it took with its length.
#[derive(Clone, Debug, PartialEq, Eq)]
pub struct Frame {
    pub bytes: Vec<u8>,
    pub consumed: usize,
}

/// Cuts the first frame from `src`: nothing while fewer than four bytes or
/// fewer than the announced length have arrived; an error when the
/// announced length is above `max_frame_size`.
pub open spec fn decode_spec(src: Seq<u8>, max_frame_size: int) -> Result<Option<(Seq<u8>, int)>, (int, int)> {
    if src.len() < 4 {
        Ok(None)
    } else if from_be32(src) > max_frame_size {
        Err((from_be32(src), max_frame_size))
    } else if src.len() < 4 + from_be32(src) {
        Ok(None)
    } else {
        Ok(Some((src.subrange(4, 4 + from_be32(src)), 4 + from_be32(src))))
    }
}

/// Reads the frames of a connection, refusing those above a size.
pub struct MessageCodec {
    pub max_frame_size: usize,
}

impl MessageCodec {
    pub fn new(max_frame_size: usize) -> (c: MessageCodec)
        ensures
            c.max_frame_size == max_frame_size,
    {
        MessageCodec { max_frame_size }
    }

    /// The first frame of `src`, as `decode_spec` cuts it; a frame too
    /// large is `Error::MessageTooLarge` with its size and the limit.
    pub fn decode(&self, src: &[u8]) -> (r: Result<Option<Frame>, Error>)
        ensures
            match (r, decode_spec(src@, self.max_frame_size as int)) {
                (Ok(None), Ok(None)) => true,
                (Ok(Some(f)), Ok(Some((bytes, consumed)))) => f.bytes@ == bytes && f.consumed == consumed,
                (Err(e), Err((size, max))) => e == Error::MessageTooLarge { size: size as usize, max: max as usize },
                _ => false,
            },
    {
        if src.len() < 4 {
            return Ok(None);
        }
        let size = u32_from_be(src) as usize;
        if size > self.max_frame_size {
            return Err(Error::MessageTooLarge { size, max: self.max_frame_size });
        }
        if src.len() - 4 < size {
            return Ok(None);
        }
        let mut bytes: Vec<u8> = Vec::new();
        let mut i: usize = 0;
        let n = src.len();
        while i < size
            invariant
                i <= size,
                n == src@.len(),
                4 + size <= src@.len(),
                bytes@ == src@.subrange(4, 4 + i as int),
            decreases size - i,
        {
            bytes.push(src[4 + i]);
            assert(src@.subrange(4, 4 + i + 1) =~= src@.subrange(4, 4 + i as int).push(src@[4 + i as int]));
            i = i + 1;
        }
        Ok(Some(Frame { bytes, consumed: 4 + size }))
    }
}

/// A frame written by `frame` is read back whole by `decode`, when it fits
/// the limit: the payload comes out, and the frame's bytes are consumed.
pub proof fn lemma_decode_of_frame(payload: Seq<u8>, max_frame_size: int)
    requires
        payload.len() < 0x1_0000_0000,
        payload.len() <= max_frame_size,
    ensures
        decode_spec(framed(payload), max_frame_size) == Ok::<Option<(Seq<u8>, int)>, (int, int)>(Some((payload, 4 + payload.len() as int))),
{
    let f = framed(payload);
    lemma_be32_roundtrip(payload.len() as int);
    assert(payload.len() as int % 0x1_0000_0000 == payload.len());
    assert(f.subrange(0, 4) =~= be32(payload.len() as int));
    assert(from_be32(f) == from_be32(be32(payload.len() as int)));
    assert(f.subrange(4, 4 + payload.len() as int) =~= payload);
}

} // verus!
