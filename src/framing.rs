use vstd::prelude::*;
use crate::bytes::append_bytes;

verus! {

/// Number of bytes of the big-endian length that precedes every frame.
pub const LEN_PREFIX: usize = 4;

/// The four big-endian bytes of `n`.
#[verifier::opaque]
pub open spec fn be32_encode(n: u32) -> Seq<u8> {
    seq![(n >> 24u32) as u8, (n >> 16u32) as u8, (n >> 8u32) as u8, n as u8]
}

/// The number that four big-endian bytes stand for.
#[verifier::opaque]
pub open spec fn be32_decode(b: Seq<u8>) -> u32
    recommends
        b.len() == 4,
{
    ((b[0] as u32) << 24u32) | ((b[1] as u32) << 16u32) | ((b[2] as u32) << 8u32) | (b[3] as u32)
}

/// One frame on the wire: the payload's length, then the payload.
pub open spec fn frame_of(payload: Seq<u8>) -> Seq<u8>
    recommends
        payload.len() <= u32::MAX,
{
    be32_encode(payload.len() as u32) + payload
}

/// Four big-endian bytes read back give the number they were made from.
pub proof fn lemma_be32_round_trip(n: u32)
    ensures
        be32_encode(n).len() == 4,
        be32_decode(be32_encode(n)) == n,
{
    reveal(be32_encode);
    reveal(be32_decode);
    let b = be32_encode(n);
    let (b0, b1, b2, b3) = (b[0], b[1], b[2], b[3]);
    assert(b0 == (n >> 24u32) as u8 && b1 == (n >> 16u32) as u8 && b2 == (n >> 8u32) as u8
        && b3 == n as u8);
    assert(((((n >> 24u32) as u8) as u32) << 24u32) | ((((n >> 16u32) as u8) as u32) << 16u32)
        | ((((n >> 8u32) as u8) as u32) << 8u32) | ((n as u8) as u32) == n) by (bit_vector);
}

/// How a receiver reads a closed stream: frame after frame until fewer than
/// four bytes remain (the clean end); `None` where a declared payload runs
/// past the end of the stream.
pub open spec fn parse_stream(s: Seq<u8>) -> Option<Seq<Seq<u8>>>
    decreases s.len(),
{
    if s.len() < 4 {
        Some(Seq::empty())
    } else {
        let n = be32_decode(s.subrange(0, 4)) as int;
        if s.len() - 4 < n {
            None
        } else {
            match parse_stream(s.subrange(4 + n, s.len() as int)) {
                Some(rest) => Some(seq![s.subrange(4, 4 + n)] + rest),
                None => None,
            }
        }
    }
}

/// The stream left by writing whole frames of `payloads`, one after another.
pub open spec fn concat_frames(payloads: Seq<Seq<u8>>) -> Seq<u8>
    decreases payloads.len(),
{
    if payloads.len() == 0 {
        Seq::empty()
    } else {
        frame_of(payloads[0]) + concat_frames(payloads.drop_first())
    }
}

/// Writers that emit each (length, payload) pair as one unit may interleave
/// in any order: the stream then reads back as exactly the frames written,
/// in the order in which they went out.
pub proof fn lemma_whole_frames_read_back(payloads: Seq<Seq<u8>>)
    requires
        forall|i: int| 0 <= i < payloads.len() ==> payloads[i].len() <= u32::MAX,
    ensures
        parse_stream(concat_frames(payloads)) == Some(payloads),
    decreases payloads.len(),
{
    if payloads.len() > 0 {
        let p = payloads[0];
        let tail = payloads.drop_first();
        lemma_whole_frames_read_back(tail);
        let s = concat_frames(payloads);
        let rest = concat_frames(tail);
        let n = p.len() as int;
        lemma_be32_round_trip(p.len() as u32);
        assert(s == frame_of(p) + rest);
        assert(s.len() == 4 + n + rest.len());
        assert(s.subrange(0, 4) =~= be32_encode(p.len() as u32)) by {
            reveal(be32_encode);
        }
        assert(be32_decode(s.subrange(0, 4)) as int == n);
        assert(s.subrange(4, 4 + n) =~= p);
        assert(s.subrange(4 + n, s.len() as int) =~= rest);
        assert(seq![p] + tail =~= payloads);
    } else {
        assert(concat_frames(payloads).len() == 0);
    }
}

/// The big-endian bytes of `n`.
pub fn be32_bytes(n: u32) -> (r: Vec<u8>)
    ensures
        r@ == be32_encode(n),
{
    reveal(be32_encode);
    let r: Vec<u8> = vec![(n >> 24u32) as u8, (n >> 16u32) as u8, (n >> 8u32) as u8, n as u8];
    assert(r@ =~= be32_encode(n));
    r
}

/// Reads the length of the next frame. Fewer than four bytes before the stream
/// closed is the clean end of a transfer, given as `None`.
pub fn frame_length(prefix: &[u8]) -> (r: Option<u32>)
    ensures
        prefix@.len() < 4 <==> r is None,
        r matches Some(n) ==> n == be32_decode(prefix@.subrange(0, 4)),
{
    if prefix.len() < LEN_PREFIX {
        None
    } else {
        let n: u32 = ((prefix[0] as u32) << 24u32) | ((prefix[1] as u32) << 16u32) | ((
        prefix[2] as u32) << 8u32) | (prefix[3] as u32);
        proof {
            reveal(be32_decode);
        }
        let ghost s = prefix@.subrange(0, 4);
        assert(s[0] == prefix@[0] && s[1] == prefix@[1] && s[2] == prefix@[2] && s[3]
            == prefix@[3]);
        Some(n)
    }
}

/// Prefixes `payload` with its length, making one indivisible wire unit.
pub fn encode_frame(payload: &[u8]) -> (r: Vec<u8>)
    requires
        payload@.len() <= u32::MAX,
    ensures
        r@ == frame_of(payload@),
{
    let mut r = be32_bytes(payload.len() as u32);
    append_bytes(&mut r, payload);
    r
}

} // verus!
