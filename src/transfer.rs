use vstd::prelude::*;
use crate::bytes::{append_bytes, copy_range};
use crate::crypto::{
    decrypt_chunk, encrypt_chunk, open_result, sealed_chunk, ChunkError, KEY_LEN, MAC_LEN,
    NONCE_LEN, TAG_LEN,
};
use crate::framing::{be32_decode, encode_frame, frame_of, lemma_be32_round_trip};

verus! {

/// Length of the destination offset that leads every chunk's plaintext.
pub const OFFSET_LEN: usize = 8;

/// Why a transfer was abandoned.
#[derive(Debug, Clone, Copy, PartialEq, Eq, Structural)]
pub enum TransferError {
    /// The connection to the peer could not be made.
    ConnectError,
    /// No connection could be accepted.
    AcceptError,
    /// The key exchange was short or malformed.
    HandshakeError,
    /// The stream closed inside a frame's payload.
    FramingError,
    /// A chunk's MAC did not match, on every try.
    MacVerificationFailed,
    /// A chunk failed AES-GCM decryption, on every try.
    DecryptionFailed,
    /// A chunk was too short to hold what it must.
    ChunkTooSmall,
    /// Reading or writing a local file failed.
    IoError,
    /// Writing a chunk failed on every try.
    SendFailed,
}

/// The transfer error for a chunk that did not open.
pub open spec fn chunk_failure(e: ChunkError) -> TransferError {
    match e {
        ChunkError::ChunkTooSmall => TransferError::ChunkTooSmall,
        ChunkError::MacVerificationFailed => TransferError::MacVerificationFailed,
        ChunkError::DecryptionFailed => TransferError::DecryptionFailed,
    }
}

/// The eight big-endian bytes of `n`.
#[verifier::opaque]
pub open spec fn be64_encode(n: u64) -> Seq<u8> {
    seq![
        (n >> 56u64) as u8,
        (n >> 48u64) as u8,
        (n >> 40u64) as u8,
        (n >> 32u64) as u8,
        (n >> 24u64) as u8,
        (n >> 16u64) as u8,
        (n >> 8u64) as u8,
        n as u8,
    ]
}

/// The number that eight big-endian bytes stand for.
#[verifier::opaque]
pub open spec fn be64_decode(b: Seq<u8>) -> u64
    recommends
        b.len() == 8,
{
    ((b[0] as u64) << 56u64) | ((b[1] as u64) << 48u64) | ((b[2] as u64) << 40u64) | ((
    b[3] as u64) << 32u64) | ((b[4] as u64) << 24u64) | ((b[5] as u64) << 16u64) | ((
    b[6] as u64) << 8u64) | (b[7] as u64)
}

/// Eight big-endian bytes read back give the number they were made from.
pub proof fn lemma_be64_round_trip(n: u64)
    ensures
        be64_encode(n).len() == 8,
        be64_decode(be64_encode(n)) == n,
{
    reveal(be64_encode);
    reveal(be64_decode);
    assert(((((n >> 56u64) as u8) as u64) << 56u64) | ((((n >> 48u64) as u8) as u64) << 48u64)
        | ((((n >> 40u64) as u8) as u64) << 40u64) | ((((n >> 32u64) as u8) as u64) << 32u64)
        | ((((n >> 24u64) as u8) as u64) << 24u64) | ((((n >> 16u64) as u8) as u64) << 16u64)
        | ((((n >> 8u64) as u8) as u64) << 8u64) | ((n as u8) as u64) == n) by (bit_vector);
}

/// The plaintext sealed for one chunk: its destination offset in the file,
/// then its bytes. The offset travels authenticated, so that chunks may
/// arrive in any order.
pub open spec fn chunk_message(offset: u64, data: Seq<u8>) -> Seq<u8> {
    be64_encode(offset) + data
}

/// A chunk's destination offset and bytes, read back from its plaintext.
pub open spec fn placement_of(message: Seq<u8>) -> Result<(u64, Seq<u8>), TransferError> {
    if message.len() < OFFSET_LEN {
        Err(TransferError::ChunkTooSmall)
    } else {
        Ok(
            (
                be64_decode(message.subrange(0, OFFSET_LEN as int)),
                message.subrange(OFFSET_LEN as int, message.len() as int),
            ),
        )
    }
}

/// What the receiver makes of the payload read after a length of `declared`:
/// a short read is a framing error; else the chunk is opened under `key` and
/// its offset and bytes are read from the plaintext.
pub open spec fn receive_result(key: Seq<u8>, declared: u32, payload: Seq<u8>) -> Result<
    (u64, Seq<u8>),
    TransferError,
> {
    if payload.len() != declared {
        Err(TransferError::FramingError)
    } else {
        match open_result(key, payload) {
            Ok(m) => placement_of(m),
            Err(e) => Err(chunk_failure(e)),
        }
    }
}

/// A decrypted chunk and where in the output file it goes.
#[derive(Debug, PartialEq, Eq)]
pub struct Placement {
    pub offset: u64,
    pub data: Vec<u8>,
}

/// A placement read as its offset and the sequence of its bytes.
pub open spec fn placement_view(r: Result<Placement, TransferError>) -> Result<
    (u64, Seq<u8>),
    TransferError,
> {
    match r {
        Ok(p) => Ok((p.offset, p.data@)),
        Err(e) => Err(e),
    }
}

/// The big-endian bytes of `n`.
pub fn be64_bytes(n: u64) -> (r: Vec<u8>)
    ensures
        r@ == be64_encode(n),
{
    reveal(be64_encode);
    let r: Vec<u8> = vec![
        (n >> 56u64) as u8,
        (n >> 48u64) as u8,
        (n >> 40u64) as u8,
        (n >> 32u64) as u8,
        (n >> 24u64) as u8,
        (n >> 16u64) as u8,
        (n >> 8u64) as u8,
        n as u8,
    ];
    assert(r@ =~= be64_encode(n));
    r
}

/// Reads the destination offset and the bytes of a chunk from its plaintext.
pub fn read_placement(message: &[u8]) -> (r: Result<Placement, TransferError>)
    ensures
        placement_view(r) == placement_of(message@),
{
    if message.len() < OFFSET_LEN {
        return Err(TransferError::ChunkTooSmall);
    }
    let m = message;
    let offset: u64 = ((m[0] as u64) << 56u64) | ((m[1] as u64) << 48u64) | ((m[2] as u64)
        << 40u64) | ((m[3] as u64) << 32u64) | ((m[4] as u64) << 24u64) | ((m[5] as u64)
        << 16u64) | ((m[6] as u64) << 8u64) | (m[7] as u64);
    proof {
        reveal(be64_decode);
        let h = message@.subrange(0, 8);
        assert(h[0] == m@[0] && h[1] == m@[1] && h[2] == m@[2] && h[3] == m@[3]);
        assert(h[4] == m@[4] && h[5] == m@[5] && h[6] == m@[6] && h[7] == m@[7]);
    }
    let data = copy_range(message, OFFSET_LEN, message.len());
    Ok(Placement { offset, data })
}

/// Most bytes of file data that one chunk may carry: its frame's length
/// must fit in the four-byte prefix.
pub const MAX_CHUNK_DATA: usize = 4294967227;

/// The transfer error for a chunk that did not open.
pub fn chunk_failure_of(e: ChunkError) -> (r: TransferError)
    ensures
        r == chunk_failure(e),
{
    match e {
        ChunkError::ChunkTooSmall => TransferError::ChunkTooSmall,
        ChunkError::MacVerificationFailed => TransferError::MacVerificationFailed,
        ChunkError::DecryptionFailed => TransferError::DecryptionFailed,
    }
}

/// A worker's unit of sending: the frame for the chunk of `data` that goes
/// to `offset`, sealed under `key` with a fresh nonce. Whatever nonce is
/// drawn, the receiver reads back exactly that offset and those bytes.
pub fn seal_chunk(key: &[u8], offset: u64, data: &[u8]) -> (r: Vec<u8>)
    requires
        key@.len() == KEY_LEN,
        data@.len() <= MAX_CHUNK_DATA,
    ensures
        exists|nonce: Seq<u8>|
            nonce.len() == NONCE_LEN && r@ == frame_of(
                #[trigger] sealed_chunk(key@, nonce, chunk_message(offset, data@)),
            ),
        r@.len() == data@.len() + OFFSET_LEN + NONCE_LEN + TAG_LEN + MAC_LEN + 4,
        be32_decode(r@.subrange(0, 4)) == r@.len() - 4,
        receive_result(key@, (r@.len() - 4) as u32, r@.subrange(4, r@.len() as int)) == Ok::<
            (u64, Seq<u8>),
            TransferError,
        >((offset, data@)),
{
    let mut message = be64_bytes(offset);
    append_bytes(&mut message, data);
    proof {
        lemma_be64_round_trip(offset);
    }
    let sealed = encrypt_chunk(key, message.as_slice());
    let r = encode_frame(sealed.as_slice());
    proof {
        let m = chunk_message(offset, data@);
        assert(message@ == m);
        lemma_be32_round_trip(sealed@.len() as u32);
        assert(r@.subrange(0, 4) =~= crate::framing::be32_encode(sealed@.len() as u32));
        assert(r@.subrange(4, r@.len() as int) =~= sealed@);
        assert(m.subrange(0, 8) =~= be64_encode(offset));
        assert(m.subrange(8, m.len() as int) =~= data@);
        let nonce = choose|nonce: Seq<u8>|
            nonce.len() == NONCE_LEN && sealed@ == #[trigger] sealed_chunk(key@, nonce, m);
        assert(r@ == frame_of(sealed_chunk(key@, nonce, m)));
    }
    r
}

/// A receiver's unit of work: takes the payload read after a length of
/// `declared`, opens it, retrying the opening up to `max_retries` times, and
/// says where its bytes go. Opening is a function of key and bytes, so the
/// retries change no outcome; they are bounded, so a bad chunk is fatal
/// after `max_retries + 1` tries.
pub fn receive_chunk(key: &[u8], declared: u32, payload: &[u8], max_retries: u8) -> (r: Result<
    Placement,
    TransferError,
>)
    requires
        key@.len() == KEY_LEN,
    ensures
        placement_view(r) == receive_result(key@, declared, payload@),
{
    if payload.len() != declared as usize {
        return Err(TransferError::FramingError);
    }
    let mut retries: u8 = 0;
    loop
        invariant
            key@.len() == KEY_LEN,
            payload@.len() == declared,
            retries <= max_retries,
        decreases max_retries - retries,
    {
        match decrypt_chunk(key, payload) {
            Ok(message) => {
                return read_placement(message.as_slice());
            },
            Err(e) => {
                match crate::retry::after_failure(retries, max_retries) {
                    Some(n) => {
                        retries = n;
                    },
                    None => {
                        return Err(chunk_failure_of(e));
                    },
                }
            },
        }
    }
}

} // verus!
