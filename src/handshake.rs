use vstd::prelude::*;
use crate::crypto::KEY_LEN;
use crate::framing::{be32_decode, encode_frame, frame_length, frame_of};
use crate::transfer::TransferError;

verus! {

/// The first frame of every connection: the session key, length first.
pub fn key_frame(key: &[u8]) -> (r: Vec<u8>)
    requires
        key@.len() == KEY_LEN,
    ensures
        r@ == frame_of(key@),
{
    encode_frame(key)
}

/// Checks the length that opens a connection: it must be read whole and
/// announce a key of exactly `KEY_LEN` bytes.
pub fn key_length(prefix: &[u8]) -> (r: Result<usize, TransferError>)
    ensures
        r is Ok <==> prefix@.len() >= 4 && be32_decode(prefix@.subrange(0, 4)) == KEY_LEN,
        r matches Ok(n) ==> n == KEY_LEN,
        r matches Err(e) ==> e == TransferError::HandshakeError,
{
    match frame_length(prefix) {
        Some(n) => {
            if n as usize == KEY_LEN {
                Ok(KEY_LEN)
            } else {
                Err(TransferError::HandshakeError)
            }
        },
        None => Err(TransferError::HandshakeError),
    }
}

/// Takes the key bytes read after the length: a short read is fatal.
pub fn accept_key(got: &[u8]) -> (r: Result<Vec<u8>, TransferError>)
    ensures
        r is Ok <==> got@.len() == KEY_LEN,
        r matches Ok(k) ==> k@ == got@,
        r matches Err(e) ==> e == TransferError::HandshakeError,
{
    if got.len() == KEY_LEN {
        let k = crate::bytes::copy_range(got, 0, KEY_LEN);
        assert(k@ =~= got@);
        Ok(k)
    } else {
        Err(TransferError::HandshakeError)
    }
}

} // verus!
