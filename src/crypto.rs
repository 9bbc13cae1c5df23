use vstd::prelude::*;
use aes_gcm::aead::{Aead, KeyInit};
use aes_gcm::{Aes256Gcm, Nonce};
use hmac::{Hmac, Mac};
use rand::Rng;
use sha2::Sha256;
use crate::bytes::{append_bytes, copy_range};

verus! {

/// Length of a session key.
pub const KEY_LEN: usize = 32;

/// Length of the random nonce that opens every sealed chunk.
pub const NONCE_LEN: usize = 12;

/// Length of the AES-GCM integrity tag that follows the ciphertext.
pub const TAG_LEN: usize = 16;

/// Length of the HMAC-SHA256 code that closes every sealed chunk.
pub const MAC_LEN: usize = 32;

/// Longest plaintext that AES-GCM accepts in one message.
pub const MAX_PLAINTEXT: u64 = 68719476736;

/// Why a sealed chunk was not opened.
#[derive(Debug, Clone, Copy, PartialEq, Eq, Structural)]
pub enum ChunkError {
    /// Shorter than a nonce and a MAC together.
    ChunkTooSmall,
    /// The HMAC over the ciphertext did not match.
    MacVerificationFailed,
    /// AES-GCM refused the ciphertext and its tag.
    DecryptionFailed,
}

/// What AES-256-GCM makes of `plaintext` under `key` and `nonce`: the
/// ciphertext followed by its tag.
pub uninterp spec fn aes_gcm_seal_of(key: Seq<u8>, nonce: Seq<u8>, plaintext: Seq<u8>) -> Seq<u8>;

/// What AES-256-GCM recovers from a ciphertext with its tag, or `None` where
/// it refuses them.
pub uninterp spec fn aes_gcm_open_of(key: Seq<u8>, nonce: Seq<u8>, sealed: Seq<u8>) -> Option<
    Seq<u8>,
>;

/// HMAC-SHA256 of `data` under `key`.
pub uninterp spec fn hmac_sha256_of(key: Seq<u8>, data: Seq<u8>) -> Seq<u8>;

/// The bytes an optional vector holds, as a sequence.
pub open spec fn opt_bytes(o: Option<Vec<u8>>) -> Option<Seq<u8>> {
    match o {
        Some(v) => Some(v@),
        None => None,
    }
}

/// Relies on rand's `thread_rng().gen()`: twelve bytes from a
/// cryptographically secure generator. Nothing is known of their values.
#[verifier::external_body]
fn random_nonce() -> (r: Vec<u8>)
    ensures
        r@.len() == NONCE_LEN,
{
    let n: [u8; 12] = rand::thread_rng().gen();
    n.to_vec()
}

/// Relies on aes_gcm's `Aes256Gcm::encrypt`: it refuses only a plaintext
/// longer than 2^36 bytes, appends a 16-byte tag to a ciphertext as long as
/// the plaintext, and `Aes256Gcm::decrypt` with the same key and nonce gives
/// the plaintext back.
#[verifier::external_body]
fn aes_gcm_seal(key: &[u8], nonce: &[u8], plaintext: &[u8]) -> (r: Option<Vec<u8>>)
    requires
        key@.len() == KEY_LEN,
        nonce@.len() == NONCE_LEN,
    ensures
        r is Some <==> plaintext@.len() <= MAX_PLAINTEXT,
        r matches Some(c) ==> c@ == aes_gcm_seal_of(key@, nonce@, plaintext@),
        r matches Some(c) ==> c@.len() == plaintext@.len() + TAG_LEN,
        r matches Some(c) ==> aes_gcm_open_of(key@, nonce@, c@) == Some(plaintext@),
{
    match <Aes256Gcm as KeyInit>::new_from_slice(key) {
        Ok(cipher) => cipher.encrypt(Nonce::from_slice(nonce), plaintext).ok(),
        Err(_) => None,
    }
}

/// Relies on aes_gcm's `Aes256Gcm::decrypt`, a function of key, nonce and
/// ciphertext with tag: it refuses input shorter than the 16-byte tag, and
/// what it recovers is the input without its tag.
#[verifier::external_body]
fn aes_gcm_open(key: &[u8], nonce: &[u8], sealed: &[u8]) -> (r: Option<Vec<u8>>)
    requires
        key@.len() == KEY_LEN,
        nonce@.len() == NONCE_LEN,
    ensures
        opt_bytes(r) == aes_gcm_open_of(key@, nonce@, sealed@),
        sealed@.len() < TAG_LEN ==> r is None,
        r matches Some(p) ==> p@.len() + TAG_LEN == sealed@.len(),
{
    match <Aes256Gcm as KeyInit>::new_from_slice(key) {
        Ok(cipher) => cipher.decrypt(Nonce::from_slice(nonce), sealed).ok(),
        Err(_) => None,
    }
}

/// Relies on hmac's `Hmac::<Sha256>` (`new_from_slice`, which takes a key of
/// any length, `update`, `finalize`): a 32-byte code of key and data.
#[verifier::external_body]
fn hmac_sha256(key: &[u8], data: &[u8]) -> (r: Vec<u8>)
    ensures
        r@ == hmac_sha256_of(key@, data@),
        r@.len() == MAC_LEN,
{
    let mut mac = <Hmac<Sha256> as Mac>::new_from_slice(key).expect("HMAC takes keys of any length");
    mac.update(data);
    mac.finalize().into_bytes().to_vec()
}

/// Relies on hmac's `Mac::verify_slice`: a constant-time comparison of `tag`
/// with the code of key and data, which fails on a tag of another length.
#[verifier::external_body]
fn hmac_sha256_verify(key: &[u8], data: &[u8], tag: &[u8]) -> (r: bool)
    ensures
        r == (tag@ == hmac_sha256_of(key@, data@)),
{
    let mut mac = <Hmac<Sha256> as Mac>::new_from_slice(key).expect("HMAC takes keys of any length");
    mac.update(data);
    mac.verify_slice(tag).is_ok()
}

/// The nonce at the front of a sealed chunk.
pub open spec fn nonce_part(frame: Seq<u8>) -> Seq<u8> {
    frame.subrange(0, NONCE_LEN as int)
}

/// The ciphertext with its tag, between nonce and MAC.
pub open spec fn sealed_part(frame: Seq<u8>) -> Seq<u8> {
    frame.subrange(NONCE_LEN as int, frame.len() - MAC_LEN)
}

/// The MAC at the end of a sealed chunk.
pub open spec fn mac_part(frame: Seq<u8>) -> Seq<u8> {
    frame.subrange(frame.len() - MAC_LEN, frame.len() as int)
}

/// The sealed chunk for `plaintext` under `key` with the nonce `nonce`:
/// nonce, ciphertext with tag, HMAC of the ciphertext with tag.
pub open spec fn sealed_chunk(key: Seq<u8>, nonce: Seq<u8>, plaintext: Seq<u8>) -> Seq<u8> {
    let c = aes_gcm_seal_of(key, nonce, plaintext);
    nonce + c + hmac_sha256_of(key, c)
}

/// What opening `frame` under `key` gives: the MAC is checked before any
/// decryption is tried.
pub open spec fn open_result(key: Seq<u8>, frame: Seq<u8>) -> Result<Seq<u8>, ChunkError> {
    if frame.len() < NONCE_LEN + MAC_LEN {
        Err(ChunkError::ChunkTooSmall)
    } else if mac_part(frame) != hmac_sha256_of(key, sealed_part(frame)) {
        Err(ChunkError::MacVerificationFailed)
    } else {
        match aes_gcm_open_of(key, nonce_part(frame), sealed_part(frame)) {
            Some(p) => Ok(p),
            None => Err(ChunkError::DecryptionFailed),
        }
    }
}

/// A result whose success value is read as a sequence of bytes.
pub open spec fn result_bytes<E>(r: Result<Vec<u8>, E>) -> Result<Seq<u8>, E> {
    match r {
        Ok(v) => Ok(v@),
        Err(e) => Err(e),
    }
}

/// Splits a sealed chunk into nonce, ciphertext with tag, and MAC.
pub fn split_frame(frame: &[u8]) -> (r: Result<(Vec<u8>, Vec<u8>, Vec<u8>), ChunkError>)
    ensures
        r is Err <==> frame@.len() < NONCE_LEN + MAC_LEN,
        r matches Err(e) ==> e == ChunkError::ChunkTooSmall,
        r matches Ok((n, c, m)) ==> n@ == nonce_part(frame@) && c@ == sealed_part(frame@) && m@
            == mac_part(frame@),
{
    if frame.len() < NONCE_LEN + MAC_LEN {
        return Err(ChunkError::ChunkTooSmall);
    }
    let n = copy_range(frame, 0, NONCE_LEN);
    let c = copy_range(frame, NONCE_LEN, frame.len() - MAC_LEN);
    let m = copy_range(frame, frame.len() - MAC_LEN, frame.len());
    Ok((n, c, m))
}

/// Joins nonce, ciphertext with tag, and MAC into one sealed chunk.
pub fn join_frame(nonce: &[u8], sealed: &[u8], mac: &[u8]) -> (r: Vec<u8>)
    ensures
        r@ == nonce@ + sealed@ + mac@,
{
    let mut r: Vec<u8> = Vec::new();
    append_bytes(&mut r, nonce);
    append_bytes(&mut r, sealed);
    append_bytes(&mut r, mac);
    assert(r@ =~= nonce@ + sealed@ + mac@);
    r
}

/// Seals `plaintext` under `key` with a fresh random nonce. Whatever nonce is
/// drawn, the result opens under `key` to `plaintext`.
pub fn encrypt_chunk(key: &[u8], plaintext: &[u8]) -> (r: Vec<u8>)
    requires
        key@.len() == KEY_LEN,
        plaintext@.len() <= MAX_PLAINTEXT,
    ensures
        r@.len() == plaintext@.len() + NONCE_LEN + TAG_LEN + MAC_LEN,
        exists|nonce: Seq<u8>|
            nonce.len() == NONCE_LEN && r@ == #[trigger] sealed_chunk(key@, nonce, plaintext@),
        open_result(key@, r@) == Ok::<Seq<u8>, ChunkError>(plaintext@),
{
    let nonce = random_nonce();
    let sealed = aes_gcm_seal(key, nonce.as_slice(), plaintext);
    let sealed = match sealed {
        Some(c) => c,
        None => {
            assert(false);
            Vec::new()
        },
    };
    let mac = hmac_sha256(key, sealed.as_slice());
    let r = join_frame(nonce.as_slice(), sealed.as_slice(), mac.as_slice());
    proof {
        assert(r@ == sealed_chunk(key@, nonce@, plaintext@));
        assert(nonce_part(r@) =~= nonce@);
        assert(sealed_part(r@) =~= sealed@);
        assert(mac_part(r@) =~= mac@);
    }
    r
}

/// Opens a sealed chunk: checks the MAC in constant time first and only then
/// decrypts.
pub fn decrypt_chunk(key: &[u8], data: &[u8]) -> (r: Result<Vec<u8>, ChunkError>)
    requires
        key@.len() == KEY_LEN,
    ensures
        result_bytes(r) == open_result(key@, data@),
        r matches Ok(p) ==> p@.len() + NONCE_LEN + TAG_LEN + MAC_LEN == data@.len(),
        data@.len() < NONCE_LEN + TAG_LEN + MAC_LEN ==> r is Err,
{
    let (nonce, sealed, mac) = match split_frame(data) {
        Ok(parts) => parts,
        Err(e) => {
            return Err(e);
        },
    };
    if !hmac_sha256_verify(key, sealed.as_slice(), mac.as_slice()) {
        return Err(ChunkError::MacVerificationFailed);
    }
    match aes_gcm_open(key, nonce.as_slice(), sealed.as_slice()) {
        Some(p) => Ok(p),
        None => Err(ChunkError::DecryptionFailed),
    }
}

/// `frame` with bit `bit` of the byte at `pos` flipped.
pub open spec fn flip_bit(frame: Seq<u8>, pos: int, bit: u8) -> Seq<u8> {
    frame.update(pos, frame[pos] ^ (1u8 << bit))
}

proof fn lemma_flip_changes(x: u8, bit: u8)
    requires
        bit < 8,
    ensures
        x ^ (1u8 << bit) != x,
{
    assert(bit < 8 ==> x ^ (1u8 << bit) != x) by (bit_vector);
}

/// Flipping any bit in the MAC of a chunk that opens makes opening fail with
/// a MAC verification error.
pub proof fn lemma_mac_tamper_detected(key: Seq<u8>, frame: Seq<u8>, pos: int, bit: u8)
    requires
        open_result(key, frame) is Ok,
        frame.len() - MAC_LEN <= pos < frame.len(),
        bit < 8,
    ensures
        open_result(key, flip_bit(frame, pos, bit)) == Err::<Seq<u8>, ChunkError>(
            ChunkError::MacVerificationFailed,
        ),
{
    let t = flip_bit(frame, pos, bit);
    lemma_flip_changes(frame[pos], bit);
    assert(sealed_part(t) =~= sealed_part(frame));
    let k = pos - (frame.len() - MAC_LEN);
    assert(mac_part(t)[k] != mac_part(frame)[k]);
}

/// Flipping any bit in the ciphertext region of a chunk that opens leaves a
/// chunk that opens only where HMAC-SHA256 under the same key gives the
/// altered ciphertext the code of the untouched one, that is a collision.
/// Otherwise opening fails with a MAC verification error.
pub proof fn lemma_ciphertext_tamper_needs_collision(key: Seq<u8>, frame: Seq<u8>, pos: int, bit: u8)
    requires
        open_result(key, frame) is Ok,
        NONCE_LEN <= pos < frame.len() - MAC_LEN,
        bit < 8,
    ensures
        sealed_part(flip_bit(frame, pos, bit)) != sealed_part(frame),
        hmac_sha256_of(key, sealed_part(flip_bit(frame, pos, bit))) != hmac_sha256_of(
            key,
            sealed_part(frame),
        ) ==> open_result(key, flip_bit(frame, pos, bit)) == Err::<Seq<u8>, ChunkError>(
            ChunkError::MacVerificationFailed,
        ),
{
    let t = flip_bit(frame, pos, bit);
    lemma_flip_changes(frame[pos], bit);
    let k = pos - NONCE_LEN;
    assert(sealed_part(t)[k] != sealed_part(frame)[k]);
    assert(mac_part(t) =~= mac_part(frame));
}

} // verus!
