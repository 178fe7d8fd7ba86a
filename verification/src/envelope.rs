//! The file key and the payload AEAD.
//!
//! Packing draws a random 32-byte file key, encrypts the (compressed) payload
//! with it under XChaCha20-Poly1305, and lets every recipient wrap the key in
//! its own way. Unpacking recovers the key through any one recipient and runs
//! the AEAD backwards. Large files are encrypted in chunks whose nonces are the
//! 20-byte stream base nonce followed by the big-endian chunk index.
use vstd::prelude::*;

use crate::error::CoreError;
use crate::primitives::{aead_open, aead_plaintext_limit, aead_seal, random_bytes, xchacha_open, xchacha_seal};

verus! {

/// Length of the file key.
pub const FILE_KEY_LEN: usize = 32;

/// Length of the payload nonce (XChaCha20).
pub const PAYLOAD_NONCE_LEN: usize = 24;

/// Plaintext size of one streaming chunk (4 MiB).
pub const STREAM_CHUNK_SIZE: usize = 4194304;

/// Length of the streaming base nonce; the 4-byte chunk index completes it.
pub const STREAM_BASE_NONCE_LEN: usize = 20;

/// The key that encrypts the file content.
pub struct FileKey([u8; 32]);

impl View for FileKey {
    type V = Seq<u8>;

    closed spec fn view(&self) -> Seq<u8> {
        self.0@
    }
}

/// Copies a 32-byte buffer into an array.
pub(crate) fn array32_from(v: &[u8]) -> (res: [u8; 32])
    requires
        v@.len() == 32,
    ensures
        res@ == v@,
{
    let mut a: [u8; 32] = [0u8; 32];
    let mut i: usize = 0;
    while i < 32
        invariant
            i <= 32,
            v@.len() == 32,
            a@.len() == 32,
            forall|j: int| 0 <= j < i ==> a@[j] == v@[j],
        decreases 32 - i,
    {
        a[i] = v[i];
        i = i + 1;
    }
    assert(a@ =~= v@);
    a
}

/// Copies a 20-byte buffer into an array.
fn array20_from(v: &[u8]) -> (res: [u8; 20])
    requires
        v@.len() == 20,
    ensures
        res@ == v@,
{
    let mut a: [u8; 20] = [0u8; 20];
    let mut i: usize = 0;
    while i < 20
        invariant
            i <= 20,
            v@.len() == 20,
            a@.len() == 20,
            forall|j: int| 0 <= j < i ==> a@[j] == v@[j],
        decreases 20 - i,
    {
        a[i] = v[i];
        i = i + 1;
    }
    assert(a@ =~= v@);
    a
}

impl FileKey {
    /// The invariant of every key: 32 bytes.
    pub proof fn lemma_len(&self)
        ensures
            self@.len() == 32,
    {
    }

    /// A fresh key from the operating system's CSPRNG.
    pub fn random() -> (k: FileKey)
        ensures
            k@.len() == 32,
    {
        let v = random_bytes(FILE_KEY_LEN);
        FileKey(array32_from(v.as_slice()))
    }

    /// A key from its bytes (a recipient that unwrapped it).
    pub fn from_bytes(bytes: [u8; 32]) -> (k: FileKey)
        ensures
            k@ == bytes@,
    {
        FileKey(bytes)
    }

    /// The raw key bytes.
    pub fn as_bytes(&self) -> (res: &[u8; 32])
        ensures
            res@ == self@,
    {
        &self.0
    }
}

/// A random payload nonce of `PAYLOAD_NONCE_LEN` bytes.
pub fn random_payload_nonce() -> (n: Vec<u8>)
    ensures
        n@.len() == PAYLOAD_NONCE_LEN,
{
    random_bytes(PAYLOAD_NONCE_LEN)
}

/// A random streaming base nonce.
pub fn random_stream_base_nonce() -> (n: [u8; 20])
    ensures
        n@.len() == STREAM_BASE_NONCE_LEN,
{
    let v = random_bytes(STREAM_BASE_NONCE_LEN);
    array20_from(v.as_slice())
}

/// What decrypting a payload gives: `None` for a nonce of the wrong length or
/// a ciphertext that does not authenticate.
pub open spec fn payload_plaintext(key: Seq<u8>, nonce: Seq<u8>, ciphertext: Seq<u8>) -> Option<Seq<u8>> {
    if nonce.len() != PAYLOAD_NONCE_LEN {
        None
    } else {
        xchacha_open(key, nonce, ciphertext)
    }
}

/// Encrypts the payload with the file key and nonce (XChaCha20-Poly1305).
///
/// A nonce of another length than 24 is a header error; a plaintext too long
/// for the cipher is an integrity error. On success the ciphertext is 16 bytes
/// longer than the plaintext, and decrypting it with the same key and nonce
/// gives the plaintext back.
pub fn encrypt_payload(file_key: &FileKey, nonce: &[u8], plaintext: &[u8]) -> (res: Result<Vec<u8>, CoreError>)
    ensures
        nonce@.len() != PAYLOAD_NONCE_LEN ==> res matches Err(CoreError::HeaderDecode(_)),
        nonce@.len() == PAYLOAD_NONCE_LEN ==> {
            &&& res is Ok <==> plaintext@.len() < aead_plaintext_limit()
            &&& res is Err ==> res matches Err(CoreError::IntegrityFailed)
        },
        res matches Ok(c) ==> {
            &&& c@ == xchacha_seal(file_key@, nonce@, plaintext@)
            &&& c@.len() == plaintext@.len() + 16
            &&& payload_plaintext(file_key@, nonce@, c@) == Some(plaintext@)
        },
{
    if nonce.len() != PAYLOAD_NONCE_LEN {
        return Err(CoreError::HeaderDecode("invalid payload nonce length".to_string()));
    }
    let key = file_key.as_bytes();
    proof {
        file_key.lemma_len();
    }
    match aead_seal(key, nonce, plaintext) {
        Some(c) => Ok(c),
        None => Err(CoreError::IntegrityFailed),
    }
}

/// Decrypts the payload. A nonce of another length than 24 is a header error;
/// a ciphertext that does not authenticate is an integrity error.
pub fn decrypt_payload(file_key: &FileKey, nonce: &[u8], ciphertext: &[u8]) -> (res: Result<Vec<u8>, CoreError>)
    ensures
        nonce@.len() != PAYLOAD_NONCE_LEN ==> res matches Err(CoreError::HeaderDecode(_)),
        nonce@.len() == PAYLOAD_NONCE_LEN ==> {
            &&& res is Ok <==> payload_plaintext(file_key@, nonce@, ciphertext@) is Some
            &&& res is Err ==> res matches Err(CoreError::IntegrityFailed)
        },
        res matches Ok(p) ==> payload_plaintext(file_key@, nonce@, ciphertext@) == Some(p@),
{
    if nonce.len() != PAYLOAD_NONCE_LEN {
        return Err(CoreError::HeaderDecode("invalid payload nonce length".to_string()));
    }
    let key = file_key.as_bytes();
    proof {
        file_key.lemma_len();
    }
    match aead_open(key, nonce, ciphertext) {
        Some(p) => Ok(p),
        None => Err(CoreError::IntegrityFailed),
    }
}

/// The big-endian bytes of a chunk index.
pub open spec fn be_u32(x: u32) -> Seq<u8> {
    seq![(x / 16777216) as u8, ((x / 65536) % 256) as u8, ((x / 256) % 256) as u8, (x % 256) as u8]
}

/// The nonce of chunk `idx`: the base nonce followed by the big-endian index.
pub open spec fn chunk_nonce(base: Seq<u8>, idx: u32) -> Seq<u8> {
    base + be_u32(idx)
}

/// Distinct chunks of a stream, or chunks of streams with distinct base
/// nonces, never share a nonce.
pub proof fn lemma_chunk_nonce_unique(base1: Seq<u8>, idx1: u32, base2: Seq<u8>, idx2: u32)
    requires
        base1.len() == STREAM_BASE_NONCE_LEN,
        base2.len() == STREAM_BASE_NONCE_LEN,
        chunk_nonce(base1, idx1) == chunk_nonce(base2, idx2),
    ensures
        base1 == base2,
        idx1 == idx2,
{
    let n1 = chunk_nonce(base1, idx1);
    let n2 = chunk_nonce(base2, idx2);
    assert(base1 =~= n1.subrange(0, 20));
    assert(base2 =~= n2.subrange(0, 20));
    assert(be_u32(idx1) =~= n1.subrange(20, 24));
    assert(be_u32(idx2) =~= n2.subrange(20, 24));
    let a0 = be_u32(idx1)[0];
    let a1 = be_u32(idx1)[1];
    let a2 = be_u32(idx1)[2];
    let a3 = be_u32(idx1)[3];
    assert(be_u32(idx1)[0] == be_u32(idx2)[0]);
    assert(be_u32(idx1)[1] == be_u32(idx2)[1]);
    assert(be_u32(idx1)[2] == be_u32(idx2)[2]);
    assert(be_u32(idx1)[3] == be_u32(idx2)[3]);
    assert(idx1 == 16777216 * (idx1 / 16777216) + 65536 * ((idx1 / 65536) % 256) + 256 * ((idx1 / 256) % 256) + idx1 % 256);
    assert(idx2 == 16777216 * (idx2 / 16777216) + 65536 * ((idx2 / 65536) % 256) + 256 * ((idx2 / 256) % 256) + idx2 % 256);
}

/// Builds the 24-byte nonce of chunk `chunk_idx`.
fn build_chunk_nonce(base_nonce: &[u8; 20], chunk_idx: u32) -> (res: Vec<u8>)
    ensures
        res@ == chunk_nonce(base_nonce@, chunk_idx),
        res@.len() == 24,
{
    let mut nonce: Vec<u8> = Vec::new();
    let mut i: usize = 0;
    while i < 20
        invariant
            i <= 20,
            base_nonce@.len() == 20,
            nonce@ == base_nonce@.subrange(0, i as int),
        decreases 20 - i,
    {
        nonce.push(base_nonce[i]);
        i = i + 1;
    }
    nonce.push((chunk_idx / 16777216) as u8);
    nonce.push(((chunk_idx / 65536) % 256) as u8);
    nonce.push(((chunk_idx / 256) % 256) as u8);
    nonce.push((chunk_idx % 256) as u8);
    assert(nonce@ =~= chunk_nonce(base_nonce@, chunk_idx));
    nonce
}

/// Encrypts one streaming chunk under its own nonce.
pub fn encrypt_chunk(file_key: &FileKey, base_nonce: &[u8; 20], chunk_idx: u32, plaintext: &[u8]) -> (res: Result<Vec<u8>, CoreError>)
    ensures
        res is Ok <==> plaintext@.len() < aead_plaintext_limit(),
        res is Err ==> res matches Err(CoreError::IntegrityFailed),
        res matches Ok(c) ==> {
            &&& c@ == xchacha_seal(file_key@, chunk_nonce(base_nonce@, chunk_idx), plaintext@)
            &&& c@.len() == plaintext@.len() + 16
            &&& xchacha_open(file_key@, chunk_nonce(base_nonce@, chunk_idx), c@) == Some(plaintext@)
        },
{
    let nonce = build_chunk_nonce(base_nonce, chunk_idx);
    let key = file_key.as_bytes();
    proof {
        file_key.lemma_len();
    }
    match aead_seal(key, nonce.as_slice(), plaintext) {
        Some(c) => Ok(c),
        None => Err(CoreError::IntegrityFailed),
    }
}

/// Decrypts one streaming chunk; it authenticates only under the index and
/// base nonce it was sealed with.
pub fn decrypt_chunk(file_key: &FileKey, base_nonce: &[u8; 20], chunk_idx: u32, ciphertext: &[u8]) -> (res: Result<Vec<u8>, CoreError>)
    ensures
        res is Ok <==> xchacha_open(file_key@, chunk_nonce(base_nonce@, chunk_idx), ciphertext@) is Some,
        res is Err ==> res matches Err(CoreError::IntegrityFailed),
        res matches Ok(p) ==> xchacha_open(file_key@, chunk_nonce(base_nonce@, chunk_idx), ciphertext@) == Some(p@),
{
    let nonce = build_chunk_nonce(base_nonce, chunk_idx);
    let key = file_key.as_bytes();
    proof {
        file_key.lemma_len();
    }
    match aead_open(key, nonce.as_slice(), ciphertext) {
        Some(p) => Ok(p),
        None => Err(CoreError::IntegrityFailed),
    }
}

} // verus!
