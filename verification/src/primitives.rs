//! Calls into the cryptography and compression crates.
//!
//! Every function here is trusted: Verus believes its contract and does not read
//! its body. Each doc comment names the outside function and says what the
//! contract claims of it. Results that take pages to state are given a name (a
//! spec function without a body); the short facts that callers need stand beside
//! them in the `ensures` clauses.
use vstd::prelude::*;

use chacha20poly1305::aead::{Aead, KeyInit};
use hkdf::Hkdf;
use hmac::Mac;
use ml_kem::kem::{Decapsulate, Encapsulate};
use ml_kem::{EncodedSizeUser, KemCore};
use rand::RngCore;
use sha2::Digest;
use std::io::Read;
use std::io::Write;

verus! {

/// Largest plaintext (exclusive) that XChaCha20-Poly1305 in `chacha20poly1305`
/// accepts: 64-byte blocks, fewer than `u32::MAX` of them.
pub open spec fn aead_plaintext_limit() -> int {
    64 * 4294967295int
}

/// Length of the Poly1305 tag that sealing appends.
pub open spec fn aead_tag_len() -> int {
    16int
}

/// What `XChaCha20Poly1305::encrypt` returns for a 32-byte key, a 24-byte nonce and
/// a plaintext (no associated data).
pub uninterp spec fn xchacha_seal(key: Seq<u8>, nonce: Seq<u8>, plaintext: Seq<u8>) -> Seq<u8>;

/// What `XChaCha20Poly1305::decrypt` returns for a 32-byte key, a 24-byte nonce and
/// a ciphertext (no associated data): `None` when authentication fails.
pub uninterp spec fn xchacha_open(key: Seq<u8>, nonce: Seq<u8>, ciphertext: Seq<u8>) -> Option<Seq<u8>>;

/// `chacha20poly1305::XChaCha20Poly1305::encrypt` with a 32-byte key and a 24-byte
/// nonce. Claimed: it fails exactly when the plaintext has
/// `aead_plaintext_limit()` bytes or more (the check in the crate's
/// `encrypt_in_place_detached`); otherwise the result is the named ciphertext,
/// 16 bytes longer than the plaintext, and decrypting it with the same key and
/// nonce gives the plaintext back.
#[verifier::external_body]
pub(crate) fn aead_seal(key: &[u8], nonce: &[u8], plaintext: &[u8]) -> (res: Option<Vec<u8>>)
    requires
        key@.len() == 32,
        nonce@.len() == 24,
    ensures
        res is Some <==> plaintext@.len() < aead_plaintext_limit(),
        res matches Some(c) ==> {
            &&& c@ == xchacha_seal(key@, nonce@, plaintext@)
            &&& c@.len() == plaintext@.len() + aead_tag_len()
            &&& xchacha_open(key@, nonce@, c@) == Some(plaintext@)
        },
{
    let cipher = chacha20poly1305::XChaCha20Poly1305::new(key.into());
    cipher.encrypt(chacha20poly1305::XNonce::from_slice(nonce), plaintext).ok()
}

/// `chacha20poly1305::XChaCha20Poly1305::decrypt` with a 32-byte key and a 24-byte
/// nonce. Claimed: the result is the named one; a plaintext that comes back is
/// 16 bytes shorter than the ciphertext.
#[verifier::external_body]
pub(crate) fn aead_open(key: &[u8], nonce: &[u8], ciphertext: &[u8]) -> (res: Option<Vec<u8>>)
    requires
        key@.len() == 32,
        nonce@.len() == 24,
    ensures
        res matches Some(p) ==> Some(p@) == xchacha_open(key@, nonce@, ciphertext@),
        res is None ==> xchacha_open(key@, nonce@, ciphertext@) is None,
        res matches Some(p) ==> ciphertext@.len() == p@.len() + aead_tag_len(),
{
    let cipher = chacha20poly1305::XChaCha20Poly1305::new(key.into());
    cipher.decrypt(chacha20poly1305::XNonce::from_slice(nonce), ciphertext).ok()
}

/// The SHA-256 digest (32 bytes) of a byte sequence.
pub uninterp spec fn sha256_digest(data: Seq<u8>) -> Seq<u8>;

/// `sha2::Sha256::digest`. Claimed: the result is the named 32-byte digest.
#[verifier::external_body]
pub(crate) fn sha256(data: &[u8]) -> (res: Vec<u8>)
    ensures
        res@ == sha256_digest(data@),
        res@.len() == 32,
{
    sha2::Sha256::digest(data).to_vec()
}

/// The MD5 digest (16 bytes) of a byte sequence.
pub uninterp spec fn md5_digest(data: Seq<u8>) -> Seq<u8>;

/// `md5::Md5::digest` (the `md-5` crate). Claimed: the result is the named
/// 16-byte digest.
#[verifier::external_body]
pub(crate) fn md5(data: &[u8]) -> (res: Vec<u8>)
    ensures
        res@ == md5_digest(data@),
        res@.len() == 16,
{
    md5::Md5::digest(data).to_vec()
}

/// HKDF-SHA256 (extract with `salt`, expand with `info`) to 32 bytes.
pub uninterp spec fn hkdf_sha256_32(salt: Seq<u8>, ikm: Seq<u8>, info: Seq<u8>) -> Seq<u8>;

/// `hkdf::Hkdf::<Sha256>::new(Some(salt), ikm).expand(info, &mut [0u8; 32])`.
/// Claimed: expanding to 32 bytes (far below the 8160-byte limit) succeeds and
/// gives the named key.
#[verifier::external_body]
pub(crate) fn hkdf_sha256(salt: &[u8], ikm: &[u8], info: &[u8]) -> (res: Vec<u8>)
    ensures
        res@ == hkdf_sha256_32(salt@, ikm@, info@),
        res@.len() == 32,
{
    let hk = Hkdf::<sha2::Sha256>::new(Some(salt), ikm);
    let mut out = [0u8; 32];
    let _ = hk.expand(info, &mut out);
    out.to_vec()
}

/// HMAC-SHA256 (32 bytes) of `message` under `key`.
pub uninterp spec fn hmac_sha256_tag(key: Seq<u8>, message: Seq<u8>) -> Seq<u8>;

/// `hmac::Hmac::<Sha256>::new_from_slice(key)`, `update(message)`, `finalize`.
/// Claimed: HMAC accepts a key of any length; the result is the named tag.
#[verifier::external_body]
pub(crate) fn hmac_sha256(key: &[u8], message: &[u8]) -> (res: Vec<u8>)
    ensures
        res@ == hmac_sha256_tag(key@, message@),
        res@.len() == 32,
{
    let mut mac = <hmac::Hmac<sha2::Sha256> as Mac>::new_from_slice(key).unwrap();
    mac.update(message);
    mac.finalize().into_bytes().to_vec()
}

/// Argon2id (version 0x13) of a password and salt with memory `m` KiB, `t`
/// passes and `p` lanes, to 32 bytes.
pub uninterp spec fn argon2id_32(password: Seq<u8>, salt: Seq<u8>, m: u32, t: u32, p: u32) -> Seq<u8>;

/// Whether `argon2::Params::new(m, t, p, Some(32))` accepts the cost parameters:
/// the checks in its body, in order.
pub open spec fn argon2_params_accepted(m: u32, t: u32, p: u32) -> bool {
    &&& m >= 8
    &&& m >= 8 * p
    &&& t >= 1
    &&& p >= 1
    &&& p <= 0xFFFFFF
}

/// `argon2::Params::new(m, t, p, Some(32))`, `Argon2::new(Argon2id, V0x13, ..)`
/// and `hash_password_into`. Claimed: it succeeds exactly when the parameters
/// pass `Params::new` and the inputs pass `verify_inputs` (salt of 8 bytes or
/// more; password and salt below 2^32 bytes); the key is then the named one.
/// `p` is bounded so that the crate's `p_cost * 8` cannot overflow. The error
/// text is the crate's message and nothing is stated of it.
#[verifier::external_body]
pub(crate) fn argon2id(password: &[u8], salt: &[u8], m: u32, t: u32, p: u32) -> (res: Result<Vec<u8>, String>)
    requires
        p <= 0x1FFFFFFF,
    ensures
        res is Ok <==> (argon2_params_accepted(m, t, p) && salt@.len() >= 8
            && salt@.len() <= 0xFFFFFFFF && password@.len() <= 0xFFFFFFFF),
        res matches Ok(k) ==> k@ == argon2id_32(password@, salt@, m, t, p) && k@.len() == 32,
{
    let params = argon2::Params::new(m, t, p, Some(32)).map_err(|e| e.to_string())?;
    let a = argon2::Argon2::new(argon2::Algorithm::Argon2id, argon2::Version::V0x13, params);
    let mut out = [0u8; 32];
    a.hash_password_into(password, salt, &mut out).map_err(|e| e.to_string())?;
    Ok(out.to_vec())
}

/// `rand::rngs::OsRng.fill_bytes` on a buffer of `n` bytes. Claimed: the result has
/// `n` bytes; nothing is stated of their values, which are random.
#[verifier::external_body]
pub(crate) fn random_bytes(n: usize) -> (res: Vec<u8>)
    ensures
        res@.len() == n,
{
    let mut v = vec![0u8; n];
    rand::rngs::OsRng.fill_bytes(&mut v);
    v
}

/// The X25519 public key of a 32-byte secret (clamped by the crate).
pub uninterp spec fn x25519_public_key(secret: Seq<u8>) -> Seq<u8>;

/// The X25519 shared secret of a 32-byte secret and a 32-byte public key.
pub uninterp spec fn x25519_shared(secret: Seq<u8>, public: Seq<u8>) -> Seq<u8>;

/// `x25519_dalek::PublicKey::from(&StaticSecret::from(secret)).to_bytes()`.
/// Claimed: the result is the named 32-byte public key.
#[verifier::external_body]
pub(crate) fn x25519_public(secret: &[u8]) -> (res: Vec<u8>)
    requires
        secret@.len() == 32,
    ensures
        res@ == x25519_public_key(secret@),
        res@.len() == 32,
{
    let mut sk = [0u8; 32];
    sk.copy_from_slice(secret);
    x25519_dalek::PublicKey::from(&x25519_dalek::StaticSecret::from(sk)).to_bytes().to_vec()
}

/// `x25519_dalek::StaticSecret::from(secret).diffie_hellman(&PublicKey::from(public))`.
/// Claimed: the result is the named 32-byte shared secret, and when `public`
/// is the public key of another 32-byte secret, the result is also what that
/// secret computes with the public key of `secret` (both are the clamped
/// scalars' product times the base point, on which the crate's
/// Diffie-Hellman agreement rests).
#[verifier::external_body]
pub(crate) fn x25519_diffie_hellman(secret: &[u8], public: &[u8]) -> (res: Vec<u8>)
    requires
        secret@.len() == 32,
        public@.len() == 32,
    ensures
        res@ == x25519_shared(secret@, public@),
        res@.len() == 32,
        forall|other: Seq<u8>|
            #![trigger x25519_public_key(other)]
            other.len() == 32 && public@ == x25519_public_key(other) ==> res@ == x25519_shared(
                other,
                x25519_public_key(secret@),
            ),
{
    let mut sk = [0u8; 32];
    sk.copy_from_slice(secret);
    let mut pk = [0u8; 32];
    pk.copy_from_slice(public);
    x25519_dalek::StaticSecret::from(sk)
        .diffie_hellman(&x25519_dalek::PublicKey::from(pk))
        .to_bytes()
        .to_vec()
}

/// Byte length of an ML-KEM-768 encapsulation (public) key.
pub open spec fn mlkem768_pk_len() -> int {
    1184int
}

/// Byte length of an ML-KEM-768 decapsulation (secret) key.
pub open spec fn mlkem768_sk_len() -> int {
    2400int
}

/// Byte length of an ML-KEM-768 ciphertext.
pub open spec fn mlkem768_ct_len() -> int {
    1088int
}

/// `ml_kem::MlKem768::generate(&mut OsRng)`, keys taken by `as_bytes`. Claimed:
/// the lengths of the two keys; the keys themselves are random.
#[verifier::external_body]
pub(crate) fn mlkem768_generate() -> (res: (Vec<u8>, Vec<u8>))
    ensures
        res.0@.len() == mlkem768_sk_len(),
        res.1@.len() == mlkem768_pk_len(),
{
    let (dk, ek) = ml_kem::MlKem768::generate(&mut rand::rngs::OsRng);
    (dk.as_bytes().to_vec(), ek.as_bytes().to_vec())
}

/// `EncapsulationKey::<MlKem768>::from_bytes(pk).encapsulate(&mut OsRng)`. Claimed:
/// it succeeds (the crate's `encapsulate` always returns `Ok`), with a ciphertext
/// of 1088 bytes and a 32-byte shared key; both are random.
#[verifier::external_body]
pub(crate) fn mlkem768_encapsulate(public_key: &[u8]) -> (res: (Vec<u8>, Vec<u8>))
    requires
        public_key@.len() == mlkem768_pk_len(),
    ensures
        res.0@.len() == mlkem768_ct_len(),
        res.1@.len() == 32,
{
    let arr = ml_kem::array::Array::try_from(public_key).unwrap();
    let ek = <ml_kem::MlKem768 as KemCore>::EncapsulationKey::from_bytes(&arr);
    let (ct, ss): (ml_kem::Ciphertext<ml_kem::MlKem768>, ml_kem::SharedKey<ml_kem::MlKem768>) =
        ek.encapsulate(&mut rand::rngs::OsRng).unwrap();
    (ct.to_vec(), ss.to_vec())
}

/// The ML-KEM-768 shared key that a decapsulation key gives for a ciphertext.
pub uninterp spec fn mlkem768_shared(secret_key: Seq<u8>, ciphertext: Seq<u8>) -> Seq<u8>;

/// `DecapsulationKey::<MlKem768>::from_bytes(sk).decapsulate(ct)`. Claimed: it
/// succeeds (the crate documents decapsulation as infallible, implicit
/// rejection) with the named 32-byte shared key.
#[verifier::external_body]
pub(crate) fn mlkem768_decapsulate(secret_key: &[u8], ciphertext: &[u8]) -> (res: Vec<u8>)
    requires
        secret_key@.len() == mlkem768_sk_len(),
        ciphertext@.len() == mlkem768_ct_len(),
    ensures
        res@ == mlkem768_shared(secret_key@, ciphertext@),
        res@.len() == 32,
{
    let sk_arr = ml_kem::array::Array::try_from(secret_key).unwrap();
    let dk = <ml_kem::MlKem768 as KemCore>::DecapsulationKey::from_bytes(&sk_arr);
    let ct_arr = ml_kem::array::Array::try_from(ciphertext).unwrap();
    dk.decapsulate(&ct_arr).unwrap().to_vec()
}

/// The first `n` elements of `s`, or all of `s` when it is shorter.
pub open spec fn prefix_at_most(s: Seq<u8>, n: int) -> Seq<u8> {
    if s.len() <= n {
        s
    } else {
        s.subrange(0, n)
    }
}

/// What a `zstd::stream::read::Decoder` with its default settings (among them
/// the window limit of 2^27 bytes) reads from `data` to the end; `None` when it
/// reports an error first, as for data that is not a complete frame sequence or
/// a frame that needs a larger window.
pub uninterp spec fn zstd_content(data: Seq<u8>) -> Option<Seq<u8>>;

/// `zstd::stream::write::Encoder::new(Vec::new(), level)`, `multithread(workers)`
/// (0 workers: the default single-threaded mode), `write_all`, `finish`.
/// Claimed: when it succeeds, the default decoder reads `data` back from the
/// output (zstd is lossless, and no compression level uses a window above the
/// decoder's default limit of 2^27 bytes). The bytes themselves are not named:
/// with several workers they may depend on the machine.
#[verifier::external_body]
pub(crate) fn zstd_compress(data: &[u8], level: i32, workers: u32) -> (res: Result<Vec<u8>, String>)
    ensures
        res matches Ok(c) ==> zstd_content(c@) == Some(data@),
{
    let mut encoder = zstd::stream::write::Encoder::new(Vec::new(), level).map_err(|e| e.to_string())?;
    let _ = encoder.multithread(workers);
    encoder.write_all(data).map_err(|e| e.to_string())?;
    encoder.finish().map_err(|e| e.to_string())
}

/// What a `zstd::stream::read::Decoder` over `data` gives when read through
/// `take(limit)` to the end, with the count (0 or 1) that one further one-byte
/// read of the decoder returns; `None` when the decoder reports an error first.
pub uninterp spec fn zstd_limited_read(data: Seq<u8>, limit: u64) -> Option<(Seq<u8>, nat)>;

/// `zstd::stream::read::Decoder::new(data)`, `take(limit)`, `read_to_end`, then
/// `into_inner().read` into a one-byte buffer (an error there counts as 0).
/// Claimed: the result is the named one, with at most `limit` bytes and a count
/// of at most 1; when the same decoder reads `data` to the end without error,
/// this call succeeds too, the bytes are what it reads cut to `limit`, and the
/// count is nonzero exactly when that is longer than `limit`.
#[verifier::external_body]
pub(crate) fn zstd_decode_limited(data: &[u8], limit: u64) -> (res: Result<(Vec<u8>, usize), String>)
    ensures
        res matches Ok((v, e)) ==> zstd_limited_read(data@, limit) == Some((v@, e as nat)) && v@.len() <= limit && e <= 1,
        res is Err ==> zstd_limited_read(data@, limit) is None,
        zstd_content(data@) is Some ==> res is Ok,
        res matches Ok((v, e)) ==> (zstd_content(data@) matches Some(c) ==> (v@ == prefix_at_most(c, limit as int) && (e > 0 <==> c.len() > limit))),
{
    let decoder = zstd::stream::read::Decoder::new(data).map_err(|e| e.to_string())?;
    let mut limited = decoder.take(limit);
    let mut out: Vec<u8> = Vec::new();
    limited.read_to_end(&mut out).map_err(|e| e.to_string())?;
    let mut extra = [0u8; 1];
    let more = limited.into_inner().read(&mut extra).unwrap_or(0);
    Ok((out, more))
}

/// The content of a gzip stream, `None` when `data` is not one.
pub uninterp spec fn gzip_content(data: Seq<u8>) -> Option<Seq<u8>>;

/// The gzip stream that `flate2::write::GzEncoder` writes for `data` at `level`.
pub uninterp spec fn gzip_encoding(data: Seq<u8>, level: u32) -> Seq<u8>;

/// `flate2::read::GzDecoder::new(data).read_to_end`. Claimed: the result is the
/// named content (an error exactly when there is none).
#[verifier::external_body]
pub(crate) fn gzip_decode(data: &[u8]) -> (res: Result<Vec<u8>, String>)
    ensures
        res matches Ok(v) ==> gzip_content(data@) == Some(v@),
        res is Err ==> gzip_content(data@) is None,
{
    let mut decoder = flate2::read::GzDecoder::new(data);
    let mut out = Vec::new();
    decoder.read_to_end(&mut out).map_err(|e| e.to_string())?;
    Ok(out)
}

/// `flate2::write::GzEncoder::new(Vec::new(), Compression::new(level))`,
/// `write_all`, `finish`. Claimed: writing into a `Vec` does not fail; the
/// result is the named stream, whose content is `data`.
#[verifier::external_body]
pub(crate) fn gzip_encode(data: &[u8], level: u32) -> (res: Vec<u8>)
    requires
        level <= 9,
    ensures
        res@ == gzip_encoding(data@, level),
        gzip_content(res@) == Some(data@),
{
    let mut encoder = flate2::write::GzEncoder::new(Vec::new(), flate2::Compression::new(level));
    let _ = encoder.write_all(data);
    encoder.finish().unwrap_or_default()
}

/// What `bzip2_rs::DecoderReader` reads to the end of `data`, `None` when it
/// reports an error first.
pub uninterp spec fn bzip2_content(data: Seq<u8>) -> Option<Seq<u8>>;

/// `bzip2_rs::DecoderReader::new(data)` and `read_to_end`. Claimed: the result
/// is the named content (an error exactly when there is none), when the call
/// returns. The call may panic on some crafted inputs: the crate's Huffman
/// table builder asserts on symbol counts and node indices, and which inputs
/// reach those assertions is not settled here.
#[verifier::external_body]
pub(crate) fn bzip2_decode(data: &[u8]) -> (res: Result<Vec<u8>, String>)
    ensures
        res matches Ok(v) ==> bzip2_content(data@) == Some(v@),
        res is Err ==> bzip2_content(data@) is None,
{
    let mut decoder = bzip2_rs::DecoderReader::new(data);
    let mut out = Vec::new();
    decoder.read_to_end(&mut out).map_err(|e| e.to_string())?;
    Ok(out)
}

/// What `lz4_flex::frame::FrameDecoder` reads to the end of `data`, `None` when
/// it reports an error first.
pub uninterp spec fn lz4_content(data: Seq<u8>) -> Option<Seq<u8>>;

/// The LZ4 frame that `lz4_flex::frame::FrameEncoder` (default frame settings)
/// writes for `data`.
pub uninterp spec fn lz4_encoding(data: Seq<u8>) -> Seq<u8>;

/// `lz4_flex::frame::FrameDecoder::new(data)` and `read_to_end`. Claimed: the
/// result is the named content (an error exactly when there is none).
#[verifier::external_body]
pub(crate) fn lz4_decode(data: &[u8]) -> (res: Result<Vec<u8>, String>)
    ensures
        res matches Ok(v) ==> lz4_content(data@) == Some(v@),
        res is Err ==> lz4_content(data@) is None,
{
    let mut decoder = lz4_flex::frame::FrameDecoder::new(data);
    let mut out = Vec::new();
    decoder.read_to_end(&mut out).map_err(|e| e.to_string())?;
    Ok(out)
}

/// `lz4_flex::frame::FrameEncoder::new(Vec::new())`, `write_all`, `finish`.
/// Claimed: writing into a `Vec` does not fail; the result is the named frame,
/// which the crate's frame decoder reads back as `data` (LZ4 is lossless).
#[verifier::external_body]
pub(crate) fn lz4_encode(data: &[u8]) -> (res: Vec<u8>)
    ensures
        res@ == lz4_encoding(data@),
        lz4_content(res@) == Some(data@),
{
    let mut encoder = lz4_flex::frame::FrameEncoder::new(Vec::new());
    let _ = encoder.write_all(data);
    encoder.finish().unwrap_or_default()
}

/// The content of an xz stream, `None` when `data` is not one.
pub uninterp spec fn xz_content(data: Seq<u8>) -> Option<Seq<u8>>;

/// `lzma_rs::xz_decompress` into a `Vec`. Claimed: the result is the named content.
/// The call may panic on some crafted inputs: the crate indexes its buffers
/// without a proof of bounds, and which inputs reach that is not settled here.
#[verifier::external_body]
pub(crate) fn xz_decode(data: &[u8]) -> (res: Result<Vec<u8>, String>)
    ensures
        res matches Ok(v) ==> xz_content(data@) == Some(v@),
        res is Err ==> xz_content(data@) is None,
{
    let mut input = std::io::BufReader::new(data);
    let mut out = Vec::new();
    lzma_rs::xz_decompress(&mut input, &mut out).map_err(|e| e.to_string())?;
    Ok(out)
}

/// What `ruzstd::streaming_decoder::StreamingDecoder` reads to the end of `data`.
pub uninterp spec fn ruzstd_content(data: Seq<u8>) -> Option<Seq<u8>>;

/// `ruzstd::streaming_decoder::StreamingDecoder::new(data)` and `read_to_end`.
/// Claimed: the result is the named content, when the call returns. The call
/// may panic on some crafted inputs: the crate's block decoder, bit reader and
/// decode buffer hold panics and assertions, and which inputs reach them is not
/// settled here.
#[verifier::external_body]
pub(crate) fn ruzstd_decode(data: &[u8]) -> (res: Result<Vec<u8>, String>)
    ensures
        res matches Ok(v) ==> ruzstd_content(data@) == Some(v@),
        res is Err ==> ruzstd_content(data@) is None,
{
    let mut decoder = ruzstd::streaming_decoder::StreamingDecoder::new(data)
        .map_err(|e| format!("{:?}", e))?;
    let mut out = Vec::new();
    decoder.read_to_end(&mut out).map_err(|e| e.to_string())?;
    Ok(out)
}

/// `String::from_iter` over the characters, in order. Claimed: the string holds
/// exactly those characters.
#[verifier::external_body]
pub(crate) fn string_from_chars(chars: &Vec<char>) -> (res: String)
    ensures
        res@ == chars@,
{
    chars.iter().collect()
}

/// The characters of a string slice, in order (`str::chars` collected).
/// Claimed: the vector holds exactly the string's characters.
#[verifier::external_body]
pub(crate) fn chars_of(s: &str) -> (res: Vec<char>)
    ensures
        res@ == s@,
{
    s.chars().collect()
}

} // verus!
