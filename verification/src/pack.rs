//! Packing and unpacking a payload in memory: compression with the automatic
//! fallback, the payload AEAD, the header, and the checks after decryption.
//!
//! A packed payload unpacks to the plaintext that was packed: decryption with
//! the file key gives the compressed bytes, decompression with the original
//! size gives the plaintext, and its BLAKE3 hash is the stored one.
use vstd::prelude::*;

use crate::cli::CompressArg;
use crate::compress::{
    content_decompress, decompress_limit, lemma_zstd_expected_size, limited_decompress, make_compressor, stored_decompress,
    AnyCompressor, Compressor,
};
use crate::envelope::{decrypt_payload, encrypt_payload, payload_plaintext, FileKey, PAYLOAD_NONCE_LEN};
use crate::error::CoreError;
use crate::format::{CipherSuite, CompressionAlgo, FileHeader, IntegrityAlgo, Recipient};
use crate::integrity::{blake3_digest, blake3_hash, bytes_equal};
use crate::primitives::{aead_plaintext_limit, xchacha_seal, zstd_content, zstd_limited_read};

verus! {

/// The plaintext that decompressing `c` with `algo` gives when it is sure to
/// succeed: the bytes themselves without compression, the content of a
/// complete zstd frame sequence, each of the expected size.
pub open spec fn decompressed_for(algo: CompressionAlgo, c: Seq<u8>, size: u64) -> Option<Seq<u8>> {
    match algo {
        CompressionAlgo::Uncompressed => if c.len() == size {
            Some(c)
        } else {
            None
        },
        CompressionAlgo::Zstd => match zstd_content(c) {
            Some(x) => if x.len() == size {
                Some(x)
            } else {
                None
            },
            None => None,
        },
        CompressionAlgo::Bzip3 => None,
    }
}

/// Whether a sealed payload unpacks to `p`: it decrypts, decompresses to `p`,
/// and `p` hashes to the stored hash.
pub open spec fn payload_recovers(
    key: Seq<u8>,
    nonce: Seq<u8>,
    algo: CompressionAlgo,
    size: u64,
    ciphertext: Seq<u8>,
    hash: Seq<u8>,
    p: Seq<u8>,
) -> bool {
    &&& payload_plaintext(key, nonce, ciphertext) matches Some(c)
    &&& decompressed_for(algo, c, size) == Some(p)
    &&& blake3_digest(p) == hash
}

/// A payload ready for the header: the ciphertext, the compression used, the
/// original size and the hash of the original.
pub struct SealedPayload {
    pub ciphertext: Vec<u8>,
    pub algo: CompressionAlgo,
    pub original_size: u64,
    pub original_hash: [u8; 32],
}

/// Whether zstd is tried for a plaintext of `len` bytes: always when asked
/// for, never without compression, and in `Auto` mode from
/// `COMPRESS_THRESHOLD_BYTES` on.
pub open spec fn zstd_asked(arg: CompressArg, len: nat) -> bool {
    arg == CompressArg::Zstd || (arg == CompressArg::Auto && len >= crate::cli::COMPRESS_THRESHOLD_BYTES)
}

/// The packed bytes and algorithm when zstd gave `z` for the plaintext `p`:
/// the zstd frame, except in `Auto` mode when it is not smaller than `p`,
/// where `p` is stored as it is.
pub open spec fn packed_from(p: Seq<u8>, arg: CompressArg, z: Seq<u8>) -> (Seq<u8>, CompressionAlgo) {
    if arg == CompressArg::Auto && z.len() >= p.len() {
        (p, CompressionAlgo::Uncompressed)
    } else {
        (z, CompressionAlgo::Zstd)
    }
}

/// Chooses the packed form from what zstd returned for the plaintext: its
/// error as it came, or the frame, or in `Auto` mode the plaintext itself when
/// the frame is not smaller.
pub fn choose_packed(plaintext: Vec<u8>, arg: CompressArg, zstd_out: Result<Vec<u8>, CoreError>) -> (res: Result<
    (Vec<u8>, CompressionAlgo),
    CoreError,
>)
    ensures
        match zstd_out {
            Err(e) => res == Err::<(Vec<u8>, CompressionAlgo), CoreError>(e),
            Ok(z) => res matches Ok((c, algo)) && (c@, algo) == packed_from(plaintext@, arg, z@),
        },
{
    let z = match zstd_out {
        Ok(z) => z,
        Err(e) => return Err(e),
    };
    let auto = match arg {
        CompressArg::Auto => true,
        _ => false,
    };
    if auto && z.len() >= plaintext.len() {
        Ok((plaintext, CompressionAlgo::Uncompressed))
    } else {
        Ok((z, CompressionAlgo::Zstd))
    }
}

/// Compresses a plaintext as asked (zstd at level 3, with `workers` worker
/// threads for large inputs). Without zstd the plaintext is stored as it is;
/// with zstd the result is what `choose_packed` makes of zstd's frame, whose
/// content is the plaintext: the frame, or in `Auto` mode the stored
/// plaintext when the frame is not smaller.
pub fn compress_for_pack(plaintext: Vec<u8>, arg: CompressArg, workers: u32) -> (res: Result<(Vec<u8>, CompressionAlgo), CoreError>)
    ensures
        res matches Ok((c, algo)) ==> decompressed_for(algo, c@, plaintext@.len() as u64) == Some(plaintext@),
        !zstd_asked(arg, plaintext@.len()) ==> (res matches Ok((c, algo)) && c@ == plaintext@ && algo
            == CompressionAlgo::Uncompressed),
        zstd_asked(arg, plaintext@.len()) ==> (res matches Ok((c, algo)) ==> exists|z: Seq<u8>|
            #![trigger zstd_content(z)]
            zstd_content(z) == Some(plaintext@) && (c@, algo) == packed_from(plaintext@, arg, z)),
        res matches Ok((c, algo)) ==> (arg == CompressArg::Zstd ==> algo == CompressionAlgo::Zstd),
        res matches Ok((c, algo)) ==> (arg == CompressArg::Uncompressed ==> algo == CompressionAlgo::Uncompressed),
        res matches Ok((c, algo)) ==> (arg == CompressArg::Auto && algo == CompressionAlgo::Zstd ==> c@.len()
            < plaintext@.len()),
        res is Err ==> res matches Err(CoreError::Compression(_)),
{
    let chosen = crate::cli::decide_compression(arg, plaintext.len());
    match chosen {
        CompressionAlgo::Zstd => {
            let compressor = crate::compress::ZstdCompressor::new(3).with_workers(workers);
            let zstd_out = compressor.compress(plaintext.as_slice());
            let ghost p = plaintext@;
            let ghost zo = zstd_out;
            let res = choose_packed(plaintext, arg, zstd_out);
            proof {
                if let Ok(z) = zo {
                    assert(zstd_content(z@) == Some(p));
                }
            }
            res
        },
        _ => Ok((plaintext, CompressionAlgo::Uncompressed)),
    }
}

/// Compresses, hashes and encrypts a plaintext with the file key and a
/// 24-byte nonce. The bytes sealed are those `compress_for_pack` gives, and
/// the result unpacks to the plaintext.
pub fn seal_payload(plaintext: Vec<u8>, arg: CompressArg, workers: u32, file_key: &FileKey, nonce: &[u8]) -> (res: Result<SealedPayload, CoreError>)
    requires
        nonce@.len() == PAYLOAD_NONCE_LEN,
        plaintext@.len() + 16 < aead_plaintext_limit(),
    ensures
        res matches Ok(s) ==> {
            &&& s.original_size == plaintext@.len()
            &&& s.original_hash@ == blake3_digest(plaintext@)
            &&& payload_recovers(file_key@, nonce@, s.algo, s.original_size, s.ciphertext@, s.original_hash@, plaintext@)
        },
        res matches Ok(s) ==> (!zstd_asked(arg, plaintext@.len()) ==> s.algo == CompressionAlgo::Uncompressed
            && s.ciphertext@ == xchacha_seal(file_key@, nonce@, plaintext@)),
        res matches Ok(s) ==> (zstd_asked(arg, plaintext@.len()) ==> exists|z: Seq<u8>|
            #![trigger zstd_content(z)]
            zstd_content(z) == Some(plaintext@) && packed_from(plaintext@, arg, z).1 == s.algo && s.ciphertext@
                == xchacha_seal(file_key@, nonce@, packed_from(plaintext@, arg, z).0)),
        res matches Ok(s) ==> (arg == CompressArg::Zstd ==> s.algo == CompressionAlgo::Zstd),
        res is Err ==> (res matches Err(CoreError::Compression(_)) || res matches Err(CoreError::IntegrityFailed)),
        !zstd_asked(arg, plaintext@.len()) ==> res is Ok,
{
    let original_size = plaintext.len() as u64;
    let original_hash = blake3_hash(plaintext.as_slice());
    let ghost p = plaintext@;
    let (compressed, algo) = match compress_for_pack(plaintext, arg, workers) {
        Ok(r) => r,
        Err(e) => return Err(e),
    };
    let ciphertext = match encrypt_payload(file_key, nonce, compressed.as_slice()) {
        Ok(c) => c,
        Err(e) => return Err(e),
    };
    Ok(SealedPayload { ciphertext, algo, original_size, original_hash })
}

/// A header for a sealed payload: the current version, the XChaCha20 +
/// BLAKE3 suite, and at least one recipient.
pub fn build_header(
    sealed_algo: CompressionAlgo,
    recipients: Vec<Recipient>,
    payload_nonce: Vec<u8>,
    original_size: u64,
    created_at_unix: i64,
    label: Option<String>,
) -> (res: Result<FileHeader, String>)
    ensures
        recipients@.len() == 0 <==> res is Err,
        res matches Err(m) ==> m@ == "internal: no recipients constructed"@,
        res matches Ok(h) ==> {
            &&& h.version == crate::format::VERSION
            &&& h.suite == CipherSuite::V1Xchacha20Blake3
            &&& h.compression == sealed_algo
            &&& h.integrity == IntegrityAlgo::Blake3
            &&& h.recipients@ == recipients@
            &&& h.payload_nonce@ == payload_nonce@
            &&& h.original_size == original_size
            &&& h.created_at_unix == created_at_unix
            &&& h.label == label
            &&& h.split is None
            &&& h.chunks is None
        },
{
    if recipients.len() == 0 {
        return Err("internal: no recipients constructed".to_string());
    }
    let mut header = FileHeader::new(CipherSuite::V1Xchacha20Blake3, sealed_algo);
    header.integrity = IntegrityAlgo::Blake3;
    header.recipients = recipients;
    header.payload_nonce = payload_nonce;
    header.original_size = original_size;
    header.created_at_unix = created_at_unix;
    header.label = label;
    Ok(header)
}

/// Decrypts, decompresses and checks a payload with the recovered file key.
/// Decryption failures are those of `decrypt_payload`; an unsupported
/// compression is `UnsupportedCompression`; decompression failures are those
/// of the compressor with the header's original size as the expected size; a
/// plaintext whose hash is not the stored one is `IntegrityFailed`. A payload
/// packed by `seal_payload` unpacks to its plaintext.
pub fn open_payload(header: &FileHeader, payload: &[u8], original_hash: &[u8; 32], file_key: &FileKey) -> (res: Result<Vec<u8>, CoreError>)
    ensures
        res matches Ok(p) ==> blake3_digest(p@) == original_hash@ && p@.len() == header.original_size,
        payload_plaintext(file_key@, header.payload_nonce@, payload@) is None ==> res is Err,
        header.compression == CompressionAlgo::Bzip3 ==> res is Err,
        header.original_size <= usize::MAX ==> forall|p: Seq<u8>|
            payload_recovers(
                file_key@,
                header.payload_nonce@,
                header.compression,
                header.original_size,
                payload@,
                original_hash@,
                p,
            ) ==> #[trigger] res_is(res, p),
{
    let compressed = match decrypt_payload(file_key, header.payload_nonce.as_slice(), payload) {
        Ok(c) => c,
        Err(e) => return Err(e),
    };
    let compressor = match make_compressor(header.compression) {
        Ok(c) => c,
        Err(e) => return Err(e),
    };
    if header.original_size > usize::MAX as u64 {
        return Err(CoreError::SizeMismatch { expected: header.original_size, got: compressed.len() as u64 });
    }
    let expected = header.original_size as usize;
    let dres = compressor.decompress(compressed.as_slice(), Some(expected));
    proof {
        if header.compression == CompressionAlgo::Zstd {
            if let Some(x) = zstd_content(compressed@) {
                lemma_zstd_expected_size(x, compressed@.len(), expected, dres);
            }
        }
    }
    let plaintext = match dres {
        Ok(p) => p,
        Err(e) => return Err(e),
    };
    if plaintext.len() as u64 != header.original_size {
        return Err(CoreError::SizeMismatch { expected: header.original_size, got: plaintext.len() as u64 });
    }
    let actual = blake3_hash(plaintext.as_slice());
    if !bytes_equal(&actual, original_hash) {
        return Err(CoreError::IntegrityFailed);
    }
    Ok(plaintext)
}

/// `res` is success with `p`.
pub open spec fn res_is(res: Result<Vec<u8>, CoreError>, p: Seq<u8>) -> bool {
    res matches Ok(v) && v@ == p
}

} // verus!
