//! The byte layout of a qsafe file.
//!
//! ```text
//! [MAGIC 8B]
//! [HEADER_LEN u32 LE]
//! [HEADER CBOR]
//! [PAYLOAD_LEN u64 LE]
//! [PAYLOAD]
//! [ORIGINAL_HASH BLAKE3 32B]
//! ```
//!
//! The header travels as CBOR bytes: the application encodes a `FileHeader`
//! into them and decodes them back; this module frames and checks them.
use vstd::prelude::*;

use crate::bytes::{append_bytes, le_bytes, le_value, lemma_le_bytes_len, lemma_le_roundtrip, lemma_pow256_values, push_le, read_le};
use crate::error::CoreError;
use crate::format::{header_check, FileHeader, MAGIC, VERSION};

verus! {

/// Largest accepted header (16 MiB).
pub const MAX_HEADER_LEN: u32 = 16777216;

/// Largest accepted payload (1 PiB).
pub const MAX_PAYLOAD_LEN: u64 = 1125899906842624;

/// The message of a read that ran past the end of the input.
pub const UNEXPECTED_EOF: &'static str = "failed to fill whole buffer";

/// A decoded file: header, encrypted payload and the hash of the original.
#[derive(Debug)]
pub struct PackedFile {
    pub header: FileHeader,
    pub payload: Vec<u8>,
    pub original_hash: [u8; 32],
}

/// Magic, header length and header bytes.
pub open spec fn header_frame_bytes(header_bytes: Seq<u8>) -> Seq<u8> {
    MAGIC@ + le_bytes(header_bytes.len(), 4) + header_bytes
}

/// Payload length, payload and original hash.
pub open spec fn body_bytes(payload: Seq<u8>, original_hash: Seq<u8>) -> Seq<u8> {
    le_bytes(payload.len(), 8) + payload + original_hash
}

/// The whole file.
pub open spec fn packed_bytes(header_bytes: Seq<u8>, payload: Seq<u8>, original_hash: Seq<u8>) -> Seq<u8> {
    header_frame_bytes(header_bytes) + body_bytes(payload, original_hash)
}

/// The header length field of `b` (bytes 8 to 12).
pub open spec fn header_len_field(b: Seq<u8>) -> int {
    le_value(b.subrange(8, 12)) as int
}

/// The header bytes and the offset of the body, when `b` starts with a
/// well-formed header frame.
pub open spec fn frame_header(b: Seq<u8>) -> Option<(Seq<u8>, int)> {
    if b.len() < 12 || b.subrange(0, 8) != MAGIC@ || header_len_field(b) > MAX_HEADER_LEN
        || b.len() < 12 + header_len_field(b) {
        None
    } else {
        Some((b.subrange(12, 12 + header_len_field(b)), 12 + header_len_field(b)))
    }
}

/// The payload length field of a body.
pub open spec fn payload_len_field(r: Seq<u8>) -> int {
    le_value(r.subrange(0, 8)) as int
}

/// Payload and hash of a well-formed body with nothing after it.
pub open spec fn frame_body(r: Seq<u8>) -> Option<(Seq<u8>, Seq<u8>)> {
    if r.len() < 8 || payload_len_field(r) > MAX_PAYLOAD_LEN || r.len() != 8 + payload_len_field(r) + 32 {
        None
    } else {
        Some((r.subrange(8, 8 + payload_len_field(r)), r.subrange(8 + payload_len_field(r), r.len() as int)))
    }
}

/// An error that reports a read past the end of the input.
pub open spec fn is_eof(res: Result<PackedFile, CoreError>) -> bool {
    res matches Err(CoreError::Io(_))
}

/// Writes a packed file into a buffer. The header is validated first; its CBOR
/// encoding `header_bytes` may not exceed `MAX_HEADER_LEN`.
pub fn write_packed_file(header: &FileHeader, header_bytes: &[u8], payload: &[u8], original_hash: &[u8; 32]) -> (res: Result<Vec<u8>, CoreError>)
    ensures
        header_check(header) matches Err(e) ==> (res matches Err(f) && f == e),
        header_check(header) is Ok && header_bytes@.len() > MAX_HEADER_LEN ==> res matches Err(CoreError::HeaderEncode(_)),
        header_check(header) is Ok && header_bytes@.len() <= MAX_HEADER_LEN ==> (res matches Ok(v)
            && v@ == packed_bytes(header_bytes@, payload@, original_hash@)),
{
    match header.validate() {
        Ok(()) => {},
        Err(e) => return Err(e),
    }
    if header_bytes.len() > MAX_HEADER_LEN as usize {
        return Err(CoreError::HeaderEncode("header exceeds max size".to_string()));
    }
    let mut out: Vec<u8> = Vec::new();
    append_bytes(&mut out, &MAGIC);
    push_le(&mut out, header_bytes.len() as u64, 4);
    append_bytes(&mut out, header_bytes);
    push_le(&mut out, payload.len() as u64, 8);
    append_bytes(&mut out, payload);
    append_bytes(&mut out, original_hash);
    assert(out@ =~= packed_bytes(header_bytes@, payload@, original_hash@));
    Ok(out)
}

/// Reads the header frame at the start of `bytes`: the header bytes and the
/// offset of the body. A short input is an I/O error, a wrong magic
/// `InvalidMagic`, a header length over `MAX_HEADER_LEN` a decode error.
pub fn read_header_frame(bytes: &[u8]) -> (res: Result<(Vec<u8>, usize), CoreError>)
    ensures
        res is Ok <==> frame_header(bytes@) is Some,
        res matches Ok((h, off)) ==> frame_header(bytes@) == Some((h@, off as int)),
        bytes@.len() < 8 ==> res matches Err(CoreError::Io(_)),
        bytes@.len() >= 8 && bytes@.subrange(0, 8) != MAGIC@ ==> res matches Err(CoreError::InvalidMagic),
        bytes@.len() >= 8 && bytes@.subrange(0, 8) == MAGIC@ && bytes@.len() < 12 ==> res matches Err(CoreError::Io(_)),
        bytes@.len() >= 12 && bytes@.subrange(0, 8) == MAGIC@ && header_len_field(bytes@) > MAX_HEADER_LEN
            ==> res matches Err(CoreError::HeaderDecode(_)),
        bytes@.len() >= 12 && bytes@.subrange(0, 8) == MAGIC@ && header_len_field(bytes@) <= MAX_HEADER_LEN
            && bytes@.len() < 12 + header_len_field(bytes@) ==> res matches Err(CoreError::Io(_)),
{
    if bytes.len() < 8 {
        return Err(CoreError::Io(UNEXPECTED_EOF.to_string()));
    }
    let mut i: usize = 0;
    while i < 8
        invariant
            i <= 8,
            bytes@.len() >= 8,
            forall|j: int| 0 <= j < i ==> bytes@[j] == MAGIC@[j],
        decreases 8 - i,
    {
        if bytes[i] != MAGIC[i] {
            assert(bytes@.subrange(0, 8)[i as int] != MAGIC@[i as int]);
            return Err(CoreError::InvalidMagic);
        }
        i = i + 1;
    }
    assert(bytes@.subrange(0, 8) =~= MAGIC@);
    if bytes.len() < 12 {
        return Err(CoreError::Io(UNEXPECTED_EOF.to_string()));
    }
    let header_len = read_le(bytes, 8, 4);
    if header_len > MAX_HEADER_LEN as u64 {
        return Err(CoreError::HeaderDecode("header too large".to_string()));
    }
    let end = 12 + header_len as usize;
    if bytes.len() < end {
        return Err(CoreError::Io(UNEXPECTED_EOF.to_string()));
    }
    let header_bytes = vstd::slice::slice_to_vec(vstd::slice::slice_subrange(bytes, 12, end));
    Ok((header_bytes, end))
}

/// What reading the body `r` after a valid header gives.
pub open spec fn body_read(r: Seq<u8>, header: FileHeader, res: Result<PackedFile, CoreError>) -> bool {
    &&& r.len() < 8 ==> is_eof(res)
    &&& (r.len() >= 8 && payload_len_field(r) > MAX_PAYLOAD_LEN) ==> (res matches Err(CoreError::HeaderDecode(_)))
    &&& (r.len() >= 8 && payload_len_field(r) <= MAX_PAYLOAD_LEN && r.len() < 8 + payload_len_field(r) + 32)
        ==> (is_eof(res) || (payload_len_field(r) > usize::MAX && res matches Err(CoreError::HeaderDecode(_))))
    &&& (r.len() >= 8 && payload_len_field(r) <= MAX_PAYLOAD_LEN && r.len() > 8 + payload_len_field(r) + 32)
        ==> (res matches Err(CoreError::TrailingBytes))
    &&& res is Ok <==> frame_body(r) is Some
    &&& res matches Ok(pf) ==> (frame_body(r) == Some((pf.payload@, pf.original_hash@)) && pf.header == header)
}

/// Finishes reading a packed file whose header frame ends at `body_start` and
/// whose header the application decoded. The header must be of a known
/// version and valid; then come the payload length (at most
/// `MAX_PAYLOAD_LEN`), the payload, the 32-byte hash, and nothing more.
pub fn read_packed_file(header: FileHeader, bytes: &[u8], body_start: usize) -> (res: Result<PackedFile, CoreError>)
    requires
        body_start <= bytes@.len(),
    ensures
        header.version > VERSION ==> (res matches Err(CoreError::UnsupportedVersion(v)) && v == header.version),
        header.version <= VERSION && header_check(&header) is Err ==> (res matches Err(f) && header_check(&header) == Err::<(), CoreError>(f)),
        header.version <= VERSION && header_check(&header) is Ok ==> body_read(
            bytes@.subrange(body_start as int, bytes@.len() as int),
            header,
            res,
        ),
{
    let ghost r = bytes@.subrange(body_start as int, bytes@.len() as int);
    if header.version > VERSION {
        return Err(CoreError::UnsupportedVersion(header.version));
    }
    match header.validate() {
        Ok(()) => {},
        Err(e) => return Err(e),
    }
    let rest = bytes.len() - body_start;
    if rest < 8 {
        return Err(CoreError::Io(UNEXPECTED_EOF.to_string()));
    }
    let payload_len = read_le(bytes, body_start, 8);
    assert(bytes@.subrange(body_start as int, body_start + 8) =~= r.subrange(0, 8));
    if payload_len > MAX_PAYLOAD_LEN {
        return Err(CoreError::HeaderDecode("payload too large".to_string()));
    }
    if payload_len > usize::MAX as u64 {
        return Err(CoreError::HeaderDecode("payload size exceeds platform".to_string()));
    }
    let plen = payload_len as usize;
    if rest - 8 < plen {
        return Err(CoreError::Io(UNEXPECTED_EOF.to_string()));
    }
    if rest - 8 - plen < 32 {
        return Err(CoreError::Io(UNEXPECTED_EOF.to_string()));
    }
    if rest - 8 - plen > 32 {
        return Err(CoreError::TrailingBytes);
    }
    let pstart = body_start + 8;
    let payload = vstd::slice::slice_to_vec(vstd::slice::slice_subrange(bytes, pstart, pstart + plen));
    let mut original_hash: [u8; 32] = [0u8; 32];
    let hstart = pstart + plen;
    let mut i: usize = 0;
    while i < 32
        invariant
            i <= 32,
            hstart + 32 == bytes.len(),
            original_hash@.len() == 32,
            forall|j: int| 0 <= j < i ==> original_hash@[j] == bytes@[hstart + j],
        decreases 32 - i,
    {
        original_hash[i] = bytes[hstart + i];
        i = i + 1;
    }
    assert(payload@ =~= r.subrange(8, 8 + payload_len_field(r)));
    assert(original_hash@ =~= r.subrange(8 + payload_len_field(r), r.len() as int));
    Ok(PackedFile { header, payload, original_hash })
}

/// Writing a header frame and reading it back gives the header bytes and the
/// offset where the body starts, whatever follows the frame.
pub proof fn lemma_header_frame_roundtrip(header_bytes: Seq<u8>, rest: Seq<u8>)
    requires
        header_bytes.len() <= MAX_HEADER_LEN,
    ensures
        frame_header(header_frame_bytes(header_bytes) + rest) == Some(
            (header_bytes, 12 + header_bytes.len() as int),
        ),
{
    let b = header_frame_bytes(header_bytes) + rest;
    lemma_le_bytes_len(header_bytes.len(), 4);
    lemma_pow256_values();
    lemma_le_roundtrip(header_bytes.len(), 4);
    assert(b.subrange(0, 8) =~= MAGIC@);
    assert(b.subrange(8, 12) =~= le_bytes(header_bytes.len(), 4));
    assert(b.subrange(12, 12 + header_bytes.len() as int) =~= header_bytes);
}

/// Writing a body (payload of at most `MAX_PAYLOAD_LEN` bytes and a 32-byte
/// hash) and reading it back gives the payload and the hash.
pub proof fn lemma_body_roundtrip(payload: Seq<u8>, original_hash: Seq<u8>)
    requires
        payload.len() <= MAX_PAYLOAD_LEN,
        original_hash.len() == 32,
    ensures
        frame_body(body_bytes(payload, original_hash)) == Some((payload, original_hash)),
{
    let r = body_bytes(payload, original_hash);
    lemma_le_bytes_len(payload.len(), 8);
    lemma_pow256_values();
    lemma_le_roundtrip(payload.len(), 8);
    assert(r.subrange(0, 8) =~= le_bytes(payload.len(), 8));
    assert(r.subrange(8, 8 + payload.len() as int) =~= payload);
    assert(r.subrange(8 + payload.len() as int, r.len() as int) =~= original_hash);
}

/// What `write_packed_file` writes, `read_header_frame` and `read_packed_file`
/// read back: the same header bytes, payload and hash.
pub proof fn lemma_packed_roundtrip(header_bytes: Seq<u8>, payload: Seq<u8>, original_hash: Seq<u8>)
    requires
        header_bytes.len() <= MAX_HEADER_LEN,
        payload.len() <= MAX_PAYLOAD_LEN,
        original_hash.len() == 32,
    ensures
        frame_header(packed_bytes(header_bytes, payload, original_hash)) == Some(
            (header_bytes, 12 + header_bytes.len() as int),
        ),
        frame_body(
            packed_bytes(header_bytes, payload, original_hash).subrange(
                12 + header_bytes.len() as int,
                packed_bytes(header_bytes, payload, original_hash).len() as int,
            ),
        ) == Some((payload, original_hash)),
{
    let b = packed_bytes(header_bytes, payload, original_hash);
    lemma_header_frame_roundtrip(header_bytes, body_bytes(payload, original_hash));
    lemma_le_bytes_len(header_bytes.len(), 4);
    assert(b.subrange(12 + header_bytes.len() as int, b.len() as int) =~= body_bytes(payload, original_hash));
    lemma_body_roundtrip(payload, original_hash);
}

} // verus!
