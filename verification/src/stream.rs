//! Chunked encryption of large payloads.
//!
//! ```text
//! [MAGIC 8B][HEADER_LEN u32][HEADER CBOR with chunks=Some]
//! [chunk_0_ct_len u32 LE][chunk_0_ct]
//! ...
//! [chunk_N-1_ct_len u32 LE][chunk_N-1_ct]
//! [ORIGINAL_HASH 32B]
//! ```
//!
//! Every chunk has its own nonce (base nonce followed by its index), so chunks
//! cannot be reordered, and the header's chunk count says how many to read.
//! The last chunk is sealed under the base nonce with the top bit of its last
//! byte flipped, so a stream cut short at a record boundary is refused: its
//! new last record was not sealed as a last chunk.
use vstd::prelude::*;

use crate::bytes::{append_bytes, le_bytes, le_value, lemma_le_bytes_len, lemma_le_roundtrip, lemma_pow256_values, push_le, read_le};
use crate::envelope::{chunk_nonce, decrypt_chunk, encrypt_chunk, FileKey, STREAM_CHUNK_SIZE};
use crate::error::CoreError;
use crate::format::{header_check, ChunkInfo, FileHeader};
use crate::io::{frame_header, read_header_frame, header_frame_bytes, header_len_field, MAX_HEADER_LEN, UNEXPECTED_EOF};
use crate::primitives::{xchacha_open, xchacha_seal};
use crate::integrity::{blake3_digest, hasher_fed, hasher_finalize, hasher_new, hasher_update};

verus! {

/// Payloads larger than this are packed in streaming mode (100 MB).
pub const STREAM_THRESHOLD: u64 = 104857600;

/// Largest accepted chunk ciphertext: a full chunk plus room for the tag.
pub const MAX_CHUNK_CT_LEN: usize = 4194432;

/// Number of chunks of a plaintext of `len` bytes; an empty plaintext still
/// has one (empty) chunk.
pub open spec fn chunk_count(len: nat) -> nat {
    if len == 0 {
        1
    } else {
        ((len + STREAM_CHUNK_SIZE - 1) / STREAM_CHUNK_SIZE as int) as nat
    }
}

/// Chunk `i` of a plaintext.
pub open spec fn chunk_at(p: Seq<u8>, i: int) -> Seq<u8> {
    let start = i * STREAM_CHUNK_SIZE;
    let end = if (i + 1) * STREAM_CHUNK_SIZE < p.len() { (i + 1) * STREAM_CHUNK_SIZE } else { p.len() as int };
    p.subrange(start, end)
}

/// The most chunks a stream can have: its chunk count is a `u32`.
pub const MAX_STREAM_CHUNKS: u32 = 0xffff_ffff;

/// The base nonce of the last chunk of a stream: the stream's base nonce with
/// the top bit of its last byte flipped.
pub open spec fn last_chunk_base(base: Seq<u8>) -> Seq<u8> {
    base.update(19, ((base[19] + 128) % 256) as u8)
}

/// The nonce of chunk `i` of a stream of `total` chunks: the chunk's index
/// after the base nonce, or after the last-chunk base nonce for the last chunk.
pub open spec fn stream_nonce(base: Seq<u8>, i: nat, total: nat) -> Seq<u8> {
    if i + 1 == total {
        chunk_nonce(last_chunk_base(base), i as u32)
    } else {
        chunk_nonce(base, i as u32)
    }
}

/// The record of chunk `i` of a stream of `total` chunks: the ciphertext's
/// little-endian length, then the ciphertext.
pub open spec fn stream_record(key: Seq<u8>, base: Seq<u8>, chunk: Seq<u8>, i: nat, total: nat) -> Seq<u8> {
    let ct = xchacha_seal(key, stream_nonce(base, i, total), chunk);
    le_bytes(ct.len(), 4) + ct
}

/// The records of the first `n` chunks of `p`, sealed as a stream of `total`
/// chunks.
pub open spec fn sealed_stream(key: Seq<u8>, base: Seq<u8>, p: Seq<u8>, total: nat, n: nat) -> Seq<u8>
    decreases n,
{
    if n == 0 {
        Seq::empty()
    } else {
        sealed_stream(key, base, p, total, (n - 1) as nat) + stream_record(key, base, chunk_at(p, n - 1), (n - 1) as nat, total)
    }
}

/// Reading the record of chunk `i` of a stream of `total` chunks at `pos` of
/// `s`: the chunk and where the next record starts, or why it stopped (0: the
/// input ended, 1: a length over `MAX_CHUNK_CT_LEN`, 2: a ciphertext that does
/// not authenticate under the chunk's nonce).
pub open spec fn opened_record(key: Seq<u8>, base: Seq<u8>, s: Seq<u8>, pos: int, i: nat, total: nat) -> Result<(Seq<u8>, int), u8> {
    if s.len() < pos + 4 {
        Err(0u8)
    } else {
        let l = le_value(s.subrange(pos, pos + 4)) as int;
        if l > MAX_CHUNK_CT_LEN {
            Err(1u8)
        } else if s.len() < pos + 4 + l {
            Err(0u8)
        } else {
            match xchacha_open(key, stream_nonce(base, i, total), s.subrange(pos + 4, pos + 4 + l)) {
                None => Err(2u8),
                Some(c) => Ok((c, pos + 4 + l)),
            }
        }
    }
}

/// Reading the first `n` records of a stream of `total` chunks from the start
/// of `s`: the plaintext and the number of bytes read, or why it stopped.
pub open spec fn opened_stream(key: Seq<u8>, base: Seq<u8>, s: Seq<u8>, total: nat, n: nat) -> Result<(Seq<u8>, int), u8>
    decreases n,
{
    if n == 0 {
        Ok((Seq::empty(), 0))
    } else {
        match opened_stream(key, base, s, total, (n - 1) as nat) {
            Err(f) => Err(f),
            Ok((pt, pos)) => match opened_record(key, base, s, pos, (n - 1) as nat, total) {
                Err(f) => Err(f),
                Ok((c, next)) => Ok((pt + c, next)),
            },
        }
    }
}

/// The nonce of the last chunk of a stream is the nonce of no chunk that is
/// not the last of its stream (under the same base nonce): a stream cut short
/// before its last record cannot pass for a complete one.
pub proof fn lemma_last_chunk_nonce_distinct(base: Seq<u8>, i: nat, total: nat, j: nat, other_total: nat)
    requires
        base.len() == crate::envelope::STREAM_BASE_NONCE_LEN,
        i + 1 == total,
        j + 1 < other_total,
    ensures
        stream_nonce(base, i, total) != stream_nonce(base, j, other_total),
{
    if stream_nonce(base, i, total) == stream_nonce(base, j, other_total) {
        crate::envelope::lemma_chunk_nonce_unique(last_chunk_base(base), i as u32, base, j as u32);
        assert(last_chunk_base(base)[19] != base[19]);
    }
}

/// A successful read ends within the input.
proof fn lemma_opened_pos(key: Seq<u8>, base: Seq<u8>, s: Seq<u8>, total: nat, n: nat)
    requires
        opened_stream(key, base, s, total, n) is Ok,
    ensures
        0 <= opened_stream(key, base, s, total, n)->Ok_0.1 <= s.len(),
    decreases n,
{
    if n > 0 {
        lemma_opened_pos(key, base, s, total, (n - 1) as nat);
    }
}

/// Reading records back is not disturbed by bytes after them.
proof fn lemma_opened_prefix(key: Seq<u8>, base: Seq<u8>, s: Seq<u8>, t: Seq<u8>, total: nat, n: nat)
    requires
        opened_stream(key, base, s, total, n) is Ok,
    ensures
        opened_stream(key, base, s + t, total, n) == opened_stream(key, base, s, total, n),
    decreases n,
{
    if n > 0 {
        lemma_opened_prefix(key, base, s, t, total, (n - 1) as nat);
        lemma_opened_pos(key, base, s, total, (n - 1) as nat);
        let (pt, pos) = opened_stream(key, base, s, total, (n - 1) as nat)->Ok_0;
        assert((s + t).subrange(pos, pos + 4) =~= s.subrange(pos, pos + 4));
        let l = le_value(s.subrange(pos, pos + 4)) as int;
        assert((s + t).subrange(pos + 4, pos + 4 + l) =~= s.subrange(pos + 4, pos + 4 + l));
    }
}

/// The base nonce that chunk `idx` of a stream of `total` chunks is sealed
/// under: the stream's own, or for the last chunk the last-chunk base nonce.
fn record_base(base: &[u8; 20], idx: u32, total: u32) -> (r: [u8; 20])
    requires
        idx < total,
    ensures
        chunk_nonce(r@, idx) == stream_nonce(base@, idx as nat, total as nat),
{
    let mut b = *base;
    if idx + 1 == total {
        let last = b[19];
        b[19] = if last >= 128 {
            last - 128
        } else {
            last + 128
        };
        assert(b@ =~= last_chunk_base(base@));
    }
    b
}

/// The last chunk of a nonempty plaintext ends where the plaintext ends.
proof fn lemma_chunk_count(len: nat, idx: nat)
    requires
        len > 0,
        (idx - 1) * STREAM_CHUNK_SIZE < len,
        len <= idx * STREAM_CHUNK_SIZE,
        idx >= 1,
    ensures
        chunk_count(len) == idx,
{
    assert(((len + STREAM_CHUNK_SIZE - 1) / STREAM_CHUNK_SIZE as int) == idx) by (nonlinear_arith)
        requires
            (idx - 1) * 4194304 < len,
            len <= idx * 4194304,
            idx >= 1,
    ;
}

/// A plaintext longer than `k` chunks has more than `k` chunks.
proof fn lemma_chunk_count_more(len: nat, k: nat)
    requires
        k * STREAM_CHUNK_SIZE < len,
    ensures
        chunk_count(len) > k,
{
    assert((len + STREAM_CHUNK_SIZE - 1) / STREAM_CHUNK_SIZE as int > k) by (nonlinear_arith)
        requires
            k * 4194304 < len,
    ;
}

/// Encrypts a whole plaintext in chunks of `STREAM_CHUNK_SIZE` bytes, each
/// framed by its little-endian length; the last chunk is sealed under the
/// last-chunk nonce. Returns the stream, the number of chunks and the size of
/// the last one; an empty plaintext gives one empty chunk. Every record's
/// ciphertext is 16 bytes longer than its chunk, and reading the stream back
/// gives the plaintext.
#[verifier::rlimit(50)]
#[verifier::spinoff_prover]
pub fn stream_encrypt(plaintext: &[u8], file_key: &FileKey, base_nonce: &[u8; 20]) -> (res: Result<(Vec<u8>, u32, u32), CoreError>)
    requires
        plaintext@.len() <= MAX_STREAM_CHUNKS * STREAM_CHUNK_SIZE,
    ensures
        res matches Ok((s, n, last)) && {
            &&& n == chunk_count(plaintext@.len())
            &&& last == chunk_at(plaintext@, n - 1).len()
            &&& s@ == sealed_stream(file_key@, base_nonce@, plaintext@, n as nat, n as nat)
            &&& forall|i: int|
                0 <= i < n ==> xchacha_seal(
                    file_key@,
                    stream_nonce(base_nonce@, i as nat, n as nat),
                    #[trigger] chunk_at(plaintext@, i),
                ).len() == chunk_at(plaintext@, i).len() + 16
            &&& opened_stream(file_key@, base_nonce@, s@, n as nat, n as nat) == Ok::<(Seq<u8>, int), u8>(
                (plaintext@, s@.len() as int),
            )
        },
{
    let len = plaintext.len();
    let mut out: Vec<u8> = Vec::new();
    if len == 0 {
        let ct = match encrypt_chunk(file_key, &record_base(base_nonce, 0, 1), 0, plaintext) {
            Ok(c) => c,
            Err(e) => return Err(e),
        };
        push_le(&mut out, ct.len() as u64, 4);
        append_bytes(&mut out, ct.as_slice());
        proof {
            lemma_pow256_values();
            lemma_le_bytes_len(ct@.len(), 4);
            lemma_le_roundtrip(ct@.len(), 4);
            assert(chunk_at(plaintext@, 0) =~= plaintext@);
            assert(out@.subrange(0, 4) =~= le_bytes(ct@.len(), 4));
            assert(out@.subrange(4, 4 + ct@.len() as int) =~= ct@);
            reveal_with_fuel(sealed_stream, 2);
            reveal_with_fuel(opened_stream, 2);
            assert(out@ =~= sealed_stream(file_key@, base_nonce@, plaintext@, 1, 1));
            assert(Seq::<u8>::empty() + plaintext@ =~= plaintext@);
        }
        return Ok((out, 1, 0));
    }
    let total_usize: usize = (len - 1) / STREAM_CHUNK_SIZE + 1;
    proof {
        assert((len - 1) / 4194304 + 1 == (len + 4194303) / 4194304) by (nonlinear_arith)
            requires
                len > 0,
        ;
        assert((len - 1) / 4194304 + 1 <= 4294967295) by (nonlinear_arith)
            requires
                len > 0,
                len <= 4294967295 * 4194304,
        ;
    }
    let total: u32 = total_usize as u32;
    assert(total == chunk_count(len as nat));
    let mut idx: u32 = 0;
    let mut offset: usize = 0;
    let mut last: u32 = 0;
    assert(plaintext@.subrange(0, 0) =~= Seq::<u8>::empty());
    while offset < len
        invariant
            len == plaintext@.len(),
            len > 0,
            len <= MAX_STREAM_CHUNKS * STREAM_CHUNK_SIZE,
            total == chunk_count(len as nat),
            offset <= len,
            offset < len ==> offset == idx * STREAM_CHUNK_SIZE,
            offset < len ==> idx < total,
            offset == len ==> (idx >= 1 && (idx - 1) * STREAM_CHUNK_SIZE < len && len <= idx * STREAM_CHUNK_SIZE
                && last == chunk_at(plaintext@, idx - 1).len()),
            idx * STREAM_CHUNK_SIZE <= len + STREAM_CHUNK_SIZE,
            out@ == sealed_stream(file_key@, base_nonce@, plaintext@, total as nat, idx as nat),
            forall|i: int|
                0 <= i < idx ==> xchacha_seal(
                    file_key@,
                    stream_nonce(base_nonce@, i as nat, total as nat),
                    #[trigger] chunk_at(plaintext@, i),
                ).len() == chunk_at(plaintext@, i).len() + 16,
            opened_stream(file_key@, base_nonce@, out@, total as nat, idx as nat) == Ok::<(Seq<u8>, int), u8>(
                (plaintext@.subrange(0, offset as int), out@.len() as int),
            ),
        decreases len - offset,
    {
        let is_last = len - offset <= STREAM_CHUNK_SIZE;
        let end: usize = if is_last {
            len
        } else {
            offset + STREAM_CHUNK_SIZE
        };
        proof {
            if is_last {
                lemma_chunk_count(len as nat, (idx + 1) as nat);
            } else {
                lemma_chunk_count_more(len as nat, (idx + 1) as nat);
            }
        }
        let chunk = vstd::slice::slice_subrange(plaintext, offset, end);
        assert(chunk@ =~= chunk_at(plaintext@, idx as int));
        let ct = match encrypt_chunk(file_key, &record_base(base_nonce, idx, total), idx, chunk) {
            Ok(c) => c,
            Err(e) => return Err(e),
        };
        let ghost old_out = out@;
        push_le(&mut out, ct.len() as u64, 4);
        append_bytes(&mut out, ct.as_slice());
        proof {
            lemma_pow256_values();
            lemma_le_bytes_len(ct@.len(), 4);
            lemma_le_roundtrip(ct@.len(), 4);
            let added = le_bytes(ct@.len(), 4) + ct@;
            assert(out@ =~= old_out + added);
            lemma_opened_prefix(file_key@, base_nonce@, old_out, added, total as nat, idx as nat);
            let pos = old_out.len() as int;
            assert(out@.subrange(pos, pos + 4) =~= le_bytes(ct@.len(), 4));
            assert(out@.subrange(pos + 4, pos + 4 + ct@.len() as int) =~= ct@);
            assert(plaintext@.subrange(0, offset as int) + chunk@ =~= plaintext@.subrange(0, end as int));
            assert(out@ =~= sealed_stream(file_key@, base_nonce@, plaintext@, total as nat, (idx + 1) as nat));
        }
        last = (end - offset) as u32;
        offset = end;
        idx = idx + 1;
    }
    proof {
        lemma_chunk_count(len as nat, idx as nat);
        assert(plaintext@.subrange(0, len as int) =~= plaintext@);
    }
    Ok((out, idx, last))
}

/// `stream_encrypt` that also hashes the plaintext with BLAKE3 and counts its
/// bytes: the stream, the number of chunks, the size of the last one, the
/// number of plaintext bytes and the plaintext's digest.
pub fn stream_encrypt_with_hash(plaintext: &[u8], file_key: &FileKey, base_nonce: &[u8; 20]) -> (res: Result<
    (Vec<u8>, u32, u32, u64, [u8; 32]),
    CoreError,
>)
    requires
        plaintext@.len() <= MAX_STREAM_CHUNKS * STREAM_CHUNK_SIZE,
    ensures
        res matches Ok((s, n, last, total, digest)) && {
            &&& n == chunk_count(plaintext@.len())
            &&& last == chunk_at(plaintext@, n - 1).len()
            &&& s@ == sealed_stream(file_key@, base_nonce@, plaintext@, n as nat, n as nat)
            &&& opened_stream(file_key@, base_nonce@, s@, n as nat, n as nat) == Ok::<(Seq<u8>, int), u8>(
                (plaintext@, s@.len() as int),
            )
            &&& total == plaintext@.len()
            &&& digest@ == crate::integrity::blake3_digest(plaintext@)
        },
{
    let digest = crate::integrity::blake3_hash(plaintext);
    match stream_encrypt(plaintext, file_key, base_nonce) {
        Ok((s, n, last)) => Ok((s, n, last, plaintext.len() as u64, digest)),
        Err(e) => Err(e),
    }
}

/// What reading records from `s` gives, as the library reports it.
pub open spec fn opened_result(opened: Result<(Seq<u8>, int), u8>, res: Result<(Vec<u8>, usize), CoreError>) -> bool {
    match opened {
        Ok((p, pos)) => res matches Ok((v, c)) && v@ == p && c == pos,
        Err(0u8) => res matches Err(CoreError::Io(_)),
        Err(1u8) => res matches Err(CoreError::HeaderDecode(_)),
        Err(_) => res matches Err(CoreError::IntegrityFailed),
    }
}

/// Reads and opens the record of chunk `idx` of a stream of `total` chunks at
/// `pos`: the chunk and where the next record starts.
fn open_record(stream: &[u8], pos: usize, file_key: &FileKey, base_nonce: &[u8; 20], idx: u32, total: u32) -> (res: Result<
    (Vec<u8>, usize),
    CoreError,
>)
    requires
        pos <= stream@.len(),
        idx < total,
    ensures
        opened_result(opened_record(file_key@, base_nonce@, stream@, pos as int, idx as nat, total as nat), res),
{
    if stream.len() - pos < 4 {
        return Err(CoreError::Io(UNEXPECTED_EOF.to_string()));
    }
    let ct_len = read_le(stream, pos, 4);
    if ct_len > MAX_CHUNK_CT_LEN as u64 {
        return Err(CoreError::HeaderDecode("chunk too large".to_string()));
    }
    let l = ct_len as usize;
    if stream.len() - pos - 4 < l {
        return Err(CoreError::Io(UNEXPECTED_EOF.to_string()));
    }
    let ct = vstd::slice::slice_subrange(stream, pos + 4, pos + 4 + l);
    match decrypt_chunk(file_key, &record_base(base_nonce, idx, total), idx, ct) {
        Ok(p) => Ok((p, pos + 4 + l)),
        Err(e) => Err(e),
    }
}

/// Decrypts the `expected_chunks` records of a stream of that many chunks from
/// the start of `stream`, the last one under the last-chunk nonce. Returns the
/// plaintext and the number of bytes the records took. A stream that ends early
/// is an I/O error, a record length over `MAX_CHUNK_CT_LEN` a decode error, a
/// record that does not authenticate as the chunk at its place (the last one as
/// the last chunk) an integrity error.
pub fn stream_decrypt(stream: &[u8], file_key: &FileKey, base_nonce: &[u8; 20], expected_chunks: u32) -> (res: Result<(Vec<u8>, usize), CoreError>)
    ensures
        opened_result(
            opened_stream(file_key@, base_nonce@, stream@, expected_chunks as nat, expected_chunks as nat),
            res,
        ),
{
    let mut out: Vec<u8> = Vec::new();
    let mut pos: usize = 0;
    let mut idx: u32 = 0;
    while idx < expected_chunks
        invariant
            idx <= expected_chunks,
            pos <= stream@.len(),
            opened_stream(file_key@, base_nonce@, stream@, expected_chunks as nat, idx as nat) == Ok::<(Seq<u8>, int), u8>(
                (out@, pos as int),
            ),
        decreases expected_chunks - idx,
    {
        let (pt, next) = match open_record(stream, pos, file_key, base_nonce, idx, expected_chunks) {
            Ok(r) => r,
            Err(e) => {
                proof {
                    lemma_opened_monotone(
                        file_key@,
                        base_nonce@,
                        stream@,
                        expected_chunks as nat,
                        (idx + 1) as nat,
                        expected_chunks as nat,
                    );
                }
                return Err(e);
            },
        };
        append_bytes(&mut out, pt.as_slice());
        pos = next;
        idx = idx + 1;
    }
    Ok((out, pos))
}

/// `stream_decrypt` that also hashes the recovered plaintext with BLAKE3: the
/// plaintext, the number of stream bytes the records took and the plaintext's
/// digest. Errors are those of `stream_decrypt`.
pub fn stream_decrypt_with_hash(stream: &[u8], file_key: &FileKey, base_nonce: &[u8; 20], expected_chunks: u32) -> (res: Result<
    (Vec<u8>, usize, [u8; 32]),
    CoreError,
>)
    ensures
        match opened_stream(
            file_key@,
            base_nonce@,
            stream@,
            expected_chunks as nat,
            expected_chunks as nat,
        ) {
            Ok((p, pos)) => res matches Ok((v, c, d)) && v@ == p && c == pos && d@ == crate::integrity::blake3_digest(p),
            Err(0u8) => res matches Err(CoreError::Io(_)),
            Err(1u8) => res matches Err(CoreError::HeaderDecode(_)),
            Err(_) => res matches Err(CoreError::IntegrityFailed),
        },
{
    match stream_decrypt(stream, file_key, base_nonce, expected_chunks) {
        Ok((pt, used)) => {
            let digest = crate::integrity::blake3_hash(pt.as_slice());
            Ok((pt, used, digest))
        },
        Err(e) => Err(e),
    }
}

/// A failure to read the first records is a failure to read more.
proof fn lemma_opened_monotone(key: Seq<u8>, base: Seq<u8>, s: Seq<u8>, total: nat, i: nat, n: nat)
    requires
        i <= n,
        opened_stream(key, base, s, total, i) is Err,
    ensures
        opened_stream(key, base, s, total, n) == opened_stream(key, base, s, total, i),
    decreases n - i,
{
    if i < n {
        lemma_opened_monotone(key, base, s, total, i, (n - 1) as nat);
    }
}

/// The state of packing a stream chunk by chunk: the key and base nonce, the
/// number of chunks the header announces, the next chunk's index, the
/// plaintext bytes packed so far and the hash of them.
pub struct StreamPacker {
    pub file_key: FileKey,
    pub base_nonce: [u8; 20],
    pub chunks: u32,
    pub next: u32,
    pub bytes: u64,
    pub hasher: blake3::Hasher,
}

impl StreamPacker {
    /// A packer for a stream of `chunks` chunks that has packed nothing yet.
    pub fn new(file_key: FileKey, base_nonce: [u8; 20], chunks: u32) -> (st: StreamPacker)
        ensures
            st.file_key@ == file_key@,
            st.base_nonce@ == base_nonce@,
            st.chunks == chunks,
            st.next == 0,
            st.bytes == 0,
            hasher_fed(st.hasher) == Seq::<u8>::empty(),
    {
        StreamPacker { file_key, base_nonce, chunks, next: 0, bytes: 0, hasher: hasher_new() }
    }
}

/// Packs the next chunk: its record (ciphertext length, then the ciphertext
/// sealed under the chunk's nonce, the last-chunk nonce for the announced last
/// chunk) and the packer moved one chunk on, with the chunk hashed and
/// counted. A chunk past the announced count is "too many chunks"; a chunk over `STREAM_CHUNK_SIZE`
/// bytes is "chunk too large"; a byte count past `u64::MAX` is "too many
/// bytes".
pub fn stream_pack_step(state: StreamPacker, chunk: &[u8]) -> (res: Result<(StreamPacker, Vec<u8>), CoreError>)
    ensures
        res is Ok <==> (state.next < state.chunks && chunk@.len()
            <= STREAM_CHUNK_SIZE && state.bytes + chunk@.len() <= u64::MAX),
        !(state.next < state.chunks) ==> (res matches Err(
            CoreError::HeaderEncode(m),
        ) && m@ == "too many chunks"@),
        (state.next < state.chunks && chunk@.len() > STREAM_CHUNK_SIZE) ==> (
        res matches Err(CoreError::HeaderEncode(m)) && m@ == "chunk too large"@),
        (state.next < state.chunks && chunk@.len() <= STREAM_CHUNK_SIZE
            && state.bytes + chunk@.len() > u64::MAX) ==> (res matches Err(CoreError::HeaderEncode(m)) && m@
            == "too many bytes"@),
        res matches Ok((st, rec)) ==> {
            &&& st.file_key@ == state.file_key@
            &&& st.base_nonce@ == state.base_nonce@
            &&& st.chunks == state.chunks
            &&& st.next == state.next + 1
            &&& st.bytes == state.bytes + chunk@.len()
            &&& hasher_fed(st.hasher) == hasher_fed(state.hasher) + chunk@
            &&& rec@ == stream_record(state.file_key@, state.base_nonce@, chunk@, state.next as nat, state.chunks as nat)
            &&& rec@.len() == chunk@.len() + 20
        },
{
    if !(state.next < state.chunks) {
        return Err(CoreError::HeaderEncode("too many chunks".to_string()));
    }
    if chunk.len() > STREAM_CHUNK_SIZE {
        return Err(CoreError::HeaderEncode("chunk too large".to_string()));
    }
    if state.bytes > u64::MAX - chunk.len() as u64 {
        return Err(CoreError::HeaderEncode("too many bytes".to_string()));
    }
    let StreamPacker { file_key, base_nonce, chunks, next, bytes, hasher } = state;
    let mut hasher = hasher;
    let ct = match encrypt_chunk(&file_key, &record_base(&base_nonce, next, chunks), next, chunk) {
        Ok(c) => c,
        Err(e) => return Err(e),
    };
    let mut rec: Vec<u8> = Vec::new();
    push_le(&mut rec, ct.len() as u64, 4);
    append_bytes(&mut rec, ct.as_slice());
    proof {
        lemma_pow256_values();
        lemma_le_bytes_len(ct@.len(), 4);
        assert(rec@ =~= le_bytes(ct@.len(), 4) + ct@);
    }
    hasher_update(&mut hasher, chunk);
    let st = StreamPacker { file_key, base_nonce, chunks, next: next + 1, bytes: bytes + chunk.len() as u64, hasher };
    Ok((st, rec))
}

/// Ends packing: the digest of all the packed bytes, to store after the last
/// record. A packer that has not packed every announced chunk is "missing
/// chunks"; one whose byte count is not `expected_bytes` is a size mismatch.
pub fn stream_pack_finish(state: &StreamPacker, expected_bytes: u64) -> (res: Result<[u8; 32], CoreError>)
    ensures
        res is Ok <==> (state.next == state.chunks && state.bytes == expected_bytes),
        state.next != state.chunks ==> (res matches Err(CoreError::HeaderEncode(m)) && m@ == "missing chunks"@),
        state.next == state.chunks && state.bytes != expected_bytes ==> res == Err::<[u8; 32], CoreError>(
            CoreError::SizeMismatch { expected: expected_bytes, got: state.bytes },
        ),
        res matches Ok(d) ==> d@ == blake3_digest(hasher_fed(state.hasher)),
{
    if state.next != state.chunks {
        return Err(CoreError::HeaderEncode("missing chunks".to_string()));
    }
    if state.bytes != expected_bytes {
        return Err(CoreError::SizeMismatch { expected: expected_bytes, got: state.bytes });
    }
    Ok(hasher_finalize(&state.hasher))
}

/// How many bytes the header frame that starts with these twelve bytes takes
/// in all (magic, length field and header), or `None` when they do not begin
/// a header frame: another magic, or a header longer than `MAX_HEADER_LEN`.
pub fn header_frame_len(head: &[u8]) -> (res: Option<usize>)
    requires
        head@.len() == 12,
    ensures
        (head@.subrange(0, 8) == crate::format::MAGIC@ && header_len_field(head@) <= MAX_HEADER_LEN) ==> res
            == Some((12 + header_len_field(head@)) as usize),
        !(head@.subrange(0, 8) == crate::format::MAGIC@ && header_len_field(head@) <= MAX_HEADER_LEN) ==> res is None,
{
    let mut i: usize = 0;
    while i < 8
        invariant
            i <= 8,
            head@.len() == 12,
            forall|j: int| 0 <= j < i ==> head@[j] == crate::format::MAGIC@[j],
        decreases 8 - i,
    {
        if head[i] != crate::format::MAGIC[i] {
            assert(head@.subrange(0, 8)[i as int] != crate::format::MAGIC@[i as int]);
            return None;
        }
        i = i + 1;
    }
    assert(head@.subrange(0, 8) =~= crate::format::MAGIC@);
    let l = read_le(head, 8, 4);
    if l > MAX_HEADER_LEN as u64 {
        return None;
    }
    Some(12 + l as usize)
}

/// The ciphertext length that a record's four-byte prefix announces, read
/// little-endian; a length over `MAX_CHUNK_CT_LEN` is "chunk too large".
pub fn record_len(prefix: &[u8]) -> (res: Result<usize, CoreError>)
    requires
        prefix@.len() == 4,
    ensures
        le_value(prefix@) <= MAX_CHUNK_CT_LEN ==> res == Ok::<usize, CoreError>(le_value(prefix@) as usize),
        le_value(prefix@) > MAX_CHUNK_CT_LEN ==> (res matches Err(CoreError::HeaderDecode(m)) && m@ == "chunk too large"@),
{
    let l = read_le(prefix, 0, 4);
    assert(prefix@.subrange(0, 4) =~= prefix@);
    if l > MAX_CHUNK_CT_LEN as u64 {
        return Err(CoreError::HeaderDecode("chunk too large".to_string()));
    }
    Ok(l as usize)
}

/// The state of unpacking a stream record by record: the key and base nonce,
/// the number of chunks the header announces, the next chunk's index, and the
/// hash of the plaintext recovered so far. Only one record is held at a time.
pub struct StreamUnpacker {
    pub file_key: FileKey,
    pub base_nonce: [u8; 20],
    pub chunks: u32,
    pub next: u32,
    pub hasher: blake3::Hasher,
}

impl StreamUnpacker {
    /// An unpacker for a stream of `chunks` chunks that has read nothing yet.
    pub fn new(file_key: FileKey, base_nonce: [u8; 20], chunks: u32) -> (st: StreamUnpacker)
        ensures
            st.file_key@ == file_key@,
            st.base_nonce@ == base_nonce@,
            st.chunks == chunks,
            st.next == 0,
            hasher_fed(st.hasher) == Seq::<u8>::empty(),
    {
        StreamUnpacker { file_key, base_nonce, chunks, next: 0, hasher: hasher_new() }
    }
}

/// Opens the ciphertext of the next record (what follows its length prefix):
/// its plaintext chunk and the unpacker moved one chunk on, with the chunk
/// hashed. A record past the announced count is "no more chunks", a ciphertext that does not
/// authenticate as the chunk at its place (the announced last chunk under the
/// last-chunk nonce) an integrity error.
pub fn stream_unpack_step(state: StreamUnpacker, ciphertext: &[u8]) -> (res: Result<(StreamUnpacker, Vec<u8>), CoreError>)
    ensures
        state.next >= state.chunks ==> (res matches Err(CoreError::HeaderDecode(m))
            && m@ == "no more chunks"@),
        state.next < state.chunks ==> match xchacha_open(
            state.file_key@,
            stream_nonce(state.base_nonce@, state.next as nat, state.chunks as nat),
            ciphertext@,
        ) {
            Some(c) => res matches Ok((st, pt)) && {
                &&& pt@ == c
                &&& st.file_key@ == state.file_key@
                &&& st.base_nonce@ == state.base_nonce@
                &&& st.chunks == state.chunks
                &&& st.next == state.next + 1
                &&& hasher_fed(st.hasher) == hasher_fed(state.hasher) + c
            },
            None => res matches Err(CoreError::IntegrityFailed),
        },
{
    if state.next >= state.chunks {
        return Err(CoreError::HeaderDecode("no more chunks".to_string()));
    }
    let StreamUnpacker { file_key, base_nonce, chunks, next, hasher } = state;
    let mut hasher = hasher;
    let pt = match decrypt_chunk(&file_key, &record_base(&base_nonce, next, chunks), next, ciphertext) {
        Ok(p) => p,
        Err(e) => return Err(e),
    };
    hasher_update(&mut hasher, pt.as_slice());
    let st = StreamUnpacker { file_key, base_nonce, chunks, next: next + 1, hasher };
    Ok((st, pt))
}

/// Ends unpacking: every announced chunk was read, and `stored` (the 32 bytes
/// after the last record) is the digest of the recovered plaintext. Missing
/// chunks are "missing chunks"; a different digest is an integrity error.
pub fn stream_unpack_finish(state: &StreamUnpacker, stored: &[u8]) -> (res: Result<(), CoreError>)
    ensures
        res is Ok <==> (state.next == state.chunks && stored@ == blake3_digest(hasher_fed(state.hasher))),
        state.next != state.chunks ==> (res matches Err(CoreError::HeaderDecode(m)) && m@ == "missing chunks"@),
        state.next == state.chunks ==> (res is Err ==> res matches Err(CoreError::IntegrityFailed)),
{
    if state.next != state.chunks {
        return Err(CoreError::HeaderDecode("missing chunks".to_string()));
    }
    let digest = hasher_finalize(&state.hasher);
    if crate::integrity::bytes_equal(&digest, stored) {
        Ok(())
    } else {
        Err(CoreError::IntegrityFailed)
    }
}

/// Reading a stream record by record agrees with `opened_record`: where the
/// record at `pos` has a length prefix that `record_len` accepts and that many
/// bytes follow, it opens to what `stream_unpack_step` gives for those bytes.
pub proof fn lemma_record_steps(key: Seq<u8>, base: Seq<u8>, s: Seq<u8>, pos: int, i: nat, total: nat)
    requires
        0 <= pos,
        pos + 4 <= s.len(),
        le_value(s.subrange(pos, pos + 4)) <= MAX_CHUNK_CT_LEN,
        pos + 4 + le_value(s.subrange(pos, pos + 4)) <= s.len(),
    ensures
        opened_record(key, base, s, pos, i, total) == match xchacha_open(
            key,
            stream_nonce(base, i, total),
            s.subrange(pos + 4, pos + 4 + le_value(s.subrange(pos, pos + 4))),
        ) {
            Some(c) => Ok::<(Seq<u8>, int), u8>((c, pos + 4 + le_value(s.subrange(pos, pos + 4)))),
            None => Err::<(Seq<u8>, int), u8>(2u8),
        },
{
}

/// Writes the header frame of a streaming file (magic, header length, header
/// CBOR bytes); the header is validated first.
pub fn write_stream_header(header: &FileHeader, header_bytes: &[u8]) -> (res: Result<Vec<u8>, CoreError>)
    ensures
        header_check(header) is Err ==> (res matches Err(f) && header_check(header) == Err::<(), CoreError>(f)),
        header_check(header) is Ok && header_bytes@.len() > 4294967295 ==> res matches Err(CoreError::HeaderEncode(_)),
        header_check(header) is Ok && header_bytes@.len() <= 4294967295 ==> (res matches Ok(v) && v@ == header_frame_bytes(header_bytes@)),
{
    match header.validate() {
        Ok(()) => {},
        Err(e) => return Err(e),
    }
    if header_bytes.len() > 4294967295 {
        return Err(CoreError::HeaderEncode("header too large".to_string()));
    }
    let mut out: Vec<u8> = Vec::new();
    append_bytes(&mut out, &crate::format::MAGIC);
    push_le(&mut out, header_bytes.len() as u64, 4);
    append_bytes(&mut out, header_bytes);
    assert(out@ =~= header_frame_bytes(header_bytes@));
    Ok(out)
}

/// Reads the header frame of a streaming file: the header bytes for the
/// application to decode, and where the chunks start.
pub fn read_stream_header(bytes: &[u8]) -> (res: Result<(Vec<u8>, usize), CoreError>)
    ensures
        res is Ok <==> frame_header(bytes@) is Some,
        res matches Ok((h, off)) ==> frame_header(bytes@) == Some((h@, off as int)),
{
    read_header_frame(bytes)
}

/// The chunk layout of a streaming file; a header without one is not a
/// streaming file.
pub fn require_chunked(header: &FileHeader) -> (res: Result<ChunkInfo, CoreError>)
    ensures
        header.chunks matches Some(c) ==> res == Ok::<ChunkInfo, CoreError>(c),
        header.chunks is None ==> (res matches Err(CoreError::HeaderDecode(m)) && m@ == "not a streaming file"@),
{
    match header.chunks {
        Some(c) => Ok(c),
        None => Err(CoreError::HeaderDecode("not a streaming file".to_string())),
    }
}

/// The chunk layout of a streaming payload of `input_size` bytes: full-size
/// chunks, at least one chunk, and the size of the last one.
pub open spec fn chunk_layout(input_size: u64) -> (u32, u32) {
    let c = STREAM_CHUNK_SIZE as int;
    let n = if input_size == 0 { 1 } else { (input_size + c - 1) / c };
    let last = if input_size == 0 {
        0
    } else if (input_size as int) % c == 0 {
        c
    } else {
        (input_size as int) % c
    };
    (n as u32, last as u32)
}

/// The chunk layout recorded in the header of a streaming file. It is the
/// number of chunks and the last chunk size that `stream_encrypt` produces for
/// a plaintext of that size.
pub fn stream_chunk_layout(input_size: u64) -> (res: Result<ChunkInfo, CoreError>)
    ensures
        input_size <= MAX_STREAM_CHUNKS * STREAM_CHUNK_SIZE ==> (res matches Ok(info) && {
            &&& info.chunk_size == STREAM_CHUNK_SIZE
            &&& (info.num_chunks, info.last_chunk_size) == chunk_layout(input_size)
            &&& info.num_chunks == chunk_count(input_size as nat)
        }),
        input_size > MAX_STREAM_CHUNKS * STREAM_CHUNK_SIZE ==> res matches Err(CoreError::HeaderEncode(_)),
{
    if input_size > 4294967295 * 4194304 {
        return Err(CoreError::HeaderEncode("too many chunks".to_string()));
    }
    let c: u64 = 4194304;
    let n: u64 = if input_size == 0 {
        1
    } else {
        (input_size - 1) / c + 1
    };
    let last: u64 = if input_size == 0 {
        0
    } else if input_size % c == 0 {
        c
    } else {
        input_size % c
    };
    proof {
        if input_size > 0 {
            assert((input_size - 1) / 4194304 + 1 == (input_size + 4194303) / 4194304) by (nonlinear_arith)
                requires
                    input_size > 0,
            ;
            assert(n <= 4294967295) by (nonlinear_arith)
                requires
                    n == (input_size - 1) / 4194304 + 1,
                    input_size <= 4294967295 * 4194304,
                    input_size > 0,
            ;
        }
    }
    Ok(ChunkInfo { chunk_size: 4194304, num_chunks: n as u32, last_chunk_size: last as u32 })
}

/// The chunk layout that the header records is the one the stream has: as
/// many chunks as `stream_encrypt` produces, and its last chunk size.
pub proof fn lemma_layout_matches_stream(p: Seq<u8>)
    requires
        p.len() <= MAX_STREAM_CHUNKS * STREAM_CHUNK_SIZE,
    ensures
        chunk_layout(p.len() as u64).0 == chunk_count(p.len()),
        chunk_layout(p.len() as u64).1 == chunk_at(p, chunk_count(p.len()) - 1).len(),
{
    let len = p.len() as int;
    if len > 0 {
        let n = (len + 4194303) / 4194304;
        assert((n - 1) * 4194304 < len && len <= n * 4194304) by (nonlinear_arith)
            requires
                n == (len + 4194303) / 4194304,
                len > 0,
        ;
        assert(n <= 4294967295) by (nonlinear_arith)
            requires
                n == (len + 4194303) / 4194304,
                len <= 4294967295 * 4194304,
        ;
        if len % 4194304 == 0 {
            assert(n * 4194304 == len) by (nonlinear_arith)
                requires
                    n == (len + 4194303) / 4194304,
                    len % 4194304 == 0,
                    len > 0,
            ;
        } else {
            assert(len - (n - 1) * 4194304 == len % 4194304) by (nonlinear_arith)
                requires
                    n == (len + 4194303) / 4194304,
                    len % 4194304 != 0,
                    len > 0,
            ;
        }
    }
}

/// The 24-byte payload nonce of a streaming file: the base nonce, then four
/// zero bytes.
pub fn stream_payload_nonce(base_nonce: &[u8; 20]) -> (res: Vec<u8>)
    ensures
        res@ == base_nonce@ + seq![0u8, 0u8, 0u8, 0u8],
{
    let mut out: Vec<u8> = Vec::new();
    append_bytes(&mut out, base_nonce);
    out.push(0);
    out.push(0);
    out.push(0);
    out.push(0);
    assert(out@ =~= base_nonce@ + seq![0u8, 0u8, 0u8, 0u8]);
    out
}

/// The base nonce of a streaming file: the first 20 bytes of its payload
/// nonce; a shorter payload nonce is refused.
pub fn stream_base_nonce(payload_nonce: &[u8]) -> (res: Result<[u8; 20], String>)
    ensures
        payload_nonce@.len() < 20 <==> res is Err,
        res matches Ok(b) ==> b@ == payload_nonce@.subrange(0, 20),
        res matches Err(m) ==> m@ == "payload_nonce too short for streaming"@,
{
    if payload_nonce.len() < 20 {
        return Err("payload_nonce too short for streaming".to_string());
    }
    let mut b: [u8; 20] = [0u8; 20];
    let mut i: usize = 0;
    while i < 20
        invariant
            i <= 20,
            payload_nonce@.len() >= 20,
            b@.len() == 20,
            forall|j: int| 0 <= j < i ==> b@[j] == payload_nonce@[j],
        decreases 20 - i,
    {
        b[i] = payload_nonce[i];
        i = i + 1;
    }
    assert(b@ =~= payload_nonce@.subrange(0, 20));
    Ok(b)
}

} // verus!
