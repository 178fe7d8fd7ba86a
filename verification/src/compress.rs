//! Payload compression and decompression-bomb defence.
//!
//! When the header states the original size, decompression may produce that
//! size plus a small margin and nothing more, and must produce exactly that
//! size. Without it, output is capped at 1000 times the input and at 10 GiB.
use vstd::prelude::*;

use crate::error::CoreError;
use crate::format::CompressionAlgo;
use crate::primitives::{prefix_at_most, zstd_compress, zstd_content, zstd_decode_limited, zstd_limited_read};

verus! {

/// Largest decompression ratio allowed when the original size is unknown.
pub const MAX_DECOMPRESSION_RATIO: u64 = 1000;

/// Absolute output cap when the original size is unknown (10 GiB).
pub const ABSOLUTE_MAX_OUTPUT: u64 = 10737418240;

/// The decompression limit: the expected size plus 64 (saturating) when it is
/// known, else the smaller of `input_len * 1000` (saturating) and 10 GiB.
pub open spec fn decompress_limit(input_len: nat, expected: Option<usize>) -> u64 {
    match expected {
        Some(s) => if s + 64 > u64::MAX {
            u64::MAX
        } else {
            (s + 64) as u64
        },
        None => if input_len * 1000 > ABSOLUTE_MAX_OUTPUT {
            ABSOLUTE_MAX_OUTPUT
        } else {
            (input_len * 1000) as u64
        },
    }
}

/// Computes the decompression limit for an input of `input_len` bytes.
pub fn compute_decompress_limit(input_len: usize, expected: Option<usize>) -> (limit: u64)
    ensures
        limit == decompress_limit(input_len as nat, expected),
{
    match expected {
        Some(s) => (s as u64).saturating_add(64),
        None => {
            let by_ratio: u64 = match (input_len as u64).checked_mul(MAX_DECOMPRESSION_RATIO) {
                Some(v) => v,
                None => u64::MAX,
            };
            if by_ratio < ABSOLUTE_MAX_OUTPUT {
                by_ratio
            } else {
                ABSOLUTE_MAX_OUTPUT
            }
        },
    }
}

/// `res` is the size-mismatch error for `expected` and `got`.
pub open spec fn is_size_mismatch(res: Result<Vec<u8>, CoreError>, expected: usize, got: nat) -> bool {
    res matches Err(CoreError::SizeMismatch { expected: e, got: g }) && e == expected && g == got
}

/// What storing without compression gives back: the data itself, unless a
/// size is expected and the data has another.
pub open spec fn stored_decompress(data: Seq<u8>, expected: Option<usize>, res: Result<Vec<u8>, CoreError>) -> bool {
    if expected is Some && data.len() != expected->0 {
        is_size_mismatch(res, expected->0, data.len())
    } else {
        res matches Ok(v) && v@ == data
    }
}

/// What zstd decompression decides from a limited read (`None`: the decoder
/// failed): a bomb when the limit was reached and more output followed; a size
/// mismatch when a size is expected and the output has another; else the output.
pub open spec fn limited_decompress(read: Option<(Seq<u8>, nat)>, limit: u64, expected: Option<usize>, res: Result<Vec<u8>, CoreError>) -> bool {
    match read {
        None => res matches Err(CoreError::Compression(_)),
        Some((v, e)) => if v.len() == limit && e > 0 {
            &&& res matches Err(CoreError::CompressionBomb { got: g, limit: l })
            &&& l == limit
            &&& g == (if limit + e > u64::MAX { u64::MAX as int } else { limit + e })
        } else if expected is Some && v.len() != expected->0 {
            is_size_mismatch(res, expected->0, v.len())
        } else {
            res matches Ok(o) && o@ == v
        },
    }
}

/// What zstd decompression decides when the input is a complete frame sequence
/// whose content is `content`.
pub open spec fn content_decompress(content: Seq<u8>, limit: u64, expected: Option<usize>, res: Result<Vec<u8>, CoreError>) -> bool {
    limited_decompress(
        Some((prefix_at_most(content, limit as int), if content.len() > limit { 1nat } else { 0nat })),
        limit,
        expected,
        res,
    )
}

/// Decompressing a frame sequence with the original size as the expected size
/// gives the original back, and with any other expected size fails.
pub proof fn lemma_zstd_expected_size(content: Seq<u8>, input_len: nat, expected: usize, res: Result<Vec<u8>, CoreError>)
    requires
        content_decompress(content, decompress_limit(input_len, Some(expected)), Some(expected), res),
    ensures
        res is Ok <==> content.len() == expected,
        res matches Ok(o) ==> o@ == content,
{
}

/// A compression algorithm.
pub trait Compressor {
    /// The algorithm that this compressor implements.
    fn algo(&self) -> CompressionAlgo;

    /// Compresses `data`.
    fn compress(&self, data: &[u8]) -> Result<Vec<u8>, CoreError>;

    /// Decompresses `data`; when `expected_size` is given, only that size is
    /// accepted.
    fn decompress(&self, data: &[u8], expected_size: Option<usize>) -> Result<Vec<u8>, CoreError>;
}

/// Stores the payload as it is.
pub struct NoneCompressor;

/// Copies a slice into a new vector.
fn copy_bytes(data: &[u8]) -> (res: Vec<u8>)
    ensures
        res@ == data@,
{
    vstd::slice::slice_to_vec(data)
}

impl Compressor for NoneCompressor {
    fn algo(&self) -> (a: CompressionAlgo)
        ensures
            a == CompressionAlgo::Uncompressed,
    {
        CompressionAlgo::Uncompressed
    }

    fn compress(&self, data: &[u8]) -> (res: Result<Vec<u8>, CoreError>)
        ensures
            res matches Ok(v) && v@ == data@,
    {
        Ok(copy_bytes(data))
    }

    fn decompress(&self, data: &[u8], expected_size: Option<usize>) -> (res: Result<Vec<u8>, CoreError>)
        ensures
            stored_decompress(data@, expected_size, res),
    {
        if let Some(s) = expected_size {
            if data.len() != s {
                return Err(CoreError::SizeMismatch { expected: s as u64, got: data.len() as u64 });
            }
        }
        Ok(copy_bytes(data))
    }
}

/// Zstandard at a given level; inputs over 1 MiB are compressed with `workers`
/// worker threads.
pub struct ZstdCompressor {
    pub level: i32,
    pub workers: u32,
}

/// Inputs above this size are compressed with worker threads.
pub const ZSTD_MULTITHREAD_MIN: usize = 1048576;

impl ZstdCompressor {
    /// A compressor at `level` with the default of 4 worker threads.
    pub fn new(level: i32) -> (c: ZstdCompressor)
        ensures
            c.level == level,
            c.workers == 4,
    {
        ZstdCompressor { level, workers: 4 }
    }

    /// The same compressor with `workers` worker threads (the machine's
    /// available parallelism, as the application finds it).
    pub fn with_workers(self, workers: u32) -> (c: ZstdCompressor)
        ensures
            c.level == self.level,
            c.workers == workers,
    {
        ZstdCompressor { level: self.level, workers }
    }
}

impl Compressor for ZstdCompressor {
    fn algo(&self) -> (a: CompressionAlgo)
        ensures
            a == CompressionAlgo::Zstd,
    {
        CompressionAlgo::Zstd
    }

    fn compress(&self, data: &[u8]) -> (res: Result<Vec<u8>, CoreError>)
        ensures
            res matches Ok(c) ==> zstd_content(c@) == Some(data@),
            res is Err ==> res matches Err(CoreError::Compression(_)),
    {
        let workers: u32 = if data.len() > ZSTD_MULTITHREAD_MIN {
            self.workers
        } else {
            0
        };
        match zstd_compress(data, self.level, workers) {
            Ok(c) => Ok(c),
            Err(e) => Err(CoreError::Compression(e)),
        }
    }

    fn decompress(&self, data: &[u8], expected_size: Option<usize>) -> (res: Result<Vec<u8>, CoreError>)
        ensures
            limited_decompress(
                zstd_limited_read(data@, decompress_limit(data@.len(), expected_size)),
                decompress_limit(data@.len(), expected_size),
                expected_size,
                res,
            ),
            zstd_content(data@) matches Some(c) ==> content_decompress(
                c,
                decompress_limit(data@.len(), expected_size),
                expected_size,
                res,
            ),
            res matches Ok(v) ==> v@.len() <= decompress_limit(data@.len(), expected_size),
    {
        let limit = compute_decompress_limit(data.len(), expected_size);
        let (out, extra) = match zstd_decode_limited(data, limit) {
            Ok(r) => r,
            Err(e) => return Err(CoreError::Compression(e)),
        };
        if out.len() as u64 == limit && extra > 0 {
            return Err(CoreError::CompressionBomb { got: limit.saturating_add(extra as u64), limit });
        }
        if let Some(s) = expected_size {
            if out.len() != s {
                return Err(CoreError::SizeMismatch { expected: s as u64, got: out.len() as u64 });
            }
        }
        Ok(out)
    }
}

/// A compressor chosen at run time.
pub enum AnyCompressor {
    Stored(NoneCompressor),
    Zstd(ZstdCompressor),
}

impl Compressor for AnyCompressor {
    fn algo(&self) -> (a: CompressionAlgo)
        ensures
            self is Stored ==> a == CompressionAlgo::Uncompressed,
            self is Zstd ==> a == CompressionAlgo::Zstd,
    {
        match self {
            AnyCompressor::Stored(c) => c.algo(),
            AnyCompressor::Zstd(c) => c.algo(),
        }
    }

    fn compress(&self, data: &[u8]) -> (res: Result<Vec<u8>, CoreError>)
        ensures
            self is Stored ==> (res matches Ok(v) && v@ == data@),
            self is Zstd ==> (res matches Ok(c) ==> zstd_content(c@) == Some(data@)),
            self is Zstd ==> (res is Err ==> res matches Err(CoreError::Compression(_))),
    {
        match self {
            AnyCompressor::Stored(c) => c.compress(data),
            AnyCompressor::Zstd(c) => c.compress(data),
        }
    }

    fn decompress(&self, data: &[u8], expected_size: Option<usize>) -> (res: Result<Vec<u8>, CoreError>)
        ensures
            self is Stored ==> stored_decompress(data@, expected_size, res),
            self is Zstd ==> limited_decompress(
                zstd_limited_read(data@, decompress_limit(data@.len(), expected_size)),
                decompress_limit(data@.len(), expected_size),
                expected_size,
                res,
            ),
            self is Zstd ==> (zstd_content(data@) matches Some(c) ==> content_decompress(
                c,
                decompress_limit(data@.len(), expected_size),
                expected_size,
                res,
            )),
            self is Zstd ==> (res matches Ok(v) ==> v@.len() <= decompress_limit(data@.len(), expected_size)),
    {
        match self {
            AnyCompressor::Stored(c) => c.decompress(data, expected_size),
            AnyCompressor::Zstd(c) => c.decompress(data, expected_size),
        }
    }
}

/// The compressor for an algorithm: no compression, or zstd at level 3;
/// other algorithms are not supported.
pub fn make_compressor(algo: CompressionAlgo) -> (res: Result<AnyCompressor, CoreError>)
    ensures
        algo == CompressionAlgo::Uncompressed ==> res matches Ok(AnyCompressor::Stored(_)),
        algo == CompressionAlgo::Zstd ==> (res matches Ok(AnyCompressor::Zstd(c)) && c.level == 3 && c.workers == 4),
        algo == CompressionAlgo::Bzip3 ==> (res matches Err(CoreError::UnsupportedCompression(a)) && a == algo),
{
    match algo {
        CompressionAlgo::Uncompressed => Ok(AnyCompressor::Stored(NoneCompressor)),
        CompressionAlgo::Zstd => Ok(AnyCompressor::Zstd(ZstdCompressor::new(3))),
        CompressionAlgo::Bzip3 => Err(CoreError::UnsupportedCompression(algo)),
    }
}

} // verus!
