//! zstd in memory, with the pure-Rust decoder.
use vstd::prelude::*;

use crate::error::FormatError;
use crate::primitives::{ruzstd_content, ruzstd_decode};

verus! {

/// Decompresses a zstd stream; a stream that does not decode is `Zstd`.
pub fn decompress_buf(data: &[u8]) -> (res: Result<Vec<u8>, FormatError>)
    ensures
        res is Ok <==> ruzstd_content(data@) is Some,
        res matches Ok(v) ==> ruzstd_content(data@) == Some(v@),
        res is Err ==> res matches Err(FormatError::Zstd(_)),
{
    match ruzstd_decode(data) {
        Ok(v) => Ok(v),
        Err(e) => Err(FormatError::Zstd(e)),
    }
}

} // verus!
