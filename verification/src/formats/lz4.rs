//! LZ4 frames in memory.
use vstd::prelude::*;

use crate::error::FormatError;
use crate::primitives::{lz4_content, lz4_decode, lz4_encode, lz4_encoding};

verus! {

/// Decompresses an LZ4 frame; a frame that does not decode is `Lz4`.
pub fn decompress_buf(data: &[u8]) -> (res: Result<Vec<u8>, FormatError>)
    ensures
        res is Ok <==> lz4_content(data@) is Some,
        res matches Ok(v) ==> lz4_content(data@) == Some(v@),
        res is Err ==> res matches Err(FormatError::Lz4(_)),
{
    match lz4_decode(data) {
        Ok(v) => Ok(v),
        Err(e) => Err(FormatError::Lz4(e)),
    }
}

/// Compresses into an LZ4 frame, which decodes to `data`.
pub fn compress_buf(data: &[u8]) -> (res: Result<Vec<u8>, FormatError>)
    ensures
        res matches Ok(v) && v@ == lz4_encoding(data@) && lz4_content(v@) == Some(data@),
{
    Ok(lz4_encode(data))
}

} // verus!
