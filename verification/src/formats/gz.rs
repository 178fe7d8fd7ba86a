//! gzip in memory.
use vstd::prelude::*;

use crate::error::FormatError;
use crate::primitives::{gzip_content, gzip_decode, gzip_encode, gzip_encoding};

verus! {

/// Decompresses a gzip stream; a stream that does not decode is `Gzip`.
pub fn decompress_buf(data: &[u8]) -> (res: Result<Vec<u8>, FormatError>)
    ensures
        res is Ok <==> gzip_content(data@) is Some,
        res matches Ok(v) ==> gzip_content(data@) == Some(v@),
        res is Err ==> res matches Err(FormatError::Gzip(_)),
{
    match gzip_decode(data) {
        Ok(v) => Ok(v),
        Err(e) => Err(FormatError::Gzip(e)),
    }
}

/// Compresses into a gzip stream at `level` (0 to 9); the stream decodes to
/// `data`.
pub fn compress_buf(data: &[u8], level: u32) -> (res: Result<Vec<u8>, FormatError>)
    requires
        level <= 9,
    ensures
        res matches Ok(v) && v@ == gzip_encoding(data@, level) && gzip_content(v@) == Some(data@),
{
    Ok(gzip_encode(data, level))
}

} // verus!
