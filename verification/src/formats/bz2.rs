//! bzip2 in memory.
use vstd::prelude::*;

use crate::error::FormatError;
use crate::primitives::{bzip2_content, bzip2_decode};

verus! {

/// Decompresses a bzip2 stream; a stream that does not decode is `Bzip2`.
pub fn decompress_buf(data: &[u8]) -> (res: Result<Vec<u8>, FormatError>)
    ensures
        res is Ok <==> bzip2_content(data@) is Some,
        res matches Ok(v) ==> bzip2_content(data@) == Some(v@),
        res is Err ==> res matches Err(FormatError::Bzip2(_)),
{
    match bzip2_decode(data) {
        Ok(v) => Ok(v),
        Err(e) => Err(FormatError::Bzip2(e)),
    }
}

} // verus!
