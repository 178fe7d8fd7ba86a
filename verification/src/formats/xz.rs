//! xz in memory.
use vstd::prelude::*;

use crate::error::FormatError;
use crate::primitives::{xz_content, xz_decode};

verus! {

/// Decompresses an xz stream; a stream that does not decode is `Xz`.
pub fn decompress_buf(data: &[u8]) -> (res: Result<Vec<u8>, FormatError>)
    ensures
        res is Ok <==> xz_content(data@) is Some,
        res matches Ok(v) ==> xz_content(data@) == Some(v@),
        res is Err ==> res matches Err(FormatError::Xz(_)),
{
    match xz_decode(data) {
        Ok(v) => Ok(v),
        Err(e) => Err(FormatError::Xz(e)),
    }
}

} // verus!
