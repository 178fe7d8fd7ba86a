//! BLAKE3 integrity check of the original data.
use vstd::prelude::*;

verus! {

/// The BLAKE3 hash (32 bytes) of a byte sequence.
pub uninterp spec fn blake3_digest(data: Seq<u8>) -> Seq<u8>;

/// `blake3::hash(data).as_bytes()`. Claimed: the result is the named digest of
/// `data`.
#[verifier::external_body]
pub fn blake3_hash(data: &[u8]) -> (res: [u8; 32])
    ensures
        res@ == blake3_digest(data@),
{
    *blake3::hash(data).as_bytes()
}

/// `blake3::Hasher`, the incremental BLAKE3 hasher.
#[verifier::external_type_specification]
#[verifier::external_body]
pub struct ExBlake3Hasher(blake3::Hasher);

/// The bytes an incremental hasher has been fed so far, in order.
pub uninterp spec fn hasher_fed(h: blake3::Hasher) -> Seq<u8>;

/// `blake3::Hasher::new()`. Claimed: the new hasher has been fed nothing.
#[verifier::external_body]
pub(crate) fn hasher_new() -> (h: blake3::Hasher)
    ensures
        hasher_fed(h) == Seq::<u8>::empty(),
{
    blake3::Hasher::new()
}

/// `blake3::Hasher::update`. Claimed: the hasher has then been fed what it had
/// been fed before, followed by `data`.
#[verifier::external_body]
pub(crate) fn hasher_update(h: &mut blake3::Hasher, data: &[u8])
    ensures
        hasher_fed(*final(h)) == hasher_fed(*old(h)) + data@,
{
    h.update(data);
}

/// `blake3::Hasher::finalize`. Claimed: the digest is the BLAKE3 hash of all
/// the bytes fed so far (the crate documents that incremental hashing gives
/// the same result as `blake3::hash` of their concatenation).
#[verifier::external_body]
pub(crate) fn hasher_finalize(h: &blake3::Hasher) -> (res: [u8; 32])
    ensures
        res@ == blake3_digest(hasher_fed(*h)),
{
    *h.finalize().as_bytes()
}

/// Whether two byte slices are equal, compared element by element.
pub fn bytes_equal(a: &[u8], b: &[u8]) -> (res: bool)
    ensures
        res <==> a@ == b@,
{
    if a.len() != b.len() {
        return false;
    }
    let mut i: usize = 0;
    while i < a.len()
        invariant
            i <= a@.len(),
            a@.len() == b@.len(),
            forall|j: int| 0 <= j < i ==> a@[j] == b@[j],
        decreases a@.len() - i,
    {
        if a[i] != b[i] {
            return false;
        }
        i = i + 1;
    }
    assert(a@ =~= b@);
    true
}

/// Checks that `data` hashes to `expected`; a mismatch is an integrity error.
pub fn verify_blake3(data: &[u8], expected: &[u8; 32]) -> (res: Result<(), crate::error::CoreError>)
    ensures
        res is Ok <==> blake3_digest(data@) == expected@,
        res is Err ==> res matches Err(crate::error::CoreError::IntegrityFailed),
{
    let actual = blake3_hash(data);
    if bytes_equal(&actual, expected) {
        Ok(())
    } else {
        Err(crate::error::CoreError::IntegrityFailed)
    }
}

} // verus!
