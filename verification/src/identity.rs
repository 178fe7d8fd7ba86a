//! Public-key identities (X25519 + ML-KEM-768) and the hybrid public-key
//! recipient.
//!
//! The wrap key is HKDF-SHA256 of both shared secrets, salted with the SHA-256
//! of the transcript (ephemeral X25519 key, recipient X25519 key, ML-KEM
//! ciphertext, recipient ML-KEM key), so that it depends on both key
//! exchanges and on every public value of the envelope.
use vstd::prelude::*;
use vstd::string::StringSliceAdditionalSpecFns;

use crate::envelope::{array32_from, FileKey};
use crate::error::IdentityError;
use crate::format::{PubkeyRecipient, Recipient};
use crate::primitives::{
    aead_open, aead_seal, hkdf_sha256, hkdf_sha256_32, mlkem768_ct_len, mlkem768_decapsulate, mlkem768_encapsulate,
    mlkem768_generate, mlkem768_pk_len, mlkem768_shared, mlkem768_sk_len, random_bytes, sha256, sha256_digest,
    string_from_chars, x25519_diffie_hellman, x25519_public, x25519_public_key, x25519_shared, xchacha_open, xchacha_seal,
};
use crate::text::{hex_chars, push_hex};

verus! {

/// HKDF label of the hybrid public-key wrap key.
pub const HKDF_INFO_PQ_HYBRID_V1: &'static str = "qsafe-v1-pq-hybrid-pubkey-wrap-key";

/// Length of the envelope nonce.
pub const PUBKEY_NONCE_LEN: usize = 24;

/// The public half of an identity.
#[derive(Debug, Clone, PartialEq, Eq)]
pub struct IdentityPublic {
    pub x25519_pk: Vec<u8>,
    pub mlkem768_pk: Vec<u8>,
}

/// The first 8 bytes of the SHA-256 of the ML-KEM public key.
pub open spec fn mlkem_key_hash(mlkem768_pk: Seq<u8>) -> Seq<u8> {
    sha256_digest(mlkem768_pk).subrange(0, 8)
}

/// The fingerprint of a public identity: the first 8 bytes of the SHA-256 of
/// both public keys, in lowercase hex.
pub open spec fn fingerprint_text(x25519_pk: Seq<u8>, mlkem768_pk: Seq<u8>) -> Seq<char> {
    hex_chars(sha256_digest(x25519_pk + mlkem768_pk).subrange(0, 8))
}

/// Concatenates two byte slices.
fn concat_bytes(a: &[u8], b: &[u8]) -> (res: Vec<u8>)
    ensures
        res@ == a@ + b@,
{
    let mut out: Vec<u8> = Vec::new();
    crate::bytes::append_bytes(&mut out, a);
    crate::bytes::append_bytes(&mut out, b);
    out
}

/// The first 8 bytes of a digest.
fn first8(d: &Vec<u8>) -> (res: Vec<u8>)
    requires
        d@.len() >= 8,
    ensures
        res@ == d@.subrange(0, 8),
{
    vstd::slice::slice_to_vec(vstd::slice::slice_subrange(d.as_slice(), 0, 8))
}

impl IdentityPublic {
    /// The fingerprint, 16 lowercase hex digits.
    pub fn fingerprint(&self) -> (res: String)
        ensures
            res@ == fingerprint_text(self.x25519_pk@, self.mlkem768_pk@),
    {
        let both = concat_bytes(self.x25519_pk.as_slice(), self.mlkem768_pk.as_slice());
        let digest = sha256(both.as_slice());
        let short = first8(&digest);
        let mut out: Vec<char> = Vec::new();
        push_hex(&mut out, short.as_slice());
        string_from_chars(&out)
    }

    /// The 8-byte hash of the ML-KEM public key that recipients carry.
    pub fn mlkem_pk_hash(&self) -> (res: Vec<u8>)
        ensures
            res@ == mlkem_key_hash(self.mlkem768_pk@),
    {
        let digest = sha256(self.mlkem768_pk.as_slice());
        first8(&digest)
    }
}

/// A full identity, held as bytes: the X25519 secret and public keys and the
/// ML-KEM-768 decapsulation and encapsulation keys.
pub struct Identity {
    pub x25519_sk: Vec<u8>,
    pub x25519_pk_bytes: [u8; 32],
    pub mlkem768_sk: Vec<u8>,
    pub mlkem768_pk_bytes: Vec<u8>,
}

impl Identity {
    /// The keys have their lengths, and the X25519 public key belongs to the
    /// secret key.
    pub open spec fn wf(&self) -> bool {
        &&& self.x25519_sk@.len() == 32
        &&& self.x25519_pk_bytes@ == x25519_public_key(self.x25519_sk@)
        &&& self.mlkem768_sk@.len() == mlkem768_sk_len()
        &&& self.mlkem768_pk_bytes@.len() == mlkem768_pk_len()
    }

    /// A fresh identity: a random X25519 key and an ML-KEM-768 key pair.
    pub fn generate() -> (id: Identity)
        ensures
            id.wf(),
    {
        let x25519_sk = random_bytes(32);
        let pk = x25519_public(x25519_sk.as_slice());
        let x25519_pk_bytes = array32_from(pk.as_slice());
        let (mlkem768_sk, mlkem768_pk_bytes) = mlkem768_generate();
        Identity { x25519_sk, x25519_pk_bytes, mlkem768_sk, mlkem768_pk_bytes }
    }

    /// The public half.
    pub fn public(&self) -> (p: IdentityPublic)
        ensures
            p.x25519_pk@ == self.x25519_pk_bytes@,
            p.mlkem768_pk@ == self.mlkem768_pk_bytes@,
    {
        IdentityPublic {
            x25519_pk: vstd::slice::slice_to_vec(&self.x25519_pk_bytes),
            mlkem768_pk: vstd::slice::slice_to_vec(self.mlkem768_pk_bytes.as_slice()),
        }
    }

    /// The fingerprint of the public half.
    pub fn fingerprint(&self) -> (res: String)
        ensures
            res@ == fingerprint_text(self.x25519_pk_bytes@, self.mlkem768_pk_bytes@),
    {
        self.public().fingerprint()
    }
}

/// The secret keys of an identity as bytes, for storage.
#[derive(Debug, Clone)]
pub struct IdentitySecretBytes {
    pub x25519_sk: Vec<u8>,
    pub mlkem768_sk: Vec<u8>,
    pub mlkem768_pk: Vec<u8>,
}

/// The identity that stored key bytes denote (X25519 secret, its public key,
/// ML-KEM secret, ML-KEM public), when their lengths are right.
pub open spec fn identity_of_bytes(x25519_sk: Seq<u8>, mlkem768_sk: Seq<u8>, mlkem768_pk: Seq<u8>) -> Option<
    (Seq<u8>, Seq<u8>, Seq<u8>, Seq<u8>),
> {
    if x25519_sk.len() == 32 && mlkem768_sk.len() == mlkem768_sk_len() && mlkem768_pk.len() == mlkem768_pk_len() {
        Some((x25519_sk, x25519_public_key(x25519_sk), mlkem768_sk, mlkem768_pk))
    } else {
        None
    }
}

impl IdentitySecretBytes {
    /// The key bytes of an identity. Reading them back gives the identity.
    pub fn from_identity(id: &Identity) -> (b: IdentitySecretBytes)
        requires
            id.wf(),
        ensures
            b.x25519_sk@ == id.x25519_sk@,
            b.mlkem768_sk@ == id.mlkem768_sk@,
            b.mlkem768_pk@ == id.mlkem768_pk_bytes@,
            identity_of_bytes(b.x25519_sk@, b.mlkem768_sk@, b.mlkem768_pk@) == Some(
                (id.x25519_sk@, id.x25519_pk_bytes@, id.mlkem768_sk@, id.mlkem768_pk_bytes@),
            ),
    {
        IdentitySecretBytes {
            x25519_sk: vstd::slice::slice_to_vec(id.x25519_sk.as_slice()),
            mlkem768_sk: vstd::slice::slice_to_vec(id.mlkem768_sk.as_slice()),
            mlkem768_pk: vstd::slice::slice_to_vec(id.mlkem768_pk_bytes.as_slice()),
        }
    }

    /// The identity of the stored bytes. An X25519 secret of another length
    /// than 32, an ML-KEM secret of another length than 2400 and an ML-KEM
    /// public key of another length than 1184 are errors, checked in that
    /// order.
    pub fn to_identity(&self) -> (res: Result<Identity, IdentityError>)
        ensures
            res is Ok <==> identity_of_bytes(self.x25519_sk@, self.mlkem768_sk@, self.mlkem768_pk@) is Some,
            res matches Ok(id) ==> id.wf() && identity_of_bytes(self.x25519_sk@, self.mlkem768_sk@, self.mlkem768_pk@)
                == Some((id.x25519_sk@, id.x25519_pk_bytes@, id.mlkem768_sk@, id.mlkem768_pk_bytes@)),
            self.x25519_sk@.len() != 32 ==> (res matches Err(IdentityError::InvalidX25519SkLen(n))
                && n == self.x25519_sk@.len()),
            self.x25519_sk@.len() == 32 && self.mlkem768_sk@.len() != mlkem768_sk_len() ==> res matches Err(
                IdentityError::InvalidMlkemSk,
            ),
            self.x25519_sk@.len() == 32 && self.mlkem768_sk@.len() == mlkem768_sk_len() && self.mlkem768_pk@.len()
                != mlkem768_pk_len() ==> res matches Err(IdentityError::InvalidMlkemPkLen),
    {
        if self.x25519_sk.len() != 32 {
            return Err(IdentityError::InvalidX25519SkLen(self.x25519_sk.len()));
        }
        let pk = x25519_public(self.x25519_sk.as_slice());
        if self.mlkem768_sk.len() != 2400 {
            return Err(IdentityError::InvalidMlkemSk);
        }
        if self.mlkem768_pk.len() != 1184 {
            return Err(IdentityError::InvalidMlkemPkLen);
        }
        Ok(
            Identity {
                x25519_sk: vstd::slice::slice_to_vec(self.x25519_sk.as_slice()),
                x25519_pk_bytes: array32_from(pk.as_slice()),
                mlkem768_sk: vstd::slice::slice_to_vec(self.mlkem768_sk.as_slice()),
                mlkem768_pk_bytes: vstd::slice::slice_to_vec(self.mlkem768_pk.as_slice()),
            },
        )
    }
}

/// The transcript that salts the wrap key.
pub open spec fn pq_transcript(eph_pk: Seq<u8>, recipient_pk: Seq<u8>, mlkem_ct: Seq<u8>, recipient_mlkem_pk: Seq<u8>) -> Seq<u8> {
    eph_pk + recipient_pk + mlkem_ct + recipient_mlkem_pk
}

/// The hybrid wrap key: HKDF-SHA256 of the X25519 and ML-KEM shared secrets,
/// salted with the SHA-256 of the transcript.
pub open spec fn pq_wrap_key(
    x25519_shared: Seq<u8>,
    mlkem_shared: Seq<u8>,
    eph_pk: Seq<u8>,
    recipient_pk: Seq<u8>,
    mlkem_ct: Seq<u8>,
    recipient_mlkem_pk: Seq<u8>,
) -> Seq<u8> {
    hkdf_sha256_32(
        sha256_digest(pq_transcript(eph_pk, recipient_pk, mlkem_ct, recipient_mlkem_pk)),
        x25519_shared + mlkem_shared,
        HKDF_INFO_PQ_HYBRID_V1.spec_bytes(),
    )
}

/// Computes the hybrid wrap key.
fn derive_wrap_key(
    x25519_shared: &[u8],
    mlkem_shared: &[u8],
    eph_pk: &[u8],
    recipient_pk: &[u8],
    mlkem_ct: &[u8],
    recipient_mlkem_pk: &[u8],
) -> (res: Vec<u8>)
    ensures
        res@ == pq_wrap_key(x25519_shared@, mlkem_shared@, eph_pk@, recipient_pk@, mlkem_ct@, recipient_mlkem_pk@),
        res@.len() == 32,
{
    let ikm = concat_bytes(x25519_shared, mlkem_shared);
    let mut transcript: Vec<u8> = Vec::new();
    crate::bytes::append_bytes(&mut transcript, eph_pk);
    crate::bytes::append_bytes(&mut transcript, recipient_pk);
    crate::bytes::append_bytes(&mut transcript, mlkem_ct);
    crate::bytes::append_bytes(&mut transcript, recipient_mlkem_pk);
    let salt = sha256(transcript.as_slice());
    hkdf_sha256(salt.as_slice(), ikm.as_slice(), HKDF_INFO_PQ_HYBRID_V1.as_bytes())
}

/// Builds public-key recipients for one public identity.
pub struct PubkeyWrapper {
    pub recipient: IdentityPublic,
}

impl PubkeyWrapper {
    /// A wrapper for `recipient`.
    pub fn new(recipient: IdentityPublic) -> (w: PubkeyWrapper)
        ensures
            w.recipient == recipient,
    {
        PubkeyWrapper { recipient }
    }

    /// Wraps the file key for the recipient: a fresh ephemeral X25519 key, an
    /// ML-KEM-768 encapsulation, the hybrid wrap key, and the sealed key under a
    /// random nonce. An X25519 key of another length than 32 and an ML-KEM key
    /// of another length than 1184 are errors, checked in that order.
    pub fn wrap(&self, file_key: &FileKey) -> (res: Result<Recipient, IdentityError>)
        ensures
            self.recipient.x25519_pk@.len() != 32 ==> (res matches Err(IdentityError::InvalidX25519PkLen(n)) && n
                == self.recipient.x25519_pk@.len()),
            self.recipient.x25519_pk@.len() == 32 && self.recipient.mlkem768_pk@.len() != mlkem768_pk_len() ==> res matches Err(
                IdentityError::InvalidMlkemPkLen,
            ),
            self.recipient.x25519_pk@.len() == 32 && self.recipient.mlkem768_pk@.len() == mlkem768_pk_len() ==> (res matches Ok(
                Recipient::Pubkey(pr),
            ) && {
                &&& pr.recipient_x25519_pk@ == self.recipient.x25519_pk@
                &&& pr.recipient_mlkem768_pk_hash@ == mlkem_key_hash(self.recipient.mlkem768_pk@)
                &&& pr.mlkem768_ct@.len() == mlkem768_ct_len()
                &&& pr.nonce@.len() == PUBKEY_NONCE_LEN
                &&& exists|eph_sk: Seq<u8>, mlkem_shared: Seq<u8>|
                    #![trigger x25519_public_key(eph_sk), pq_wrap_key(x25519_shared(eph_sk, self.recipient.x25519_pk@), mlkem_shared, pr.ephemeral_x25519_pk@, pr.recipient_x25519_pk@, pr.mlkem768_ct@, self.recipient.mlkem768_pk@)]
                    pr.ephemeral_x25519_pk@ == x25519_public_key(eph_sk) && pr.encrypted_file_key@ == xchacha_seal(
                        pq_wrap_key(
                            x25519_shared(eph_sk, self.recipient.x25519_pk@),
                            mlkem_shared,
                            pr.ephemeral_x25519_pk@,
                            pr.recipient_x25519_pk@,
                            pr.mlkem768_ct@,
                            self.recipient.mlkem768_pk@,
                        ),
                        pr.nonce@,
                        file_key@,
                    ) && forall|id: Identity|
                        #![trigger pubkey_recipient_key(id, pr)]
                        id.wf() && id.x25519_pk_bytes@ == self.recipient.x25519_pk@ && id.mlkem768_pk_bytes@
                            == self.recipient.mlkem768_pk@ && mlkem768_shared(id.mlkem768_sk@, pr.mlkem768_ct@)
                            == mlkem_shared ==> pubkey_recipient_key(id, pr) == Some(file_key@)
            }),
    {
        if self.recipient.x25519_pk.len() != 32 {
            return Err(IdentityError::InvalidX25519PkLen(self.recipient.x25519_pk.len()));
        }
        let eph_sk = random_bytes(32);
        let eph_pk = x25519_public(eph_sk.as_slice());
        let x_shared = x25519_diffie_hellman(eph_sk.as_slice(), self.recipient.x25519_pk.as_slice());
        if self.recipient.mlkem768_pk.len() != 1184 {
            return Err(IdentityError::InvalidMlkemPkLen);
        }
        let (mlkem_ct, mlkem_shared) = mlkem768_encapsulate(self.recipient.mlkem768_pk.as_slice());
        let wrap_key = derive_wrap_key(
            x_shared.as_slice(),
            mlkem_shared.as_slice(),
            eph_pk.as_slice(),
            self.recipient.x25519_pk.as_slice(),
            mlkem_ct.as_slice(),
            self.recipient.mlkem768_pk.as_slice(),
        );
        let nonce = random_bytes(PUBKEY_NONCE_LEN);
        proof {
            file_key.lemma_len();
        }
        let encrypted = match aead_seal(wrap_key.as_slice(), nonce.as_slice(), file_key.as_bytes()) {
            Some(c) => c,
            None => return Err(IdentityError::Aead),
        };
        let mlkem_pk_hash = self.recipient.mlkem_pk_hash();
        let pr = PubkeyRecipient {
            recipient_x25519_pk: vstd::slice::slice_to_vec(self.recipient.x25519_pk.as_slice()),
            ephemeral_x25519_pk: eph_pk,
            mlkem768_ct: mlkem_ct,
            recipient_mlkem768_pk_hash: mlkem_pk_hash,
            nonce,
            encrypted_file_key: encrypted,
        };
        proof {
            let w1 = eph_sk@;
            let w2 = mlkem_shared@;
            assert(x25519_public_key(w1) == pr.ephemeral_x25519_pk@);
            assert(pr.encrypted_file_key@ == xchacha_seal(
                pq_wrap_key(
                    x25519_shared(w1, self.recipient.x25519_pk@),
                    w2,
                    pr.ephemeral_x25519_pk@,
                    pr.recipient_x25519_pk@,
                    pr.mlkem768_ct@,
                    self.recipient.mlkem768_pk@,
                ),
                pr.nonce@,
                file_key@,
            ));
            assert forall|id: Identity|
                id.wf() && id.x25519_pk_bytes@ == self.recipient.x25519_pk@ && id.mlkem768_pk_bytes@
                    == self.recipient.mlkem768_pk@ && mlkem768_shared(id.mlkem768_sk@, pr.mlkem768_ct@) == w2 implies
                #[trigger] pubkey_recipient_key(id, pr) == Some(file_key@) by {
                assert(x25519_public_key(id.x25519_sk@) == self.recipient.x25519_pk@);
                assert(x25519_shared(id.x25519_sk@, pr.ephemeral_x25519_pk@) == x25519_shared(w1, self.recipient.x25519_pk@));
                file_key.lemma_len();
            }
        }
        Ok(Recipient::Pubkey(pr))
    }
}

/// The file key that an identity recovers from a public-key recipient, when it
/// recovers one.
pub open spec fn pubkey_recipient_key(id: Identity, r: PubkeyRecipient) -> Option<Seq<u8>> {
    if r.recipient_x25519_pk@ == id.x25519_pk_bytes@ && r.recipient_mlkem768_pk_hash@ == mlkem_key_hash(
        id.mlkem768_pk_bytes@,
    ) && r.ephemeral_x25519_pk@.len() == 32 && r.nonce@.len() == PUBKEY_NONCE_LEN && r.mlkem768_ct@.len()
        == mlkem768_ct_len() {
        let key = pq_wrap_key(
            x25519_shared(id.x25519_sk@, r.ephemeral_x25519_pk@),
            mlkem768_shared(id.mlkem768_sk@, r.mlkem768_ct@),
            r.ephemeral_x25519_pk@,
            r.recipient_x25519_pk@,
            r.mlkem768_ct@,
            id.mlkem768_pk_bytes@,
        );
        match xchacha_open(key, r.nonce@, r.encrypted_file_key@) {
            Some(k) => if k.len() == 32 {
                Some(k)
            } else {
                None
            },
            None => None,
        }
    } else {
        None
    }
}

/// Whether two byte slices are equal.
fn same_bytes(a: &[u8], b: &[u8]) -> (res: bool)
    ensures
        res <==> a@ == b@,
{
    crate::integrity::bytes_equal(a, b)
}

/// Recovers the file key from a public-key recipient with an identity. A
/// recipient for another X25519 key or another ML-KEM key hash is
/// `RecipientMismatch`; then an ephemeral key of another length than 32 is
/// `InvalidEphemeralKey`, a nonce of another length than 24 is `Aead`, a
/// ciphertext of another length than 1088 is `InvalidMlkemCtLen`; a sealed key
/// that does not open is `Aead`, one of another length than 32 is
/// `InvalidFileKey`.
pub fn unwrap_pubkey(identity: &Identity, recipient: &PubkeyRecipient) -> (res: Result<FileKey, IdentityError>)
    requires
        identity.wf(),
    ensures
        res is Ok <==> pubkey_recipient_key(*identity, *recipient) is Some,
        res matches Ok(k) ==> Some(k@) == pubkey_recipient_key(*identity, *recipient),
        recipient.recipient_x25519_pk@ != identity.x25519_pk_bytes@ ==> res matches Err(IdentityError::RecipientMismatch),
        recipient.recipient_x25519_pk@ == identity.x25519_pk_bytes@ && recipient.recipient_mlkem768_pk_hash@
            != mlkem_key_hash(identity.mlkem768_pk_bytes@) ==> res matches Err(IdentityError::RecipientMismatch),
        recipient.recipient_x25519_pk@ == identity.x25519_pk_bytes@ && recipient.recipient_mlkem768_pk_hash@
            == mlkem_key_hash(identity.mlkem768_pk_bytes@) ==> {
            &&& recipient.ephemeral_x25519_pk@.len() != 32 ==> (res matches Err(IdentityError::InvalidEphemeralKey))
            &&& (recipient.ephemeral_x25519_pk@.len() == 32 && recipient.nonce@.len() != PUBKEY_NONCE_LEN) ==> (res matches Err(
                IdentityError::Aead,
            ))
            &&& (recipient.ephemeral_x25519_pk@.len() == 32 && recipient.nonce@.len() == PUBKEY_NONCE_LEN
                && recipient.mlkem768_ct@.len() != mlkem768_ct_len()) ==> (res matches Err(IdentityError::InvalidMlkemCtLen))
        },
{
    if !same_bytes(recipient.recipient_x25519_pk.as_slice(), &identity.x25519_pk_bytes) {
        return Err(IdentityError::RecipientMismatch);
    }
    let digest = sha256(identity.mlkem768_pk_bytes.as_slice());
    let my_hash = first8(&digest);
    if !same_bytes(recipient.recipient_mlkem768_pk_hash.as_slice(), my_hash.as_slice()) {
        return Err(IdentityError::RecipientMismatch);
    }
    if recipient.ephemeral_x25519_pk.len() != 32 {
        return Err(IdentityError::InvalidEphemeralKey);
    }
    if recipient.nonce.len() != PUBKEY_NONCE_LEN {
        return Err(IdentityError::Aead);
    }
    let x_shared = x25519_diffie_hellman(identity.x25519_sk.as_slice(), recipient.ephemeral_x25519_pk.as_slice());
    if recipient.mlkem768_ct.len() != 1088 {
        return Err(IdentityError::InvalidMlkemCtLen);
    }
    let mlkem_shared = mlkem768_decapsulate(identity.mlkem768_sk.as_slice(), recipient.mlkem768_ct.as_slice());
    let wrap_key = derive_wrap_key(
        x_shared.as_slice(),
        mlkem_shared.as_slice(),
        recipient.ephemeral_x25519_pk.as_slice(),
        recipient.recipient_x25519_pk.as_slice(),
        recipient.mlkem768_ct.as_slice(),
        identity.mlkem768_pk_bytes.as_slice(),
    );
    let plaintext = match aead_open(wrap_key.as_slice(), recipient.nonce.as_slice(), recipient.encrypted_file_key.as_slice()) {
        Some(p) => p,
        None => return Err(IdentityError::Aead),
    };
    if plaintext.len() != 32 {
        return Err(IdentityError::InvalidFileKey);
    }
    Ok(FileKey::from_bytes(array32_from(plaintext.as_slice())))
}

} // verus!
