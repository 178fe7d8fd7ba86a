//! The FIDO2 recipient: the authenticator's hmac-secret (PRF) output on a
//! random salt, HKDF domain separation, XChaCha20-Poly1305.
//!
//! The PRF comes from a backend: a real authenticator, or a deterministic
//! mock for tests. Wrapping and unwrapping are split at the backend call: the
//! functions that make the call check what is handed to it, and verified
//! functions that take its output do the rest.
use vstd::prelude::*;
use vstd::string::StringSliceAdditionalSpecFns;

use crate::bytes::le_bytes;
use crate::envelope::{array32_from, FileKey};
use crate::error::HardwareError;
use crate::format::{Fido2Recipient, Recipient};
use crate::primitives::{aead_open, aead_seal, hkdf_sha256, hkdf_sha256_32, hmac_sha256, hmac_sha256_tag, random_bytes, xchacha_open, xchacha_seal};

verus! {

/// Relying-party id used when none is given.
pub const DEFAULT_RP_ID: &'static str = "qsafe.local";

/// HKDF label of the FIDO2 wrap key.
pub const HKDF_INFO_FIDO2_V1: &'static str = "qsafe-v1-fido2-prf-wrap-key";

/// Length of the hmac-secret salt.
pub const HMAC_SALT_LEN: usize = 32;

/// Length of the PRF output.
pub const PRF_OUTPUT_LEN: usize = 32;

/// Length of the envelope nonce.
pub const FIDO2_NONCE_LEN: usize = 24;

/// A 32-byte PRF output.
pub struct PrfOutput([u8; 32]);

impl View for PrfOutput {
    type V = Seq<u8>;

    closed spec fn view(&self) -> Seq<u8> {
        self.0@
    }
}

impl PrfOutput {
    /// A PRF output from its bytes.
    pub fn new(bytes: [u8; 32]) -> (o: PrfOutput)
        ensures
            o@ == bytes@,
    {
        PrfOutput(bytes)
    }

    /// The output bytes.
    pub fn as_bytes(&self) -> (res: &[u8; 32])
        ensures
            res@ == self@,
    {
        &self.0
    }
}

/// A credential created on a device.
#[derive(Debug, Clone)]
pub struct EnrolledCredential {
    pub credential_id: Vec<u8>,
    pub label: Option<String>,
}

/// A source of hmac-secret PRF outputs.
pub trait PrfBackend {
    /// The PRF of `credential_id` on a 32-byte `salt`.
    fn evaluate(&self, credential_id: &[u8], salt: &[u8]) -> Result<PrfOutput, HardwareError>;

    /// Creates a credential.
    fn enroll(&self, label: Option<&str>) -> Result<EnrolledCredential, HardwareError>;
}

/// The secret of the mock device with seed `seed`: byte `i` is byte `i % 8`
/// of the little-endian seed, XOR `i`.
pub open spec fn mock_secret(seed: u64) -> Seq<u8> {
    Seq::new(32, |i: int| le_bytes(seed as nat, 8)[i % 8] ^ (i as u8))
}

/// A deterministic software PRF (HMAC-SHA256 under a secret made from a
/// seed) for tests without a device.
pub struct MockPrfBackend {
    pub mock_device_secret: [u8; 32],
}

/// Copies an optional label into an owned string.
fn own_label(label: Option<&str>) -> (res: Option<String>)
    ensures
        label is None <==> res is None,
        label matches Some(l) ==> (res matches Some(s) && s@ == l@),
{
    match label {
        Some(l) => Some(String::from_str(l)),
        None => None,
    }
}

impl MockPrfBackend {
    /// The mock device with seed `seed`.
    pub fn new(seed: u64) -> (m: MockPrfBackend)
        ensures
            m.mock_device_secret@ == mock_secret(seed),
    {
        let mut le: Vec<u8> = Vec::new();
        crate::bytes::push_le(&mut le, seed, 8);
        proof {
            crate::bytes::lemma_le_bytes_len(seed as nat, 8);
        }
        let mut secret: [u8; 32] = [0u8; 32];
        let mut i: usize = 0;
        while i < 32
            invariant
                i <= 32,
                le@ == le_bytes(seed as nat, 8),
                le@.len() == 8,
                secret@.len() == 32,
                forall|j: int| 0 <= j < i ==> secret@[j] == mock_secret(seed)[j],
            decreases 32 - i,
        {
            secret[i] = le[i % 8] ^ (i as u8);
            i = i + 1;
        }
        assert(secret@ =~= mock_secret(seed));
        MockPrfBackend { mock_device_secret: secret }
    }
}

impl PrfBackend for MockPrfBackend {
    /// HMAC-SHA256 under the device secret of the credential id followed by the
    /// salt; a salt of another length than 32 is refused.
    fn evaluate(&self, credential_id: &[u8], salt: &[u8]) -> (res: Result<PrfOutput, HardwareError>)
        ensures
            salt@.len() != HMAC_SALT_LEN ==> (res matches Err(HardwareError::InvalidSaltLen { expected: e, actual: a })
                && e == HMAC_SALT_LEN && a == salt@.len()),
            salt@.len() == HMAC_SALT_LEN ==> (res matches Ok(o) && o@ == hmac_sha256_tag(
                self.mock_device_secret@,
                credential_id@ + salt@,
            )),
    {
        if salt.len() != HMAC_SALT_LEN {
            return Err(HardwareError::InvalidSaltLen { expected: HMAC_SALT_LEN, actual: salt.len() });
        }
        let mut message: Vec<u8> = Vec::new();
        crate::bytes::append_bytes(&mut message, credential_id);
        crate::bytes::append_bytes(&mut message, salt);
        let tag = hmac_sha256(&self.mock_device_secret, message.as_slice());
        Ok(PrfOutput::new(array32_from(tag.as_slice())))
    }

    /// A credential with a random 32-byte id.
    fn enroll(&self, label: Option<&str>) -> (res: Result<EnrolledCredential, HardwareError>)
        ensures
            res matches Ok(c) && c.credential_id@.len() == 32 && (label is None <==> c.label is None) && (
            label matches Some(l) ==> (c.label matches Some(s) && s@ == l@)),
    {
        let id = random_bytes(32);
        Ok(EnrolledCredential { credential_id: id, label: own_label(label) })
    }
}

/// A real authenticator reached over CTAP2 HID, with its relying-party id and
/// an optional PIN.
pub struct Fido2HwBackend {
    pub rp_id: String,
    pub pin: Option<String>,
}

impl Fido2HwBackend {
    /// A backend for `rp_id`, without a PIN.
    pub fn new(rp_id: &str) -> (b: Fido2HwBackend)
        ensures
            b.rp_id@ == rp_id@,
            b.pin is None,
    {
        Fido2HwBackend { rp_id: String::from_str(rp_id), pin: None }
    }

    /// The same backend with a PIN.
    pub fn with_pin(self, pin: &str) -> (b: Fido2HwBackend)
        ensures
            b.rp_id@ == self.rp_id@,
            b.pin matches Some(p) && p@ == pin@,
    {
        Fido2HwBackend { rp_id: self.rp_id, pin: Some(String::from_str(pin)) }
    }
}

/// The FIDO2 wrap key: HKDF-SHA256 of the PRF output with the salt and the
/// FIDO2 label.
pub open spec fn fido2_wrap_key(prf: Seq<u8>, salt: Seq<u8>) -> Seq<u8> {
    hkdf_sha256_32(salt, prf, HKDF_INFO_FIDO2_V1.spec_bytes())
}

/// The file key that a PRF output recovers from a recipient, when it recovers one.
pub open spec fn fido2_recipient_key(prf: Seq<u8>, r: Fido2Recipient) -> Option<Seq<u8>> {
    if r.hmac_salt@.len() == HMAC_SALT_LEN && r.nonce@.len() == FIDO2_NONCE_LEN {
        match xchacha_open(fido2_wrap_key(prf, r.hmac_salt@), r.nonce@, r.encrypted_file_key@) {
            Some(k) => if k.len() == 32 {
                Some(k)
            } else {
                None
            },
            None => None,
        }
    } else {
        None
    }
}

/// Builds a FIDO2 recipient with a backend.
pub struct Fido2Wrapper<'b, B: PrfBackend> {
    pub backend: &'b B,
    pub credential_id: Vec<u8>,
    pub rp_id: String,
    pub user_verification_required: bool,
    pub label: Option<String>,
}

impl<'b, B: PrfBackend> Fido2Wrapper<'b, B> {
    /// A wrapper for a credential, with the default relying party, no user
    /// verification and no label.
    pub fn new(backend: &'b B, credential_id: Vec<u8>) -> (w: Self)
        ensures
            w.credential_id@ == credential_id@,
            w.rp_id@ == DEFAULT_RP_ID@,
            !w.user_verification_required,
            w.label is None,
    {
        Fido2Wrapper {
            backend,
            credential_id,
            rp_id: String::from_str(DEFAULT_RP_ID),
            user_verification_required: false,
            label: None,
        }
    }

    /// The same wrapper with another relying-party id.
    pub fn with_rp_id(self, rp_id: &str) -> (w: Self)
        ensures
            w.credential_id@ == self.credential_id@,
            w.rp_id@ == rp_id@,
            w.user_verification_required == self.user_verification_required,
            w.label == self.label,
    {
        Fido2Wrapper {
            backend: self.backend,
            credential_id: self.credential_id,
            rp_id: String::from_str(rp_id),
            user_verification_required: self.user_verification_required,
            label: self.label,
        }
    }

    /// The same wrapper with user verification required or not.
    pub fn with_uv(self, required: bool) -> (w: Self)
        ensures
            w.credential_id@ == self.credential_id@,
            w.rp_id@ == self.rp_id@,
            w.user_verification_required == required,
            w.label == self.label,
    {
        Fido2Wrapper {
            backend: self.backend,
            credential_id: self.credential_id,
            rp_id: self.rp_id,
            user_verification_required: required,
            label: self.label,
        }
    }

    /// The same wrapper with a label.
    pub fn with_label(self, label: &str) -> (w: Self)
        ensures
            w.credential_id@ == self.credential_id@,
            w.rp_id@ == self.rp_id@,
            w.user_verification_required == self.user_verification_required,
            w.label matches Some(l) && l@ == label@,
    {
        Fido2Wrapper {
            backend: self.backend,
            credential_id: self.credential_id,
            rp_id: self.rp_id,
            user_verification_required: self.user_verification_required,
            label: Some(String::from_str(label)),
        }
    }

    /// Wraps the file key: a random 32-byte salt, the backend's PRF of the
    /// credential on it, then `wrap_with_prf`. Only the backend can fail, and
    /// its error is returned as it came; otherwise the recipient names this
    /// wrapper's credential, relying party, user-verification flag and label,
    /// and gives the file key back to the PRF output the backend gave.
    pub fn wrap(&self, file_key: &FileKey) -> (res: Result<Recipient, HardwareError>)
        ensures
            res matches Ok(r) ==> (r matches Recipient::Fido2(fr) && {
                &&& fr.credential_id@ == self.credential_id@
                &&& fr.rp_id@ == self.rp_id@
                &&& fr.user_verification_required == self.user_verification_required
                &&& (fr.label is None <==> self.label is None)
                &&& (fr.label matches Some(l) ==> self.label matches Some(m) && l@ == m@)
                &&& fr.hmac_salt@.len() == HMAC_SALT_LEN
                &&& fr.nonce@.len() == FIDO2_NONCE_LEN
                &&& exists|prf: Seq<u8>|
                    #![trigger fido2_wrap_key(prf, fr.hmac_salt@)]
                    fr.encrypted_file_key@ == xchacha_seal(fido2_wrap_key(prf, fr.hmac_salt@), fr.nonce@, file_key@)
                        && fido2_recipient_key(prf, fr) == Some(file_key@)
            }),
    {
        let salt = random_bytes(HMAC_SALT_LEN);
        let prf = match self.backend.evaluate(self.credential_id.as_slice(), salt.as_slice()) {
            Ok(p) => p,
            Err(e) => return Err(e),
        };
        self.wrap_with_prf(file_key, salt, &prf)
    }

    /// Seals the file key under the wrap key of `prf` and `salt` with a random
    /// 24-byte nonce. The recipient it builds gives the file key back to the
    /// same PRF output.
    pub fn wrap_with_prf(&self, file_key: &FileKey, salt: Vec<u8>, prf: &PrfOutput) -> (res: Result<Recipient, HardwareError>)
        ensures
            res matches Ok(r) && r matches Recipient::Fido2(fr) && {
                &&& fr.credential_id@ == self.credential_id@
                &&& fr.rp_id@ == self.rp_id@
                &&& fr.hmac_salt@ == salt@
                &&& fr.user_verification_required == self.user_verification_required
                &&& fr.nonce@.len() == FIDO2_NONCE_LEN
                &&& fr.encrypted_file_key@ == xchacha_seal(fido2_wrap_key(prf@, salt@), fr.nonce@, file_key@)
                &&& salt@.len() == HMAC_SALT_LEN ==> fido2_recipient_key(prf@, fr) == Some(file_key@)
                &&& (fr.label is None <==> self.label is None)
                &&& (fr.label matches Some(l) ==> self.label matches Some(m) && l@ == m@)
            },
    {
        let wrap_key = hkdf_sha256(salt.as_slice(), prf.as_bytes(), HKDF_INFO_FIDO2_V1.as_bytes());
        let nonce = random_bytes(FIDO2_NONCE_LEN);
        proof {
            file_key.lemma_len();
        }
        let encrypted = match aead_seal(wrap_key.as_slice(), nonce.as_slice(), file_key.as_bytes()) {
            Some(c) => c,
            None => return Err(HardwareError::Aead),
        };
        Ok(
            Recipient::Fido2(
                Fido2Recipient {
                    credential_id: vstd::slice::slice_to_vec(self.credential_id.as_slice()),
                    rp_id: self.rp_id.clone(),
                    hmac_salt: salt,
                    user_verification_required: self.user_verification_required,
                    nonce,
                    encrypted_file_key: encrypted,
                    label: clone_label(&self.label),
                },
            ),
        )
    }
}

/// Copies an optional label.
fn clone_label(label: &Option<String>) -> (res: Option<String>)
    ensures
        label is None <==> res is None,
        label matches Some(l) ==> (res matches Some(s) && s@ == l@),
{
    match label {
        Some(l) => Some(l.clone()),
        None => None,
    }
}

/// Recovers the file key from a FIDO2 recipient with a PRF output. A salt of
/// another length than 32 is `InvalidSaltLen`; a nonce of another length than
/// 24 or a ciphertext that does not open is `Aead`; a key of another length
/// than 32 is `InvalidFileKey`.
pub fn unwrap_fido2_with_prf(prf: &PrfOutput, recipient: &Fido2Recipient) -> (res: Result<FileKey, HardwareError>)
    ensures
        res is Ok <==> fido2_recipient_key(prf@, *recipient) is Some,
        res matches Ok(k) ==> Some(k@) == fido2_recipient_key(prf@, *recipient),
        recipient.hmac_salt@.len() != HMAC_SALT_LEN ==> (res matches Err(HardwareError::InvalidSaltLen { expected: e, actual: a })
            && e == HMAC_SALT_LEN && a == recipient.hmac_salt@.len()),
        recipient.hmac_salt@.len() == HMAC_SALT_LEN && recipient.nonce@.len() != FIDO2_NONCE_LEN ==> res matches Err(
            HardwareError::Aead,
        ),
        recipient.hmac_salt@.len() == HMAC_SALT_LEN && recipient.nonce@.len() == FIDO2_NONCE_LEN ==> {
            let opened = xchacha_open(
                fido2_wrap_key(prf@, recipient.hmac_salt@),
                recipient.nonce@,
                recipient.encrypted_file_key@,
            );
            &&& opened is None ==> (res matches Err(HardwareError::Aead))
            &&& (opened is Some && opened->0.len() != 32) ==> (res matches Err(HardwareError::InvalidFileKey))
        },
{
    if recipient.hmac_salt.len() != HMAC_SALT_LEN {
        return Err(HardwareError::InvalidSaltLen { expected: HMAC_SALT_LEN, actual: recipient.hmac_salt.len() });
    }
    if recipient.nonce.len() != FIDO2_NONCE_LEN {
        return Err(HardwareError::Aead);
    }
    let wrap_key = hkdf_sha256(recipient.hmac_salt.as_slice(), prf.as_bytes(), HKDF_INFO_FIDO2_V1.as_bytes());
    let plaintext = match aead_open(wrap_key.as_slice(), recipient.nonce.as_slice(), recipient.encrypted_file_key.as_slice()) {
        Some(p) => p,
        None => return Err(HardwareError::Aead),
    };
    if plaintext.len() != 32 {
        return Err(HardwareError::InvalidFileKey);
    }
    Ok(FileKey::from_bytes(array32_from(plaintext.as_slice())))
}

/// Recovers the file key from a FIDO2 recipient with a backend. The salt and
/// nonce lengths are checked before the backend is asked (as in
/// `unwrap_fido2_with_prf`); a backend error is returned as it came; with the
/// backend's output, the result is that of `unwrap_fido2_with_prf`.
pub fn unwrap_fido2_with<B: PrfBackend>(backend: &B, recipient: &Fido2Recipient) -> (res: Result<FileKey, HardwareError>)
    ensures
        recipient.hmac_salt@.len() != HMAC_SALT_LEN ==> (res matches Err(HardwareError::InvalidSaltLen { expected: e, actual: a })
            && e == HMAC_SALT_LEN && a == recipient.hmac_salt@.len()),
        recipient.hmac_salt@.len() == HMAC_SALT_LEN && recipient.nonce@.len() != FIDO2_NONCE_LEN ==> res matches Err(
            HardwareError::Aead,
        ),
        res matches Ok(k) ==> exists|prf: Seq<u8>| fido2_recipient_key(prf, *recipient) == Some(k@),
{
    if recipient.hmac_salt.len() != HMAC_SALT_LEN {
        return Err(HardwareError::InvalidSaltLen { expected: HMAC_SALT_LEN, actual: recipient.hmac_salt.len() });
    }
    if recipient.nonce.len() != FIDO2_NONCE_LEN {
        return Err(HardwareError::Aead);
    }
    let prf = match backend.evaluate(recipient.credential_id.as_slice(), recipient.hmac_salt.as_slice()) {
        Ok(p) => p,
        Err(e) => return Err(e),
    };
    unwrap_fido2_with_prf(&prf, recipient)
}

} // verus!
