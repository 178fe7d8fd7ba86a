//! The password recipient: Argon2id, HKDF domain separation, XChaCha20-Poly1305.
//!
//! wrap:   password -> Argon2id(salt) -> HKDF -> wrap key -> AEAD(file key)
//! unwrap: the same wrap key from the stored parameters -> AEAD open -> file key
//!
//! Stored parameters come from the file, so unwrapping refuses weak ones (an
//! attacker could otherwise make brute force cheap) and huge memory costs.
use vstd::prelude::*;
use vstd::string::StringSliceAdditionalSpecFns;

use crate::envelope::{array32_from, FileKey};
use crate::error::CryptoError;
use crate::format::{PasswordRecipient, Recipient};
use crate::primitives::{
    aead_open, aead_seal, argon2_params_accepted, argon2id, argon2id_32, hkdf_sha256, hkdf_sha256_32, random_bytes,
    string_from_chars, xchacha_open, xchacha_seal,
};
use crate::text::{dec_nat, push_dec_usize, push_str};

verus! {

/// HKDF label of the password wrap key.
pub const HKDF_INFO_PASSWORD_V1: &'static str = "qsafe-v1-password-wrap-key";

/// Default Argon2id memory (64 MiB), passes and lanes (RFC 9106).
pub const DEFAULT_M_KIB: u32 = 65536;
pub const DEFAULT_T: u32 = 3;
pub const DEFAULT_P: u32 = 4;

/// The strong profile.
pub const STRONG_M_KIB: u32 = 262144;
pub const STRONG_T: u32 = 4;
pub const STRONG_P: u32 = 4;

/// Smallest parameters accepted when unwrapping (8 MiB, one pass, one lane).
pub const MIN_M_KIB: u32 = 8192;
pub const MIN_T: u32 = 1;
pub const MIN_P: u32 = 1;

/// Largest memory cost accepted when unwrapping (16 GiB).
pub const MAX_M_KIB: u32 = 16777216;

/// Most lanes the Argon2 implementation accepts.
pub const ARGON2_MAX_P: u32 = 16777215;

pub const SALT_LEN: usize = 32;
pub const NONCE_LEN: usize = 24;
pub const WRAP_KEY_LEN: usize = 32;

/// The wrap key: Argon2id of the password and salt, then HKDF-SHA256 with the
/// salt and the password label.
pub open spec fn password_wrap_key(password: Seq<u8>, salt: Seq<u8>, m: u32, t: u32, p: u32) -> Seq<u8> {
    hkdf_sha256_32(salt, argon2id_32(password, salt, m, t, p), HKDF_INFO_PASSWORD_V1.spec_bytes())
}

/// Whether key derivation succeeds: Argon2 accepts the parameters (at most
/// `ARGON2_MAX_P` lanes, at least 8 KiB of memory per lane) and the salt has
/// 8 bytes or more; password and salt fit in 32-bit lengths.
pub open spec fn derivation_accepted(password: Seq<u8>, salt: Seq<u8>, m: u32, t: u32, p: u32) -> bool {
    &&& argon2_params_accepted(m, t, p)
    &&& salt.len() >= 8
    &&& salt.len() <= 0xFFFFFFFF
    &&& password.len() <= 0xFFFFFFFF
}

/// Derives the 32-byte wrap key; a refusal of the KDF is a `Kdf` error.
fn derive_key(password: &[u8], salt: &[u8], m: u32, t: u32, p: u32) -> (res: Result<Vec<u8>, CryptoError>)
    ensures
        res is Ok <==> derivation_accepted(password@, salt@, m, t, p),
        res is Err ==> res matches Err(CryptoError::Kdf(_)),
        res matches Ok(k) ==> k@ == password_wrap_key(password@, salt@, m, t, p) && k@.len() == 32,
{
    if p > ARGON2_MAX_P {
        return Err(CryptoError::Kdf("invalid argon2 params: too many lanes".to_string()));
    }
    let argon_out = match argon2id(password, salt, m, t, p) {
        Ok(k) => k,
        Err(e) => {
            let mut msg = "invalid argon2 params: ".to_string();
            msg.append(e.as_str());
            return Err(CryptoError::Kdf(msg));
        },
    };
    Ok(hkdf_sha256(salt, argon_out.as_slice(), HKDF_INFO_PASSWORD_V1.as_bytes()))
}

/// A builder of password recipients.
pub struct PasswordWrapper {
    password: Vec<u8>,
    m_kib: u32,
    t: u32,
    p: u32,
}

impl PasswordWrapper {
    /// The password bytes this builder wraps with.
    pub closed spec fn password_bytes(&self) -> Seq<u8> {
        self.password@
    }

    /// The Argon2id memory cost in KiB.
    pub closed spec fn m_kib(&self) -> u32 {
        self.m_kib
    }

    /// The Argon2id passes.
    pub closed spec fn t(&self) -> u32 {
        self.t
    }

    /// The Argon2id lanes.
    pub closed spec fn p(&self) -> u32 {
        self.p
    }

    /// A builder with the default parameters.
    pub fn new(password: &str) -> (w: PasswordWrapper)
        ensures
            w.password_bytes() == password.spec_bytes(),
            w.m_kib() == DEFAULT_M_KIB,
            w.t() == DEFAULT_T,
            w.p() == DEFAULT_P,
    {
        PasswordWrapper {
            password: vstd::slice::slice_to_vec(password.as_bytes()),
            m_kib: DEFAULT_M_KIB,
            t: DEFAULT_T,
            p: DEFAULT_P,
        }
    }

    /// The same builder with other parameters.
    pub fn with_params(self, m_kib: u32, t: u32, p: u32) -> (w: PasswordWrapper)
        ensures
            w.password_bytes() == self.password_bytes(),
            w.m_kib() == m_kib,
            w.t() == t,
            w.p() == p,
    {
        PasswordWrapper { password: self.password, m_kib, t, p }
    }

    /// A builder with the strong profile.
    pub fn strong(password: &str) -> (w: PasswordWrapper)
        ensures
            w.password_bytes() == password.spec_bytes(),
            w.m_kib() == STRONG_M_KIB,
            w.t() == STRONG_T,
            w.p() == STRONG_P,
    {
        PasswordWrapper::new(password).with_params(STRONG_M_KIB, STRONG_T, STRONG_P)
    }

    /// Wraps the file key: a random 32-byte salt and 24-byte nonce, the wrap
    /// key from the password, and the sealed key. Fails exactly when key
    /// derivation refuses the parameters. When the parameters are within the
    /// bounds that unwrapping enforces, unwrapping with the same password
    /// gives the file key back.
    pub fn wrap(&self, file_key: &FileKey) -> (res: Result<Recipient, CryptoError>)
        ensures
            res is Ok <==> (argon2_params_accepted(self.m_kib(), self.t(), self.p()) && self.password_bytes().len()
                <= 0xFFFFFFFF),
            res is Err ==> res matches Err(CryptoError::Kdf(_)),
            res matches Ok(r) ==> (r matches Recipient::Password(pr) && {
                &&& pr.salt@.len() == SALT_LEN
                &&& pr.nonce@.len() == NONCE_LEN
                &&& pr.argon2_m_kib == self.m_kib()
                &&& pr.argon2_t == self.t()
                &&& pr.argon2_p == self.p()
                &&& pr.encrypted_file_key@ == xchacha_seal(
                    password_wrap_key(self.password_bytes(), pr.salt@, pr.argon2_m_kib, pr.argon2_t, pr.argon2_p),
                    pr.nonce@,
                    file_key@,
                )
                &&& unwrap_bounds_ok(pr) ==> password_recipient_key(self.password_bytes(), pr) == Some(file_key@)
            }),
    {
        let salt = random_bytes(SALT_LEN);
        let nonce = random_bytes(NONCE_LEN);
        let wrap_key = match derive_key(self.password.as_slice(), salt.as_slice(), self.m_kib, self.t, self.p) {
            Ok(k) => k,
            Err(e) => return Err(e),
        };
        proof {
            file_key.lemma_len();
        }
        let encrypted = match aead_seal(wrap_key.as_slice(), nonce.as_slice(), file_key.as_bytes()) {
            Some(c) => c,
            None => return Err(CryptoError::Aead),
        };
        Ok(
            Recipient::Password(
                PasswordRecipient {
                    salt,
                    argon2_m_kib: self.m_kib,
                    argon2_t: self.t,
                    argon2_p: self.p,
                    nonce,
                    encrypted_file_key: encrypted,
                },
            ),
        )
    }
}

/// Whether the stored parameters pass the checks that unwrapping makes before
/// any key derivation.
pub open spec fn unwrap_bounds_ok(r: PasswordRecipient) -> bool {
    &&& r.salt@.len() >= 8
    &&& r.nonce@.len() == NONCE_LEN
    &&& MIN_M_KIB <= r.argon2_m_kib <= MAX_M_KIB
    &&& r.argon2_t >= MIN_T
    &&& r.argon2_p >= MIN_P
}

/// The file key that a password recovers from a recipient, when it recovers one.
pub open spec fn password_recipient_key(password: Seq<u8>, r: PasswordRecipient) -> Option<Seq<u8>> {
    if unwrap_bounds_ok(r) && derivation_accepted(password, r.salt@, r.argon2_m_kib, r.argon2_t, r.argon2_p) {
        match xchacha_open(
            password_wrap_key(password, r.salt@, r.argon2_m_kib, r.argon2_t, r.argon2_p),
            r.nonce@,
            r.encrypted_file_key@,
        ) {
            Some(k) => if k.len() == 32 {
                Some(k)
            } else {
                None
            },
            None => None,
        }
    } else {
        None
    }
}

/// Builds an error message: the prefix, the value in decimal, the middle
/// text, the limit in decimal and the suffix.
fn param_message(prefix: &str, value: u32, middle: &str, limit: u32, suffix: &str) -> (res: String)
    ensures
        res@ == prefix@ + dec_nat(value as nat) + middle@ + dec_nat(limit as nat) + suffix@,
{
    let mut out: Vec<char> = Vec::new();
    push_str(&mut out, prefix);
    push_dec_usize(&mut out, value as usize);
    push_str(&mut out, middle);
    push_dec_usize(&mut out, limit as usize);
    push_str(&mut out, suffix);
    string_from_chars(&out)
}

/// Recovers the file key from a password recipient.
///
/// Refused before any derivation: a salt under 8 bytes, a nonce of another
/// length than 24 (`InvalidNonce`), a memory cost outside
/// `MIN_M_KIB..=MAX_M_KIB`, no pass or no lane (`InvalidParams`). Then a
/// refusal of the KDF is `Kdf`, a ciphertext that does not open under the
/// derived key is `Aead`, and a key of another length than 32 is
/// `InvalidParams`.
pub fn unwrap_password(password: &str, recipient: &PasswordRecipient) -> (res: Result<FileKey, CryptoError>)
    ensures
        res is Ok <==> password_recipient_key(password.spec_bytes(), *recipient) is Some,
        res matches Ok(k) ==> Some(k@) == password_recipient_key(password.spec_bytes(), *recipient),
        recipient.salt@.len() < 8 ==> res matches Err(CryptoError::InvalidParams(_)),
        recipient.salt@.len() >= 8 && recipient.nonce@.len() != NONCE_LEN ==> res matches Err(CryptoError::InvalidNonce),
        recipient.salt@.len() >= 8 && recipient.nonce@.len() == NONCE_LEN && !unwrap_bounds_ok(*recipient) ==> res matches Err(
            CryptoError::InvalidParams(_),
        ),
        unwrap_bounds_ok(*recipient) && !derivation_accepted(
            password.spec_bytes(),
            recipient.salt@,
            recipient.argon2_m_kib,
            recipient.argon2_t,
            recipient.argon2_p,
        ) ==> res matches Err(CryptoError::Kdf(_)),
        unwrap_bounds_ok(*recipient) && derivation_accepted(
            password.spec_bytes(),
            recipient.salt@,
            recipient.argon2_m_kib,
            recipient.argon2_t,
            recipient.argon2_p,
        ) ==> {
            let opened = xchacha_open(
                password_wrap_key(
                    password.spec_bytes(),
                    recipient.salt@,
                    recipient.argon2_m_kib,
                    recipient.argon2_t,
                    recipient.argon2_p,
                ),
                recipient.nonce@,
                recipient.encrypted_file_key@,
            );
            &&& opened is None ==> (res matches Err(CryptoError::Aead))
            &&& (opened is Some && opened->0.len() != 32) ==> (res matches Err(CryptoError::InvalidParams(_)))
        },
{
    if recipient.salt.len() < 8 {
        return Err(CryptoError::InvalidParams("salt too short".to_string()));
    }
    if recipient.nonce.len() != NONCE_LEN {
        return Err(CryptoError::InvalidNonce);
    }
    if recipient.argon2_m_kib < MIN_M_KIB {
        return Err(CryptoError::InvalidParams(param_message("Argon2 m=", recipient.argon2_m_kib, " below minimum ", MIN_M_KIB, "")));
    }
    if recipient.argon2_m_kib > MAX_M_KIB {
        return Err(CryptoError::InvalidParams(param_message("Argon2 m=", recipient.argon2_m_kib, " above max ", MAX_M_KIB, " (DoS guard)")));
    }
    if recipient.argon2_t < MIN_T {
        return Err(CryptoError::InvalidParams(param_message("Argon2 t=", recipient.argon2_t, " below minimum ", MIN_T, "")));
    }
    if recipient.argon2_p < MIN_P {
        return Err(CryptoError::InvalidParams(param_message("Argon2 p=", recipient.argon2_p, " below minimum ", MIN_P, "")));
    }
    let pw = password.as_bytes();
    let wrap_key = match derive_key(pw, recipient.salt.as_slice(), recipient.argon2_m_kib, recipient.argon2_t, recipient.argon2_p) {
        Ok(k) => k,
        Err(e) => return Err(e),
    };
    let plaintext = match aead_open(wrap_key.as_slice(), recipient.nonce.as_slice(), recipient.encrypted_file_key.as_slice()) {
        Some(p) => p,
        None => return Err(CryptoError::Aead),
    };
    if plaintext.len() != 32 {
        return Err(CryptoError::InvalidParams("file key length mismatch".to_string()));
    }
    Ok(FileKey::from_bytes(array32_from(plaintext.as_slice())))
}

} // verus!
