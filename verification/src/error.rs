//! Error types of the library, one per concern.
use vstd::prelude::*;

use crate::format::{CipherSuite, CompressionAlgo};
use crate::primitives::string_from_chars;
use crate::text::{dec_nat, push_dec_u64, push_str};

verus! {

/// Errors of the file format, envelope, compression and integrity layers.
#[derive(Debug)]
pub enum CoreError {
    /// Reading or writing failed; the text says why (for a byte buffer that
    /// ended early: "unexpected end of file").
    Io(String),
    InvalidMagic,
    UnsupportedVersion(u16),
    HeaderDecode(String),
    HeaderEncode(String),
    Compression(String),
    IntegrityFailed,
    UnsupportedCompression(CompressionAlgo),
    UnsupportedCipherSuite(CipherSuite),
    TrailingBytes,
    EmptyRecipients,
    InvalidHeaderField(&'static str),
    CompressionBomb { got: u64, limit: u64 },
    SizeMismatch { expected: u64, got: u64 },
}

/// Errors of the password recipient.
#[derive(Debug)]
pub enum CryptoError {
    Kdf(String),
    Aead,
    InvalidNonce,
    InvalidParams(String),
}

/// Errors of the external archive formats.
#[derive(Debug)]
pub enum FormatError {
    Io(String),
    Unsupported,
    FeatureDisabled(&'static str),
    PathTraversal(String),
    Rar(String),
    Zip(String),
    SevenZ(String),
    Tar(String),
    Gzip(String),
    Xz(String),
    Bzip2(String),
    Lz4(String),
    Brotli(String),
    Zstd(String),
    PasswordRequired,
    IncorrectPassword,
    EmptyArchive,
    BombDetected { ratio: u64, limit: u64 },
    InvalidInput(String),
}

/// Errors of the FIDO2 recipient and its PRF backends.
#[derive(Debug)]
pub enum HardwareError {
    Aead,
    InvalidSaltLen { expected: usize, actual: usize },
    InvalidPrfOutput,
    InvalidFileKey,
    Hkdf(String),
    NoDevice,
    UserCancelled,
    UvRequired,
    CredentialNotFound,
    Backend(String),
}

/// Errors of the public-key (X25519 + ML-KEM-768) recipient.
#[derive(Debug)]
pub enum IdentityError {
    InvalidX25519PkLen(usize),
    InvalidX25519SkLen(usize),
    InvalidEphemeralKey,
    InvalidMlkemPkLen,
    InvalidMlkemCtLen,
    InvalidMlkemSk,
    RecipientMismatch,
    MlkemDecapFailed,
    Aead,
    InvalidFileKey,
    Hkdf(String),
    Hex(String),
}

/// Errors of the BIP39 paper recipient.
#[derive(Debug)]
pub enum PaperError {
    InvalidMnemonic(String),
    InvalidWordCount(u8),
    UnsupportedLanguage(String),
    Aead,
    InvalidSalt,
    InvalidNonce,
    InvalidFileKey,
    Hkdf(String),
}

/// Errors of Shamir secret sharing.
#[derive(Debug)]
pub enum ShamirError {
    InvalidThreshold { m: u8, n: u8 },
    NotEnoughShares { got: usize, need: usize },
    InvalidShare(String),
    InconsistentShares,
    RecoveryFailed(String),
    Hex(String),
}

/// Errors of self-extracting files.
#[derive(Debug)]
pub enum SfxError {
    NotSfx,
    InvalidFooter { payload: u64, file: u64 },
    Io(String),
}

/// The message of a `CoreError`.
pub open spec fn core_error_text(e: CoreError) -> Seq<char> {
    match e {
        CoreError::Io(x0) => "io error: "@ + x0@,
        CoreError::InvalidMagic => "invalid magic bytes (not a qsafe file)"@,
        CoreError::UnsupportedVersion(x0) => "unsupported format version: "@ + dec_nat(x0 as nat),
        CoreError::HeaderDecode(x0) => "header decode error: "@ + x0@,
        CoreError::HeaderEncode(x0) => "header encode error: "@ + x0@,
        CoreError::Compression(x0) => "compression failure: "@ + x0@,
        CoreError::IntegrityFailed => "integrity check failed"@,
        CoreError::UnsupportedCompression(x0) => "unsupported compression algorithm: "@ + crate::launch::compression_text(x0),
        CoreError::UnsupportedCipherSuite(x0) => "unsupported cipher suite: "@ + crate::launch::suite_text(x0),
        CoreError::TrailingBytes => "trailing bytes after file end (possibly tampered)"@,
        CoreError::EmptyRecipients => "file has no recipients (would be unrecoverable)"@,
        CoreError::InvalidHeaderField(x0) => "invalid header field: "@ + x0@,
        CoreError::CompressionBomb { got, limit } => "compression bomb detected (decompressed "@ + dec_nat(got as nat) + " > limit "@ + dec_nat(limit as nat) + ")"@,
        CoreError::SizeMismatch { expected, got } => "decompressed size mismatch (expected "@ + dec_nat(expected as nat) + ", got "@ + dec_nat(got as nat) + ")"@,
    }
}

impl CoreError {
    /// The message shown for the error.
    pub fn message(&self) -> (res: String)
        ensures
            res@ == core_error_text(*self),
    {
        let mut out: Vec<char> = Vec::new();
        match self {
            CoreError::Io(x0) => {
                push_str(&mut out, "io error: ");
                push_str(&mut out, x0.as_str());
            },
            CoreError::InvalidMagic => {
                push_str(&mut out, "invalid magic bytes (not a qsafe file)");
            },
            CoreError::UnsupportedVersion(x0) => {
                push_str(&mut out, "unsupported format version: ");
                push_dec_u64(&mut out, *x0 as u64);
            },
            CoreError::HeaderDecode(x0) => {
                push_str(&mut out, "header decode error: ");
                push_str(&mut out, x0.as_str());
            },
            CoreError::HeaderEncode(x0) => {
                push_str(&mut out, "header encode error: ");
                push_str(&mut out, x0.as_str());
            },
            CoreError::Compression(x0) => {
                push_str(&mut out, "compression failure: ");
                push_str(&mut out, x0.as_str());
            },
            CoreError::IntegrityFailed => {
                push_str(&mut out, "integrity check failed");
            },
            CoreError::UnsupportedCompression(x0) => {
                push_str(&mut out, "unsupported compression algorithm: ");
                push_str(&mut out, crate::launch::compression_name(*x0));
            },
            CoreError::UnsupportedCipherSuite(x0) => {
                push_str(&mut out, "unsupported cipher suite: ");
                push_str(&mut out, crate::launch::suite_name(*x0));
            },
            CoreError::TrailingBytes => {
                push_str(&mut out, "trailing bytes after file end (possibly tampered)");
            },
            CoreError::EmptyRecipients => {
                push_str(&mut out, "file has no recipients (would be unrecoverable)");
            },
            CoreError::InvalidHeaderField(x0) => {
                push_str(&mut out, "invalid header field: ");
                push_str(&mut out, *x0);
            },
            CoreError::CompressionBomb { got, limit } => {
                push_str(&mut out, "compression bomb detected (decompressed ");
                push_dec_u64(&mut out, *got as u64);
                push_str(&mut out, " > limit ");
                push_dec_u64(&mut out, *limit as u64);
                push_str(&mut out, ")");
            },
            CoreError::SizeMismatch { expected, got } => {
                push_str(&mut out, "decompressed size mismatch (expected ");
                push_dec_u64(&mut out, *expected as u64);
                push_str(&mut out, ", got ");
                push_dec_u64(&mut out, *got as u64);
                push_str(&mut out, ")");
            },
        }
        string_from_chars(&out)
    }
}

/// The message of a `CryptoError`.
pub open spec fn crypto_error_text(e: CryptoError) -> Seq<char> {
    match e {
        CryptoError::Kdf(x0) => "kdf error: "@ + x0@,
        CryptoError::Aead => "aead error"@,
        CryptoError::InvalidNonce => "invalid nonce length"@,
        CryptoError::InvalidParams(x0) => "invalid params: "@ + x0@,
    }
}

impl CryptoError {
    /// The message shown for the error.
    pub fn message(&self) -> (res: String)
        ensures
            res@ == crypto_error_text(*self),
    {
        let mut out: Vec<char> = Vec::new();
        match self {
            CryptoError::Kdf(x0) => {
                push_str(&mut out, "kdf error: ");
                push_str(&mut out, x0.as_str());
            },
            CryptoError::Aead => {
                push_str(&mut out, "aead error");
            },
            CryptoError::InvalidNonce => {
                push_str(&mut out, "invalid nonce length");
            },
            CryptoError::InvalidParams(x0) => {
                push_str(&mut out, "invalid params: ");
                push_str(&mut out, x0.as_str());
            },
        }
        string_from_chars(&out)
    }
}

/// The message of a `FormatError`.
pub open spec fn format_error_text(e: FormatError) -> Seq<char> {
    match e {
        FormatError::Io(x0) => "io: "@ + x0@,
        FormatError::Unsupported => "unsupported format"@,
        FormatError::FeatureDisabled(x0) => "not built with feature: "@ + x0@,
        FormatError::PathTraversal(x0) => "invalid path traversal in archive entry: "@ + x0@,
        FormatError::Rar(x0) => "RAR error: "@ + x0@,
        FormatError::Zip(x0) => "ZIP error: "@ + x0@,
        FormatError::SevenZ(x0) => "7Z error: "@ + x0@,
        FormatError::Tar(x0) => "TAR error: "@ + x0@,
        FormatError::Gzip(x0) => "gzip error: "@ + x0@,
        FormatError::Xz(x0) => "xz error: "@ + x0@,
        FormatError::Bzip2(x0) => "bzip2 error: "@ + x0@,
        FormatError::Lz4(x0) => "lz4 error: "@ + x0@,
        FormatError::Brotli(x0) => "brotli error: "@ + x0@,
        FormatError::Zstd(x0) => "zstd error: "@ + x0@,
        FormatError::PasswordRequired => "password required"@,
        FormatError::IncorrectPassword => "incorrect password"@,
        FormatError::EmptyArchive => "archive is empty"@,
        FormatError::BombDetected { ratio, limit } => "zip bomb detected (ratio "@ + dec_nat(ratio as nat) + " > limit "@ + dec_nat(limit as nat) + ")"@,
        FormatError::InvalidInput(x0) => "invalid input: "@ + x0@,
    }
}

impl FormatError {
    /// The message shown for the error.
    pub fn message(&self) -> (res: String)
        ensures
            res@ == format_error_text(*self),
    {
        let mut out: Vec<char> = Vec::new();
        match self {
            FormatError::Io(x0) => {
                push_str(&mut out, "io: ");
                push_str(&mut out, x0.as_str());
            },
            FormatError::Unsupported => {
                push_str(&mut out, "unsupported format");
            },
            FormatError::FeatureDisabled(x0) => {
                push_str(&mut out, "not built with feature: ");
                push_str(&mut out, *x0);
            },
            FormatError::PathTraversal(x0) => {
                push_str(&mut out, "invalid path traversal in archive entry: ");
                push_str(&mut out, x0.as_str());
            },
            FormatError::Rar(x0) => {
                push_str(&mut out, "RAR error: ");
                push_str(&mut out, x0.as_str());
            },
            FormatError::Zip(x0) => {
                push_str(&mut out, "ZIP error: ");
                push_str(&mut out, x0.as_str());
            },
            FormatError::SevenZ(x0) => {
                push_str(&mut out, "7Z error: ");
                push_str(&mut out, x0.as_str());
            },
            FormatError::Tar(x0) => {
                push_str(&mut out, "TAR error: ");
                push_str(&mut out, x0.as_str());
            },
            FormatError::Gzip(x0) => {
                push_str(&mut out, "gzip error: ");
                push_str(&mut out, x0.as_str());
            },
            FormatError::Xz(x0) => {
                push_str(&mut out, "xz error: ");
                push_str(&mut out, x0.as_str());
            },
            FormatError::Bzip2(x0) => {
                push_str(&mut out, "bzip2 error: ");
                push_str(&mut out, x0.as_str());
            },
            FormatError::Lz4(x0) => {
                push_str(&mut out, "lz4 error: ");
                push_str(&mut out, x0.as_str());
            },
            FormatError::Brotli(x0) => {
                push_str(&mut out, "brotli error: ");
                push_str(&mut out, x0.as_str());
            },
            FormatError::Zstd(x0) => {
                push_str(&mut out, "zstd error: ");
                push_str(&mut out, x0.as_str());
            },
            FormatError::PasswordRequired => {
                push_str(&mut out, "password required");
            },
            FormatError::IncorrectPassword => {
                push_str(&mut out, "incorrect password");
            },
            FormatError::EmptyArchive => {
                push_str(&mut out, "archive is empty");
            },
            FormatError::BombDetected { ratio, limit } => {
                push_str(&mut out, "zip bomb detected (ratio ");
                push_dec_u64(&mut out, *ratio as u64);
                push_str(&mut out, " > limit ");
                push_dec_u64(&mut out, *limit as u64);
                push_str(&mut out, ")");
            },
            FormatError::InvalidInput(x0) => {
                push_str(&mut out, "invalid input: ");
                push_str(&mut out, x0.as_str());
            },
        }
        string_from_chars(&out)
    }
}

/// The message of a `HardwareError`.
pub open spec fn hardware_error_text(e: HardwareError) -> Seq<char> {
    match e {
        HardwareError::Aead => "AEAD failure (wrong key or tampered)"@,
        HardwareError::InvalidSaltLen { expected, actual } => "invalid salt length (expected "@ + dec_nat(expected as nat) + ", got "@ + dec_nat(actual as nat) + ")"@,
        HardwareError::InvalidPrfOutput => "invalid PRF output length"@,
        HardwareError::InvalidFileKey => "invalid file key length"@,
        HardwareError::Hkdf(x0) => "HKDF expand error: "@ + x0@,
        HardwareError::NoDevice => "no FIDO2 device connected"@,
        HardwareError::UserCancelled => "user cancelled (no touch)"@,
        HardwareError::UvRequired => "user verification required (PIN/biometric)"@,
        HardwareError::CredentialNotFound => "credential not found on device"@,
        HardwareError::Backend(x0) => "FIDO2 backend error: "@ + x0@,
    }
}

impl HardwareError {
    /// The message shown for the error.
    pub fn message(&self) -> (res: String)
        ensures
            res@ == hardware_error_text(*self),
    {
        let mut out: Vec<char> = Vec::new();
        match self {
            HardwareError::Aead => {
                push_str(&mut out, "AEAD failure (wrong key or tampered)");
            },
            HardwareError::InvalidSaltLen { expected, actual } => {
                push_str(&mut out, "invalid salt length (expected ");
                push_dec_u64(&mut out, *expected as u64);
                push_str(&mut out, ", got ");
                push_dec_u64(&mut out, *actual as u64);
                push_str(&mut out, ")");
            },
            HardwareError::InvalidPrfOutput => {
                push_str(&mut out, "invalid PRF output length");
            },
            HardwareError::InvalidFileKey => {
                push_str(&mut out, "invalid file key length");
            },
            HardwareError::Hkdf(x0) => {
                push_str(&mut out, "HKDF expand error: ");
                push_str(&mut out, x0.as_str());
            },
            HardwareError::NoDevice => {
                push_str(&mut out, "no FIDO2 device connected");
            },
            HardwareError::UserCancelled => {
                push_str(&mut out, "user cancelled (no touch)");
            },
            HardwareError::UvRequired => {
                push_str(&mut out, "user verification required (PIN/biometric)");
            },
            HardwareError::CredentialNotFound => {
                push_str(&mut out, "credential not found on device");
            },
            HardwareError::Backend(x0) => {
                push_str(&mut out, "FIDO2 backend error: ");
                push_str(&mut out, x0.as_str());
            },
        }
        string_from_chars(&out)
    }
}

/// The message of a `IdentityError`.
pub open spec fn identity_error_text(e: IdentityError) -> Seq<char> {
    match e {
        IdentityError::InvalidX25519PkLen(x0) => "invalid X25519 public key length (expected 32, got "@ + dec_nat(x0 as nat) + ")"@,
        IdentityError::InvalidX25519SkLen(x0) => "invalid X25519 private key length (expected 32, got "@ + dec_nat(x0 as nat) + ")"@,
        IdentityError::InvalidEphemeralKey => "invalid ephemeral X25519 public key"@,
        IdentityError::InvalidMlkemPkLen => "invalid ML-KEM-768 public key length"@,
        IdentityError::InvalidMlkemCtLen => "invalid ML-KEM-768 ciphertext length"@,
        IdentityError::InvalidMlkemSk => "invalid ML-KEM-768 private key"@,
        IdentityError::RecipientMismatch => "recipient mismatch (pubkey hash does not match identity)"@,
        IdentityError::MlkemDecapFailed => "ML-KEM decapsulation failure"@,
        IdentityError::Aead => "AEAD failure (tampered or wrong identity)"@,
        IdentityError::InvalidFileKey => "invalid file key length"@,
        IdentityError::Hkdf(x0) => "HKDF expand error: "@ + x0@,
        IdentityError::Hex(x0) => "hex decode error: "@ + x0@,
    }
}

impl IdentityError {
    /// The message shown for the error.
    pub fn message(&self) -> (res: String)
        ensures
            res@ == identity_error_text(*self),
    {
        let mut out: Vec<char> = Vec::new();
        match self {
            IdentityError::InvalidX25519PkLen(x0) => {
                push_str(&mut out, "invalid X25519 public key length (expected 32, got ");
                push_dec_u64(&mut out, *x0 as u64);
                push_str(&mut out, ")");
            },
            IdentityError::InvalidX25519SkLen(x0) => {
                push_str(&mut out, "invalid X25519 private key length (expected 32, got ");
                push_dec_u64(&mut out, *x0 as u64);
                push_str(&mut out, ")");
            },
            IdentityError::InvalidEphemeralKey => {
                push_str(&mut out, "invalid ephemeral X25519 public key");
            },
            IdentityError::InvalidMlkemPkLen => {
                push_str(&mut out, "invalid ML-KEM-768 public key length");
            },
            IdentityError::InvalidMlkemCtLen => {
                push_str(&mut out, "invalid ML-KEM-768 ciphertext length");
            },
            IdentityError::InvalidMlkemSk => {
                push_str(&mut out, "invalid ML-KEM-768 private key");
            },
            IdentityError::RecipientMismatch => {
                push_str(&mut out, "recipient mismatch (pubkey hash does not match identity)");
            },
            IdentityError::MlkemDecapFailed => {
                push_str(&mut out, "ML-KEM decapsulation failure");
            },
            IdentityError::Aead => {
                push_str(&mut out, "AEAD failure (tampered or wrong identity)");
            },
            IdentityError::InvalidFileKey => {
                push_str(&mut out, "invalid file key length");
            },
            IdentityError::Hkdf(x0) => {
                push_str(&mut out, "HKDF expand error: ");
                push_str(&mut out, x0.as_str());
            },
            IdentityError::Hex(x0) => {
                push_str(&mut out, "hex decode error: ");
                push_str(&mut out, x0.as_str());
            },
        }
        string_from_chars(&out)
    }
}

/// The message of a `PaperError`.
pub open spec fn paper_error_text(e: PaperError) -> Seq<char> {
    match e {
        PaperError::InvalidMnemonic(x0) => "invalid mnemonic: "@ + x0@,
        PaperError::InvalidWordCount(x0) => "unsupported word count: "@ + dec_nat(x0 as nat) + " (allowed: 12, 15, 18, 21, 24)"@,
        PaperError::UnsupportedLanguage(x0) => "unsupported language: "@ + x0@,
        PaperError::Aead => "AEAD failure (wrong words or tampered)"@,
        PaperError::InvalidSalt => "invalid salt length"@,
        PaperError::InvalidNonce => "invalid nonce length"@,
        PaperError::InvalidFileKey => "invalid file key length"@,
        PaperError::Hkdf(x0) => "HKDF expand error: "@ + x0@,
    }
}

impl PaperError {
    /// The message shown for the error.
    pub fn message(&self) -> (res: String)
        ensures
            res@ == paper_error_text(*self),
    {
        let mut out: Vec<char> = Vec::new();
        match self {
            PaperError::InvalidMnemonic(x0) => {
                push_str(&mut out, "invalid mnemonic: ");
                push_str(&mut out, x0.as_str());
            },
            PaperError::InvalidWordCount(x0) => {
                push_str(&mut out, "unsupported word count: ");
                push_dec_u64(&mut out, *x0 as u64);
                push_str(&mut out, " (allowed: 12, 15, 18, 21, 24)");
            },
            PaperError::UnsupportedLanguage(x0) => {
                push_str(&mut out, "unsupported language: ");
                push_str(&mut out, x0.as_str());
            },
            PaperError::Aead => {
                push_str(&mut out, "AEAD failure (wrong words or tampered)");
            },
            PaperError::InvalidSalt => {
                push_str(&mut out, "invalid salt length");
            },
            PaperError::InvalidNonce => {
                push_str(&mut out, "invalid nonce length");
            },
            PaperError::InvalidFileKey => {
                push_str(&mut out, "invalid file key length");
            },
            PaperError::Hkdf(x0) => {
                push_str(&mut out, "HKDF expand error: ");
                push_str(&mut out, x0.as_str());
            },
        }
        string_from_chars(&out)
    }
}

/// The message of a `ShamirError`.
pub open spec fn shamir_error_text(e: ShamirError) -> Seq<char> {
    match e {
        ShamirError::InvalidThreshold { m, n } => "invalid threshold: M="@ + dec_nat(m as nat) + ", N="@ + dec_nat(n as nat) + " (need 2 ≤ M ≤ N ≤ 255)"@,
        ShamirError::NotEnoughShares { got, need } => "not enough shares: have "@ + dec_nat(got as nat) + ", need at least "@ + dec_nat(need as nat) + ")"@,
        ShamirError::InvalidShare(x0) => "invalid share encoding: "@ + x0@,
        ShamirError::InconsistentShares => "inconsistent shares (different secret? wrong set?)"@,
        ShamirError::RecoveryFailed(x0) => "recovery failed: "@ + x0@,
        ShamirError::Hex(x0) => "hex decode: "@ + x0@,
    }
}

impl ShamirError {
    /// The message shown for the error.
    pub fn message(&self) -> (res: String)
        ensures
            res@ == shamir_error_text(*self),
    {
        let mut out: Vec<char> = Vec::new();
        match self {
            ShamirError::InvalidThreshold { m, n } => {
                push_str(&mut out, "invalid threshold: M=");
                push_dec_u64(&mut out, *m as u64);
                push_str(&mut out, ", N=");
                push_dec_u64(&mut out, *n as u64);
                push_str(&mut out, " (need 2 ≤ M ≤ N ≤ 255)");
            },
            ShamirError::NotEnoughShares { got, need } => {
                push_str(&mut out, "not enough shares: have ");
                push_dec_u64(&mut out, *got as u64);
                push_str(&mut out, ", need at least ");
                push_dec_u64(&mut out, *need as u64);
                push_str(&mut out, ")");
            },
            ShamirError::InvalidShare(x0) => {
                push_str(&mut out, "invalid share encoding: ");
                push_str(&mut out, x0.as_str());
            },
            ShamirError::InconsistentShares => {
                push_str(&mut out, "inconsistent shares (different secret? wrong set?)");
            },
            ShamirError::RecoveryFailed(x0) => {
                push_str(&mut out, "recovery failed: ");
                push_str(&mut out, x0.as_str());
            },
            ShamirError::Hex(x0) => {
                push_str(&mut out, "hex decode: ");
                push_str(&mut out, x0.as_str());
            },
        }
        string_from_chars(&out)
    }
}

/// The message of a `SfxError`.
pub open spec fn sfx_error_text(e: SfxError) -> Seq<char> {
    match e {
        SfxError::NotSfx => "file is not a qsafe SFX (missing QSAFESFX footer)"@,
        SfxError::InvalidFooter { payload, file } => "invalid SFX footer (payload size "@ + dec_nat(payload as nat) + " exceeds file size "@ + dec_nat(file as nat) + ")"@,
        SfxError::Io(x0) => "io: "@ + x0@,
    }
}

impl SfxError {
    /// The message shown for the error.
    pub fn message(&self) -> (res: String)
        ensures
            res@ == sfx_error_text(*self),
    {
        let mut out: Vec<char> = Vec::new();
        match self {
            SfxError::NotSfx => {
                push_str(&mut out, "file is not a qsafe SFX (missing QSAFESFX footer)");
            },
            SfxError::InvalidFooter { payload, file } => {
                push_str(&mut out, "invalid SFX footer (payload size ");
                push_dec_u64(&mut out, *payload as u64);
                push_str(&mut out, " exceeds file size ");
                push_dec_u64(&mut out, *file as u64);
                push_str(&mut out, ")");
            },
            SfxError::Io(x0) => {
                push_str(&mut out, "io: ");
                push_str(&mut out, x0.as_str());
            },
        }
        string_from_chars(&out)
    }
}

} // verus!
