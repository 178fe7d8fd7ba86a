//! The qsafe v2 file header: cipher suite, compression, recipients.
//!
//! A file is encrypted once with a random file key; each recipient wraps that
//! key in its own way, and any one recipient recovers it.
use vstd::prelude::*;

use crate::error::CoreError;

verus! {

/// Magic bytes at the start of every qsafe file: "QSAFE001".
pub const MAGIC: [u8; 8] = [0x51, 0x53, 0x41, 0x46, 0x45, 0x30, 0x30, 0x31];

/// Current format version.
pub const VERSION: u16 = 2;

/// Length of the payload nonce of the `V1Xchacha20Blake3` suite.
pub const PAYLOAD_NONCE_LEN: usize = 24;

/// Named cipher suite.
#[derive(Debug, Clone, Copy, PartialEq, Eq, Structural)]
pub enum CipherSuite {
    /// XChaCha20-Poly1305 + BLAKE3 + Argon2id.
    V1Xchacha20Blake3,
}

/// Compression applied to the payload before encryption.
#[derive(Debug, Clone, Copy, PartialEq, Eq, Structural)]
pub enum CompressionAlgo {
    Uncompressed,
    Zstd,
    Bzip3,
}

/// Integrity hash of the original data.
#[derive(Debug, Clone, Copy, PartialEq, Eq, Structural)]
pub enum IntegrityAlgo {
    Blake3,
}

/// One way of recovering the file key. Any single recipient suffices.
#[derive(Debug, Clone)]
pub enum Recipient {
    Password(PasswordRecipient),
    Fido2(Fido2Recipient),
    Bip39(Bip39Recipient),
    Timelock(TimelockRecipient),
    Pubkey(PubkeyRecipient),
    ShamirCommitment(ShamirCommitmentRecipient),
}

/// Argon2id + XChaCha20-Poly1305 password envelope.
#[derive(Debug, Clone)]
pub struct PasswordRecipient {
    pub salt: Vec<u8>,
    pub argon2_m_kib: u32,
    pub argon2_t: u32,
    pub argon2_p: u32,
    pub nonce: Vec<u8>,
    pub encrypted_file_key: Vec<u8>,
}

/// FIDO2 hmac-secret envelope.
#[derive(Debug, Clone)]
pub struct Fido2Recipient {
    pub credential_id: Vec<u8>,
    pub rp_id: String,
    pub hmac_salt: Vec<u8>,
    pub user_verification_required: bool,
    pub nonce: Vec<u8>,
    pub encrypted_file_key: Vec<u8>,
    pub label: Option<String>,
}

/// BIP39 paper-backup envelope.
#[derive(Debug, Clone)]
pub struct Bip39Recipient {
    pub salt: Vec<u8>,
    pub nonce: Vec<u8>,
    pub encrypted_file_key: Vec<u8>,
    pub word_count: u8,
    pub language: String,
    pub label: Option<String>,
}

/// Time-lock envelope (drand tlock).
#[derive(Debug, Clone)]
pub struct TimelockRecipient {
    pub drand_chain_hash: String,
    pub round: u64,
    pub unlock_at_unix: i64,
    pub tlock_envelope: Vec<u8>,
}

/// X25519 + ML-KEM-768 public-key envelope.
#[derive(Debug, Clone)]
pub struct PubkeyRecipient {
    pub recipient_x25519_pk: Vec<u8>,
    pub ephemeral_x25519_pk: Vec<u8>,
    pub mlkem768_ct: Vec<u8>,
    pub recipient_mlkem768_pk_hash: Vec<u8>,
    pub nonce: Vec<u8>,
    pub encrypted_file_key: Vec<u8>,
}

/// Record that an M-of-N Shamir backup of the file key exists.
#[derive(Debug, Clone)]
pub struct ShamirCommitmentRecipient {
    pub threshold: u8,
    pub total_shares: u8,
    pub set_id: String,
    pub share_id_hashes: Vec<String>,
}

/// Streaming chunk layout.
#[derive(Debug, Clone, Copy, PartialEq, Eq, Structural)]
pub struct ChunkInfo {
    pub chunk_size: u32,
    pub num_chunks: u32,
    pub last_chunk_size: u32,
}

/// Split-file layout.
#[derive(Debug, Clone, PartialEq, Eq)]
pub struct SplitInfo {
    pub series_id: String,
    pub part_index: u32,
    pub total_parts: u32,
    pub part_size: u64,
}

/// The file header.
#[derive(Debug, Clone)]
pub struct FileHeader {
    pub version: u16,
    pub suite: CipherSuite,
    pub compression: CompressionAlgo,
    pub integrity: IntegrityAlgo,
    pub recipients: Vec<Recipient>,
    pub payload_nonce: Vec<u8>,
    pub original_size: u64,
    pub created_at_unix: i64,
    pub label: Option<String>,
    pub split: Option<SplitInfo>,
    pub chunks: Option<ChunkInfo>,
}

/// The payload nonce length that a suite requires.
pub open spec fn suite_nonce_len(suite: CipherSuite) -> nat {
    match suite {
        CipherSuite::V1Xchacha20Blake3 => 24,
    }
}

/// What `FileHeader::validate` decides.
pub open spec fn header_check(h: &FileHeader) -> Result<(), CoreError> {
    if h.recipients@.len() == 0 {
        Err(CoreError::EmptyRecipients)
    } else if h.payload_nonce@.len() != suite_nonce_len(h.suite) {
        Err(CoreError::InvalidHeaderField("payload_nonce length"))
    } else {
        Ok(())
    }
}

impl FileHeader {
    /// A header of the current version with no recipients, an empty nonce and
    /// no metadata.
    pub fn new(suite: CipherSuite, compression: CompressionAlgo) -> (h: FileHeader)
        ensures
            h.version == VERSION,
            h.suite == suite,
            h.compression == compression,
            h.integrity == IntegrityAlgo::Blake3,
            h.recipients@.len() == 0,
            h.payload_nonce@.len() == 0,
            h.original_size == 0,
            h.created_at_unix == 0,
            h.label is None,
            h.split is None,
            h.chunks is None,
    {
        FileHeader {
            version: VERSION,
            suite,
            compression,
            integrity: IntegrityAlgo::Blake3,
            recipients: Vec::new(),
            payload_nonce: Vec::new(),
            original_size: 0,
            created_at_unix: 0,
            label: None,
            split: None,
            chunks: None,
        }
    }

    /// Header consistency: at least one recipient, and a payload nonce of the
    /// length that the suite requires.
    pub fn validate(&self) -> (res: Result<(), CoreError>)
        ensures
            res == header_check(self),
    {
        if self.recipients.len() == 0 {
            return Err(CoreError::EmptyRecipients);
        }
        let expected_nonce_len: usize = match self.suite {
            CipherSuite::V1Xchacha20Blake3 => 24,
        };
        if self.payload_nonce.len() != expected_nonce_len {
            return Err(CoreError::InvalidHeaderField("payload_nonce length"));
        }
        Ok(())
    }

    /// Rejects a decoded header whose version is newer than this library.
    pub fn check_version(&self) -> (res: Result<(), CoreError>)
        ensures
            res is Ok <==> self.version <= VERSION,
            res is Err ==> res == Err::<(), CoreError>(CoreError::UnsupportedVersion(self.version)),
    {
        if self.version > VERSION {
            return Err(CoreError::UnsupportedVersion(self.version));
        }
        Ok(())
    }
}

} // verus!
