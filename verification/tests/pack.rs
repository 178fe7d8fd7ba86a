use qsafe::cli::CompressArg;
use qsafe::envelope::{random_payload_nonce, random_stream_base_nonce, FileKey};
use qsafe::error::CoreError;
use qsafe::format::{CompressionAlgo, Recipient, TimelockRecipient, FileHeader, CipherSuite};
use qsafe::integrity::blake3_hash;
use qsafe::pack::{build_header, choose_packed, compress_for_pack, open_payload, seal_payload};
use qsafe::stream::{stream_base_nonce, stream_chunk_layout, stream_payload_nonce};

fn some_recipient() -> Recipient {
    Recipient::Timelock(TimelockRecipient {
        drand_chain_hash: "abc".to_string(),
        round: 7,
        unlock_at_unix: 0,
        tlock_envelope: vec![1, 2, 3],
    })
}

fn header_for(algo: CompressionAlgo, nonce: &[u8], size: u64) -> FileHeader {
    build_header(algo, vec![some_recipient()], nonce.to_vec(), size, 1_700_000_000, Some("doc".to_string())).unwrap()
}

#[test]
fn seal_open_roundtrip_stored() {
    let key = FileKey::random();
    let nonce = random_payload_nonce();
    let plaintext = b"hello qsafe".to_vec();
    let sealed = seal_payload(plaintext.clone(), CompressArg::Uncompressed, 1, &key, &nonce).unwrap();
    assert_eq!(sealed.algo, CompressionAlgo::Uncompressed);
    assert_eq!(sealed.original_size, plaintext.len() as u64);
    assert_eq!(sealed.original_hash, blake3_hash(&plaintext));
    assert_ne!(sealed.ciphertext, plaintext);
    let header = header_for(sealed.algo, &nonce, sealed.original_size);
    let back = open_payload(&header, &sealed.ciphertext, &sealed.original_hash, &key).unwrap();
    assert_eq!(back, plaintext);
}

#[test]
fn seal_open_roundtrip_zstd() {
    let key = FileKey::random();
    let nonce = random_payload_nonce();
    let plaintext = b"repetitive text ".repeat(4096);
    let sealed = seal_payload(plaintext.clone(), CompressArg::Auto, 2, &key, &nonce).unwrap();
    assert_eq!(sealed.algo, CompressionAlgo::Zstd);
    assert!(sealed.ciphertext.len() < plaintext.len());
    let header = header_for(sealed.algo, &nonce, sealed.original_size);
    let back = open_payload(&header, &sealed.ciphertext, &sealed.original_hash, &key).unwrap();
    assert_eq!(back, plaintext);
}

#[test]
fn auto_small_input_stays_stored() {
    let data = vec![9u8; 100];
    let (out, algo) = compress_for_pack(data.clone(), CompressArg::Auto, 1).unwrap();
    assert_eq!(algo, CompressionAlgo::Uncompressed);
    assert_eq!(out, data);
}

#[test]
fn auto_incompressible_input_stays_stored() {
    let data: Vec<u8> = (0..4096u32).map(|i| (i.wrapping_mul(2654435761) >> 13) as u8).collect();
    let data = {
        let mut d = data;
        d.extend(random_payload_nonce());
        d
    };
    let (out, algo) = compress_for_pack(data.clone(), CompressArg::Auto, 1).unwrap();
    if algo == CompressionAlgo::Uncompressed {
        assert_eq!(out, data);
    } else {
        assert!(out.len() < data.len());
    }
}

#[test]
fn open_with_wrong_key_fails() {
    let key = FileKey::random();
    let other = FileKey::random();
    let nonce = random_payload_nonce();
    let sealed = seal_payload(b"secret".to_vec(), CompressArg::Uncompressed, 1, &key, &nonce).unwrap();
    let header = header_for(sealed.algo, &nonce, sealed.original_size);
    assert!(open_payload(&header, &sealed.ciphertext, &sealed.original_hash, &other).is_err());
}

#[test]
fn open_with_wrong_hash_is_integrity_failure() {
    let key = FileKey::random();
    let nonce = random_payload_nonce();
    let sealed = seal_payload(b"secret".to_vec(), CompressArg::Uncompressed, 1, &key, &nonce).unwrap();
    let header = header_for(sealed.algo, &nonce, sealed.original_size);
    let mut bad = sealed.original_hash;
    bad[0] ^= 1;
    assert!(matches!(open_payload(&header, &sealed.ciphertext, &bad, &key), Err(CoreError::IntegrityFailed)));
}

#[test]
fn open_bzip3_is_unsupported() {
    let key = FileKey::random();
    let nonce = random_payload_nonce();
    let sealed = seal_payload(b"secret".to_vec(), CompressArg::Uncompressed, 1, &key, &nonce).unwrap();
    let header = header_for(CompressionAlgo::Bzip3, &nonce, sealed.original_size);
    assert!(matches!(
        open_payload(&header, &sealed.ciphertext, &sealed.original_hash, &key),
        Err(CoreError::UnsupportedCompression(CompressionAlgo::Bzip3))
    ));
}

#[test]
fn build_header_fields() {
    let nonce = random_payload_nonce();
    let h = header_for(CompressionAlgo::Zstd, &nonce, 42);
    assert_eq!(h.version, qsafe::format::VERSION);
    assert_eq!(h.suite, CipherSuite::V1Xchacha20Blake3);
    assert_eq!(h.compression, CompressionAlgo::Zstd);
    assert_eq!(h.payload_nonce, nonce);
    assert_eq!(h.original_size, 42);
    assert_eq!(h.created_at_unix, 1_700_000_000);
    assert_eq!(h.label.as_deref(), Some("doc"));
    assert_eq!(h.recipients.len(), 1);
    assert!(h.chunks.is_none());
    assert!(h.split.is_none());
}

#[test]
fn build_header_without_recipients_fails() {
    assert!(build_header(CompressionAlgo::Zstd, vec![], vec![0u8; 24], 1, 0, None).is_err());
}

#[test]
fn chunk_layout_values() {
    let c = stream_chunk_layout(0).unwrap();
    assert_eq!((c.chunk_size, c.num_chunks, c.last_chunk_size), (4194304, 1, 0));
    let c = stream_chunk_layout(4194304).unwrap();
    assert_eq!((c.num_chunks, c.last_chunk_size), (1, 4194304));
    let c = stream_chunk_layout(4194305).unwrap();
    assert_eq!((c.num_chunks, c.last_chunk_size), (2, 1));
    let c = stream_chunk_layout(3 * 4194304 + 10).unwrap();
    assert_eq!((c.num_chunks, c.last_chunk_size), (4, 10));
    assert!(matches!(stream_chunk_layout(u64::MAX), Err(CoreError::HeaderEncode(_))));
}

#[test]
fn stream_nonce_roundtrip() {
    let base = random_stream_base_nonce();
    let payload_nonce = stream_payload_nonce(&base);
    assert_eq!(payload_nonce.len(), 24);
    assert_eq!(&payload_nonce[20..], &[0, 0, 0, 0]);
    assert_eq!(stream_base_nonce(&payload_nonce).unwrap(), base);
    assert!(stream_base_nonce(&payload_nonce[..19]).is_err());
}

#[test]
fn compression_choice_follows_the_request() {
    let data = b"compressible text ".repeat(200);
    let (out, algo) = compress_for_pack(data.clone(), CompressArg::Zstd, 1).unwrap();
    assert_eq!(algo, CompressionAlgo::Zstd);
    assert!(out.len() < data.len());
    let (out, algo) = compress_for_pack(data.clone(), CompressArg::Auto, 1).unwrap();
    assert_eq!(algo, CompressionAlgo::Zstd);
    assert!(out.len() < data.len());
    let (out, algo) = compress_for_pack(data.clone(), CompressArg::Uncompressed, 1).unwrap();
    assert_eq!(algo, CompressionAlgo::Uncompressed);
    assert_eq!(out, data);
    let tiny = b"ab".to_vec();
    let (_, algo) = compress_for_pack(tiny, CompressArg::Zstd, 1).unwrap();
    assert_eq!(algo, CompressionAlgo::Zstd);
}

#[test]
fn choose_packed_decides_from_the_frame() {
    let p = vec![1u8; 300];
    let (c, a) = choose_packed(p.clone(), CompressArg::Auto, Ok(vec![7u8; 300])).unwrap();
    assert_eq!((c, a), (p.clone(), CompressionAlgo::Uncompressed));
    let (c, a) = choose_packed(p.clone(), CompressArg::Auto, Ok(vec![7u8; 299])).unwrap();
    assert_eq!((c, a), (vec![7u8; 299], CompressionAlgo::Zstd));
    let (c, a) = choose_packed(p.clone(), CompressArg::Zstd, Ok(vec![7u8; 400])).unwrap();
    assert_eq!((c, a), (vec![7u8; 400], CompressionAlgo::Zstd));
    assert!(matches!(
        choose_packed(p, CompressArg::Zstd, Err(CoreError::Compression("x".to_string()))),
        Err(CoreError::Compression(m)) if m == "x"
    ));
}
