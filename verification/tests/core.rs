use qsafe::compress::{
    compute_decompress_limit, make_compressor, AnyCompressor, Compressor, NoneCompressor, ZstdCompressor,
    ABSOLUTE_MAX_OUTPUT,
};
use qsafe::envelope::{
    decrypt_chunk, decrypt_payload, encrypt_chunk, encrypt_payload, random_payload_nonce, random_stream_base_nonce,
    FileKey,
};
use qsafe::error::CoreError;
use qsafe::format::{CipherSuite, CompressionAlgo, FileHeader, IntegrityAlgo, PasswordRecipient, Recipient, MAGIC};
use qsafe::integrity::{blake3_hash, verify_blake3};
use qsafe::io::{read_header_frame, read_packed_file, write_packed_file};
use qsafe::stream::{
    read_stream_header, require_chunked, stream_decrypt, stream_decrypt_with_hash, stream_encrypt, stream_encrypt_with_hash,
    header_frame_len, record_len, stream_pack_finish, stream_pack_step, stream_unpack_finish, stream_unpack_step,
    write_stream_header, StreamPacker,
    StreamUnpacker,
};

#[test]
fn limit_computation() {
    let l = compute_decompress_limit(1000, Some(5000));
    assert_eq!(l, 5064);

    let l = compute_decompress_limit(100, None);
    assert_eq!(l, 100_000);

    let l = compute_decompress_limit(usize::MAX, None);
    assert_eq!(l, ABSOLUTE_MAX_OUTPUT);
}

#[test]
fn none_compressor_size_mismatch_rejected() {
    let c = NoneCompressor;
    let data = vec![1u8, 2, 3];
    assert!(c.decompress(&data, Some(99)).is_err());
    assert!(c.decompress(&data, Some(3)).is_ok());
}

#[test]
fn zstd_roundtrip_with_size_check() {
    let c = ZstdCompressor::new(3);
    let original = b"hello world".repeat(100);
    let compressed = c.compress(&original).unwrap();
    let decompressed = c.decompress(&compressed, Some(original.len())).unwrap();
    assert_eq!(decompressed, original);
}

#[test]
fn zstd_wrong_expected_size_rejected() {
    let c = ZstdCompressor::new(3);
    let original = b"hello".repeat(100);
    let compressed = c.compress(&original).unwrap();
    let result = c.decompress(&compressed, Some(10));
    assert!(result.is_err());
}

#[test]
fn zstd_bomb_reports_limit() {
    let c = ZstdCompressor::new(3);
    let original = vec![0u8; 5000];
    let compressed = c.compress(&original).unwrap();
    match c.decompress(&compressed, Some(100)) {
        Err(CoreError::CompressionBomb { got, limit }) => {
            assert_eq!(limit, 164);
            assert_eq!(got, 165);
        }
        other => panic!("unexpected {:?}", other),
    }
}

#[test]
fn zstd_size_mismatch_below_limit() {
    let c = ZstdCompressor::new(3);
    let original = vec![7u8; 50];
    let compressed = c.compress(&original).unwrap();
    match c.decompress(&compressed, Some(60)) {
        Err(CoreError::SizeMismatch { expected, got }) => {
            assert_eq!(expected, 60);
            assert_eq!(got, 50);
        }
        other => panic!("unexpected {:?}", other),
    }
}

#[test]
fn zstd_garbage_is_compression_error() {
    let c = ZstdCompressor::new(3).with_workers(2);
    assert!(matches!(c.decompress(b"not zstd at all", None), Err(CoreError::Compression(_))));
}

#[test]
fn zstd_without_expected_size() {
    let c = ZstdCompressor::new(3);
    let original = b"abc".repeat(300);
    let compressed = c.compress(&original).unwrap();
    assert_eq!(c.decompress(&compressed, None).unwrap(), original);
}

#[test]
fn make_compressor_choices() {
    match make_compressor(CompressionAlgo::Uncompressed).unwrap() {
        AnyCompressor::Stored(_) => {}
        _ => panic!("expected stored"),
    }
    match make_compressor(CompressionAlgo::Zstd).unwrap() {
        AnyCompressor::Zstd(z) => assert_eq!(z.level, 3),
        _ => panic!("expected zstd"),
    }
    assert!(matches!(
        make_compressor(CompressionAlgo::Bzip3),
        Err(CoreError::UnsupportedCompression(CompressionAlgo::Bzip3))
    ));
    let stored = make_compressor(CompressionAlgo::Uncompressed).unwrap();
    assert_eq!(stored.algo(), CompressionAlgo::Uncompressed);
    assert_eq!(stored.compress(b"xyz").unwrap(), b"xyz".to_vec());
}

#[test]
fn payload_roundtrip() {
    let k = FileKey::random();
    let nonce = random_payload_nonce();
    let plaintext = b"hello qsafe multi-recipient envelope";
    let ct = encrypt_payload(&k, &nonce, plaintext).unwrap();
    let pt = decrypt_payload(&k, &nonce, &ct).unwrap();
    assert_eq!(pt, plaintext);
}

#[test]
fn envelope_tampered_ciphertext_fails() {
    let k = FileKey::random();
    let nonce = random_payload_nonce();
    let mut ct = encrypt_payload(&k, &nonce, b"data").unwrap();
    ct[0] ^= 1;
    assert!(decrypt_payload(&k, &nonce, &ct).is_err());
}

#[test]
fn wrong_key_fails() {
    let k1 = FileKey::random();
    let k2 = FileKey::random();
    let nonce = random_payload_nonce();
    let ct = encrypt_payload(&k1, &nonce, b"data").unwrap();
    assert!(decrypt_payload(&k2, &nonce, &ct).is_err());
}

#[test]
fn wrong_nonce_fails() {
    let k = FileKey::random();
    let nonce1 = random_payload_nonce();
    let nonce2 = random_payload_nonce();
    let ct = encrypt_payload(&k, &nonce1, b"data").unwrap();
    assert!(decrypt_payload(&k, &nonce2, &ct).is_err());
}

#[test]
fn payload_nonce_length_checked() {
    let k = FileKey::from_bytes([9u8; 32]);
    assert!(matches!(encrypt_payload(&k, &[0u8; 12], b"x"), Err(CoreError::HeaderDecode(_))));
    assert!(matches!(decrypt_payload(&k, &[0u8; 25], b"x"), Err(CoreError::HeaderDecode(_))));
    assert_eq!(k.as_bytes(), &[9u8; 32]);
    let ct = encrypt_payload(&k, &[1u8; 24], b"abc").unwrap();
    assert_eq!(ct.len(), 3 + 16);
    assert_ne!(&ct[..3], b"abc");
}

#[test]
fn stream_chunk_roundtrip() {
    let k = FileKey::random();
    let base = random_stream_base_nonce();
    let chunks = [b"chunk0".to_vec(), b"chunk1".to_vec(), b"chunk2".to_vec()];

    let mut cts = Vec::new();
    for (i, c) in chunks.iter().enumerate() {
        cts.push(encrypt_chunk(&k, &base, i as u32, c).unwrap());
    }

    for (i, ct) in cts.iter().enumerate() {
        let pt = decrypt_chunk(&k, &base, i as u32, ct).unwrap();
        assert_eq!(pt, chunks[i]);
    }
}

#[test]
fn stream_chunk_wrong_idx_fails() {
    let k = FileKey::random();
    let base = random_stream_base_nonce();
    let ct = encrypt_chunk(&k, &base, 0, b"data").unwrap();
    assert!(decrypt_chunk(&k, &base, 1, &ct).is_err());
}

#[test]
fn stream_chunk_reorder_detected() {
    let k = FileKey::random();
    let base = random_stream_base_nonce();
    let ct0 = encrypt_chunk(&k, &base, 0, b"first").unwrap();
    let ct1 = encrypt_chunk(&k, &base, 1, b"second").unwrap();

    assert!(decrypt_chunk(&k, &base, 0, &ct1).is_err());
    assert!(decrypt_chunk(&k, &base, 1, &ct0).is_err());
}

#[test]
fn blake3_known_value_and_check() {
    let h = blake3_hash(b"");
    assert_eq!(h[0], 0xaf);
    assert_eq!(h[1], 0x13);
    assert!(verify_blake3(b"", &h).is_ok());
    assert!(matches!(verify_blake3(b"x", &h), Err(CoreError::IntegrityFailed)));
}

fn sample_header() -> FileHeader {
    let mut h = FileHeader::new(CipherSuite::V1Xchacha20Blake3, CompressionAlgo::Zstd);
    h.original_size = 42;
    h.payload_nonce = vec![0; 24];
    h.integrity = IntegrityAlgo::Blake3;
    h.recipients.push(Recipient::Password(PasswordRecipient {
        salt: vec![1; 32],
        argon2_m_kib: 1024,
        argon2_t: 1,
        argon2_p: 1,
        nonce: vec![2; 24],
        encrypted_file_key: vec![3; 48],
    }));
    h
}

const SAMPLE_HEADER_BYTES: &[u8] = b"\xa1cbor-header-bytes";

#[test]
fn roundtrip_file() {
    let header = sample_header();
    let payload = vec![0u8, 1, 2, 3, 4];
    let hash = [0xAB; 32];

    let buf = write_packed_file(&header, SAMPLE_HEADER_BYTES, &payload, &hash).unwrap();

    let (header_bytes, body) = read_header_frame(&buf).unwrap();
    assert_eq!(header_bytes, SAMPLE_HEADER_BYTES);
    let pf = read_packed_file(header.clone(), &buf, body).unwrap();
    assert_eq!(pf.payload, payload);
    assert_eq!(pf.original_hash, hash);
    assert_eq!(pf.header.original_size, 42);
    assert_eq!(pf.header.recipients.len(), 1);
}

#[test]
fn packed_layout_is_exact() {
    let header = sample_header();
    let buf = write_packed_file(&header, b"HB", b"PAY", &[7u8; 32]).unwrap();
    let mut expected = MAGIC.to_vec();
    expected.extend_from_slice(&2u32.to_le_bytes());
    expected.extend_from_slice(b"HB");
    expected.extend_from_slice(&3u64.to_le_bytes());
    expected.extend_from_slice(b"PAY");
    expected.extend_from_slice(&[7u8; 32]);
    assert_eq!(buf, expected);
}

#[test]
fn invalid_magic_rejected() {
    let bad = vec![0xFFu8; 100];
    let err = read_header_frame(bad.as_slice()).unwrap_err();
    assert!(matches!(err, CoreError::InvalidMagic));
}

#[test]
fn io_trailing_garbage_rejected() {
    let header = sample_header();
    let payload = vec![0u8; 10];
    let hash = [0xCD; 32];

    let mut buf = write_packed_file(&header, SAMPLE_HEADER_BYTES, &payload, &hash).unwrap();
    buf.extend_from_slice(b"GARBAGE");

    let (_, body) = read_header_frame(&buf).unwrap();
    let err = read_packed_file(header, &buf, body).unwrap_err();
    assert!(matches!(err, CoreError::TrailingBytes));
}

#[test]
fn truncated_file_is_io_error() {
    let header = sample_header();
    let buf = write_packed_file(&header, SAMPLE_HEADER_BYTES, b"payload", &[1u8; 32]).unwrap();
    let (_, body) = read_header_frame(&buf).unwrap();
    let short = &buf[..buf.len() - 1];
    assert!(matches!(read_packed_file(header, short, body), Err(CoreError::Io(_))));
    assert!(matches!(read_header_frame(&buf[..5]), Err(CoreError::Io(_))));
}

#[test]
fn newer_version_rejected() {
    let mut header = sample_header();
    let buf = write_packed_file(&header, SAMPLE_HEADER_BYTES, b"p", &[1u8; 32]).unwrap();
    let (_, body) = read_header_frame(&buf).unwrap();
    header.version = 3;
    assert!(matches!(read_packed_file(header, &buf, body), Err(CoreError::UnsupportedVersion(3))));
}

#[test]
fn empty_recipients_rejected() {
    let mut h = sample_header();
    h.recipients.clear();
    let err = write_packed_file(&h, SAMPLE_HEADER_BYTES, &[], &[0; 32]).unwrap_err();
    assert!(matches!(err, CoreError::EmptyRecipients));
}

#[test]
fn stream_pack_unpack_roundtrip_small() {
    let file_key = FileKey::random();
    let base_nonce = random_stream_base_nonce();

    let plaintext = b"hello stream world".repeat(100);
    let (ct_buf, n_chunks, last_size) = stream_encrypt(&plaintext, &file_key, &base_nonce).unwrap();

    assert_eq!(n_chunks, 1);
    assert_eq!(last_size as usize, plaintext.len());

    let (out, used) = stream_decrypt(&ct_buf, &file_key, &base_nonce, n_chunks).unwrap();
    assert_eq!(out, plaintext);
    assert_eq!(used, ct_buf.len());
}

#[test]
fn stream_pack_unpack_multi_chunks() {
    let file_key = FileKey::random();
    let base_nonce = random_stream_base_nonce();

    let plaintext: Vec<u8> = (0..10 * 1024 * 1024).map(|i| (i % 256) as u8).collect();

    let (ct_buf, n_chunks, last_size) = stream_encrypt(&plaintext, &file_key, &base_nonce).unwrap();

    assert_eq!(n_chunks, 3);
    assert_eq!(last_size as usize, 2 * 1024 * 1024);

    let (out, _) = stream_decrypt(&ct_buf, &file_key, &base_nonce, n_chunks).unwrap();
    assert_eq!(out, plaintext);
}

#[test]
fn stream_tampered_chunk_rejected() {
    let file_key = FileKey::random();
    let base_nonce = random_stream_base_nonce();

    let plaintext = vec![42u8; 5 * 1024 * 1024];
    let (mut ct_buf, n_chunks, _) = stream_encrypt(&plaintext, &file_key, &base_nonce).unwrap();

    let first_chunk_ct_len = u32::from_le_bytes(ct_buf[..4].try_into().unwrap()) as usize;
    let second_chunk_start = 4 + first_chunk_ct_len + 4;
    ct_buf[second_chunk_start + 100] ^= 1;

    let result = stream_decrypt(&ct_buf, &file_key, &base_nonce, n_chunks);
    assert!(result.is_err());
}

#[test]
fn stream_empty_input() {
    let file_key = FileKey::random();
    let base_nonce = random_stream_base_nonce();

    let (ct_buf, n_chunks, last_size) = stream_encrypt(&[], &file_key, &base_nonce).unwrap();
    assert_eq!(n_chunks, 1);
    assert_eq!(last_size, 0);

    let (out, _) = stream_decrypt(&ct_buf, &file_key, &base_nonce, n_chunks).unwrap();
    assert!(out.is_empty());
}

#[test]
fn stream_exact_chunk_multiple_has_no_empty_tail() {
    let file_key = FileKey::random();
    let base_nonce = random_stream_base_nonce();
    let plaintext = vec![1u8; 4 * 1024 * 1024];
    let (ct_buf, n_chunks, last_size) = stream_encrypt(&plaintext, &file_key, &base_nonce).unwrap();
    assert_eq!(n_chunks, 1);
    assert_eq!(last_size as usize, plaintext.len());
    assert_eq!(ct_buf.len(), 4 + plaintext.len() + 16);
}

#[test]
fn stream_truncated_and_oversized() {
    let file_key = FileKey::random();
    let base_nonce = random_stream_base_nonce();
    let (ct_buf, n, _) = stream_encrypt(b"abc", &file_key, &base_nonce).unwrap();
    assert!(matches!(stream_decrypt(&ct_buf[..ct_buf.len() - 1], &file_key, &base_nonce, n), Err(CoreError::Io(_))));
    assert!(matches!(stream_decrypt(&ct_buf, &file_key, &base_nonce, n + 1), Err(CoreError::IntegrityFailed)));
    let mut big = vec![0xFFu8; 4];
    big.extend_from_slice(&[0u8; 8]);
    assert!(matches!(stream_decrypt(&big, &file_key, &base_nonce, 1), Err(CoreError::HeaderDecode(_))));
}

#[test]
fn stream_header_frame_and_chunk_info() {
    let mut header = sample_header();
    assert!(matches!(require_chunked(&header), Err(CoreError::HeaderDecode(_))));
    header.chunks = Some(qsafe::format::ChunkInfo { chunk_size: 4194304, num_chunks: 2, last_chunk_size: 5 });
    let info = require_chunked(&header).unwrap();
    assert_eq!(info.num_chunks, 2);
    let frame = write_stream_header(&header, b"HDR").unwrap();
    let (hb, off) = read_stream_header(&frame).unwrap();
    assert_eq!(hb, b"HDR");
    assert_eq!(off, frame.len());
}

#[test]
fn stream_with_hash_roundtrip() {
    let file_key = FileKey::random();
    let base_nonce = random_stream_base_nonce();
    let plaintext = b"hashed stream".repeat(50);
    let (ct_buf, n_chunks, last_size, total, digest) =
        stream_encrypt_with_hash(&plaintext, &file_key, &base_nonce).unwrap();
    assert_eq!(n_chunks, 1);
    assert_eq!(last_size as usize, plaintext.len());
    assert_eq!(total, plaintext.len() as u64);
    assert_eq!(digest, blake3_hash(&plaintext));
    let (out, used, digest2) = stream_decrypt_with_hash(&ct_buf, &file_key, &base_nonce, n_chunks).unwrap();
    assert_eq!(out, plaintext);
    assert_eq!(used, ct_buf.len());
    assert_eq!(digest2, digest);
    let mut bad = ct_buf.clone();
    let last = bad.len() - 1;
    bad[last] ^= 1;
    assert!(matches!(
        stream_decrypt_with_hash(&bad, &file_key, &base_nonce, n_chunks),
        Err(CoreError::IntegrityFailed)
    ));
}

#[test]
fn stream_cut_short_at_a_record_boundary_is_refused() {
    let file_key = FileKey::random();
    let base_nonce = random_stream_base_nonce();
    let plaintext: Vec<u8> = (0..9 * 1024 * 1024).map(|i| (i % 251) as u8).collect();
    let (ct_buf, n, _) = stream_encrypt(&plaintext, &file_key, &base_nonce).unwrap();
    assert_eq!(n, 3);
    let first_len = u32::from_le_bytes(ct_buf[..4].try_into().unwrap()) as usize;
    let second_start = 4 + first_len;
    let second_len = u32::from_le_bytes(ct_buf[second_start..second_start + 4].try_into().unwrap()) as usize;
    let cut = &ct_buf[..second_start + 4 + second_len];
    assert!(matches!(stream_decrypt(cut, &file_key, &base_nonce, n - 1), Err(CoreError::IntegrityFailed)));
    assert!(matches!(stream_decrypt(&ct_buf, &file_key, &base_nonce, n - 1), Err(CoreError::IntegrityFailed)));
    assert_eq!(first_len, 4 * 1024 * 1024 + 16);
    assert_eq!(second_len, 4 * 1024 * 1024 + 16);
}

#[test]
fn stream_steps_match_whole_stream() {
    let key_bytes = *FileKey::random().as_bytes();
    let base_nonce = random_stream_base_nonce();
    let plaintext: Vec<u8> = (0..9 * 1024 * 1024).map(|i| (i % 253) as u8).collect();
    let (whole, n, _) = stream_encrypt(&plaintext, &FileKey::from_bytes(key_bytes), &base_nonce).unwrap();
    let mut packer = StreamPacker::new(FileKey::from_bytes(key_bytes), base_nonce, n);
    let mut body = Vec::new();
    for chunk in plaintext.chunks(4 * 1024 * 1024) {
        let (next, rec) = stream_pack_step(packer, chunk).unwrap();
        assert_eq!(rec.len(), chunk.len() + 20);
        body.extend_from_slice(&rec);
        packer = next;
    }
    assert_eq!(body, whole);
    assert!(matches!(stream_pack_finish(&packer, 1), Err(CoreError::SizeMismatch { expected: 1, .. })));
    let digest = stream_pack_finish(&packer, plaintext.len() as u64).unwrap();
    assert_eq!(digest, blake3_hash(&plaintext));
    match stream_pack_step(packer, b"extra") {
        Err(CoreError::HeaderEncode(m)) => assert_eq!(m, "too many chunks"),
        _ => panic!("expected too many chunks"),
    }
    body.extend_from_slice(&digest);

    let mut unpacker = StreamUnpacker::new(FileKey::from_bytes(key_bytes), base_nonce, n);
    let stored = body[body.len() - 32..].to_vec();
    match stream_unpack_finish(&unpacker, &stored) {
        Err(CoreError::HeaderDecode(m)) => assert_eq!(m, "missing chunks"),
        _ => panic!("expected missing chunks"),
    }
    let mut out = Vec::new();
    let mut pos = 0usize;
    let mut first_ct = Vec::new();
    for _ in 0..n {
        let len = record_len(&body[pos..pos + 4]).unwrap();
        let ct = &body[pos + 4..pos + 4 + len];
        if first_ct.is_empty() {
            first_ct = ct.to_vec();
        }
        let (next, pt) = stream_unpack_step(unpacker, ct).unwrap();
        out.extend_from_slice(&pt);
        unpacker = next;
        pos += 4 + len;
    }
    assert_eq!(out, plaintext);
    assert!(stream_unpack_finish(&unpacker, &stored).is_ok());
    let mut bad = stored.clone();
    bad[31] ^= 1;
    assert!(matches!(stream_unpack_finish(&unpacker, &bad), Err(CoreError::IntegrityFailed)));
    assert!(matches!(stream_unpack_finish(&unpacker, &stored[..31]), Err(CoreError::IntegrityFailed)));
    match stream_unpack_step(unpacker, &first_ct) {
        Err(CoreError::HeaderDecode(m)) => assert_eq!(m, "no more chunks"),
        _ => panic!("expected no more chunks"),
    }
    let fresh = StreamUnpacker::new(FileKey::from_bytes(key_bytes), base_nonce, n);
    let second_len = record_len(&body[4 + first_ct.len()..8 + first_ct.len()]).unwrap();
    let second = &body[8 + first_ct.len()..8 + first_ct.len() + second_len];
    assert!(matches!(stream_unpack_step(fresh, second), Err(CoreError::IntegrityFailed)));
    match record_len(&[0xff, 0xff, 0xff, 0xff]) {
        Err(CoreError::HeaderDecode(m)) => assert_eq!(m, "chunk too large"),
        _ => panic!("expected chunk too large"),
    }
}

#[test]
fn header_frame_length_from_its_first_bytes() {
    let mut header = sample_header();
    header.chunks = Some(qsafe::format::ChunkInfo { chunk_size: 4194304, num_chunks: 2, last_chunk_size: 5 });
    let frame = write_stream_header(&header, b"HDRBYTES").unwrap();
    assert_eq!(header_frame_len(&frame[..12]), Some(20));
    let mut bad = frame[..12].to_vec();
    bad[0] = b'X';
    assert_eq!(header_frame_len(&bad), None);
    let mut huge = frame[..12].to_vec();
    huge[8..12].copy_from_slice(&u32::MAX.to_le_bytes());
    assert_eq!(header_frame_len(&huge), None);
}

#[test]
fn require_chunked_names_the_reason() {
    match require_chunked(&sample_header()) {
        Err(CoreError::HeaderDecode(m)) => assert_eq!(m, "not a streaming file"),
        _ => panic!("expected HeaderDecode"),
    }
}
