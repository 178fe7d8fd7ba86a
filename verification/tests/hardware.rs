use qsafe::envelope::{decrypt_payload, encrypt_payload, random_payload_nonce, FileKey};
use qsafe::error::HardwareError;
use qsafe::format::{CipherSuite, CompressionAlgo, FileHeader, IntegrityAlgo, Recipient};
use qsafe::hardware::{
    unwrap_fido2_with, unwrap_fido2_with_prf, Fido2HwBackend, Fido2Wrapper, MockPrfBackend, PrfBackend, PrfOutput,
    DEFAULT_RP_ID,
};
use qsafe::integrity::blake3_hash;
use qsafe::io::{read_header_frame, read_packed_file, write_packed_file};

#[test]
fn wrap_unwrap_roundtrip_with_mock() {
    let backend = MockPrfBackend::new(42);
    let enrolled = backend.enroll(Some("test-key")).unwrap();

    let file_key = FileKey::random();
    let original = *file_key.as_bytes();

    let wrapper = Fido2Wrapper::new(&backend, enrolled.credential_id.clone()).with_label("test-key");
    let r = wrapper.wrap(&file_key).unwrap();

    let f2r = match r {
        Recipient::Fido2(f) => f,
        _ => panic!("expected Fido2 recipient"),
    };

    let recovered = unwrap_fido2_with(&backend, &f2r).unwrap();
    assert_eq!(recovered.as_bytes(), &original);
}

#[test]
fn wrong_device_fails() {
    let backend_a = MockPrfBackend::new(1);
    let backend_b = MockPrfBackend::new(2);
    let cred = backend_a.enroll(None).unwrap();

    let fk = FileKey::random();
    let r = Fido2Wrapper::new(&backend_a, cred.credential_id.clone()).wrap(&fk).unwrap();
    let f2r = match r {
        Recipient::Fido2(f) => f,
        _ => panic!(),
    };

    assert!(unwrap_fido2_with(&backend_b, &f2r).is_err());
}

#[test]
fn wrong_credential_id_fails() {
    let backend = MockPrfBackend::new(7);
    let cred1 = backend.enroll(None).unwrap();
    let cred2 = backend.enroll(None).unwrap();

    let fk = FileKey::random();
    let r = Fido2Wrapper::new(&backend, cred1.credential_id.clone()).wrap(&fk).unwrap();
    let mut f2r = match r {
        Recipient::Fido2(f) => f,
        _ => panic!(),
    };

    f2r.credential_id = cred2.credential_id;
    assert!(unwrap_fido2_with(&backend, &f2r).is_err());
}

#[test]
fn recipient_tampered_ciphertext_fails() {
    let backend = MockPrfBackend::new(11);
    let cred = backend.enroll(None).unwrap();
    let fk = FileKey::random();
    let r = Fido2Wrapper::new(&backend, cred.credential_id).wrap(&fk).unwrap();
    let mut f2r = match r {
        Recipient::Fido2(f) => f,
        _ => panic!(),
    };
    f2r.encrypted_file_key[0] ^= 1;
    assert!(unwrap_fido2_with(&backend, &f2r).is_err());
}

#[test]
fn tampered_salt_fails() {
    let backend = MockPrfBackend::new(13);
    let cred = backend.enroll(None).unwrap();
    let fk = FileKey::random();
    let r = Fido2Wrapper::new(&backend, cred.credential_id).wrap(&fk).unwrap();
    let mut f2r = match r {
        Recipient::Fido2(f) => f,
        _ => panic!(),
    };
    f2r.hmac_salt[0] ^= 1;
    assert!(unwrap_fido2_with(&backend, &f2r).is_err());
}

#[test]
fn invalid_salt_length_rejected() {
    let backend = MockPrfBackend::new(17);
    let cred = backend.enroll(None).unwrap();
    let fk = FileKey::random();
    let r = Fido2Wrapper::new(&backend, cred.credential_id).wrap(&fk).unwrap();
    let mut f2r = match r {
        Recipient::Fido2(f) => f,
        _ => panic!(),
    };
    f2r.hmac_salt = vec![0; 16];
    assert!(matches!(unwrap_fido2_with(&backend, &f2r), Err(HardwareError::InvalidSaltLen { .. })));
}

#[test]
fn mock_secret_and_evaluate() {
    let m = MockPrfBackend::new(0x0102030405060708);
    assert_eq!(m.mock_device_secret[0], 0x08);
    assert_eq!(m.mock_device_secret[1], 0x07 ^ 1);
    assert_eq!(m.mock_device_secret[9], 0x07 ^ 9);
    assert!(matches!(m.evaluate(b"id", &[0u8; 31]), Err(HardwareError::InvalidSaltLen { expected: 32, actual: 31 })));
    let a = m.evaluate(b"id", &[0u8; 32]).unwrap();
    let b = m.evaluate(b"id", &[0u8; 32]).unwrap();
    assert_eq!(a.as_bytes(), b.as_bytes());
    let c = m.evaluate(b"other", &[0u8; 32]).unwrap();
    assert_ne!(a.as_bytes(), c.as_bytes());
}

#[test]
fn wrapper_builders_and_prf_unwrap() {
    let m = MockPrfBackend::new(3);
    let w = Fido2Wrapper::new(&m, vec![1, 2, 3]).with_rp_id("example.org").with_uv(true).with_label("k");
    assert_eq!(w.rp_id, "example.org");
    assert!(w.user_verification_required);
    let fk = FileKey::from_bytes([4u8; 32]);
    let prf = PrfOutput::new([9u8; 32]);
    let r = w.wrap_with_prf(&fk, vec![6u8; 32], &prf).unwrap();
    let fr = match r {
        Recipient::Fido2(f) => f,
        _ => panic!(),
    };
    assert_eq!(fr.rp_id, "example.org");
    assert_eq!(fr.label.as_deref(), Some("k"));
    assert_eq!(unwrap_fido2_with_prf(&prf, &fr).unwrap().as_bytes(), &[4u8; 32]);
    assert!(matches!(unwrap_fido2_with_prf(&PrfOutput::new([8u8; 32]), &fr), Err(HardwareError::Aead)));
    let hw = Fido2HwBackend::new(DEFAULT_RP_ID).with_pin("1234");
    assert_eq!(hw.rp_id, "qsafe.local");
    assert_eq!(hw.pin.as_deref(), Some("1234"));
}

#[test]
fn fido2_only_recipient_full_roundtrip() {
    let plaintext = b"top secret data protected by fido2 only";
    let original_size = plaintext.len() as u64;
    let original_hash = blake3_hash(plaintext);

    let file_key = FileKey::random();
    let nonce = random_payload_nonce();
    let ciphertext = encrypt_payload(&file_key, &nonce, plaintext).unwrap();

    let backend = MockPrfBackend::new(0xCAFE);
    let cred = backend.enroll(Some("e2e-key")).unwrap();
    let recipient = Fido2Wrapper::new(&backend, cred.credential_id.clone()).with_label("e2e-key").wrap(&file_key).unwrap();

    let mut header = FileHeader::new(CipherSuite::V1Xchacha20Blake3, CompressionAlgo::Uncompressed);
    header.integrity = IntegrityAlgo::Blake3;
    header.recipients.push(recipient);
    header.payload_nonce = nonce.clone();
    header.original_size = original_size;
    header.created_at_unix = 1700000000;

    let buf = write_packed_file(&header, b"header", &ciphertext, &original_hash).unwrap();

    let (_, body) = read_header_frame(&buf).unwrap();
    let parsed = read_packed_file(header.clone(), &buf, body).unwrap();
    let f2r = match &parsed.header.recipients[0] {
        Recipient::Fido2(f) => f.clone(),
        _ => panic!("expected Fido2 recipient"),
    };

    let recovered_key = unwrap_fido2_with(&backend, &f2r).unwrap();

    let recovered_plain = decrypt_payload(&recovered_key, &parsed.header.payload_nonce, &parsed.payload).unwrap();
    assert_eq!(recovered_plain, plaintext);
}

#[test]
fn fido2_with_wrong_device_fails_but_other_recipient_works() {
    let plaintext = b"data";
    let file_key = FileKey::random();
    let nonce = random_payload_nonce();
    let ciphertext = encrypt_payload(&file_key, &nonce, plaintext).unwrap();

    let device_a = MockPrfBackend::new(1);
    let device_b = MockPrfBackend::new(2);

    let cred_a = device_a.enroll(Some("device-a")).unwrap();
    let cred_b = device_b.enroll(Some("device-b")).unwrap();

    let r_a = Fido2Wrapper::new(&device_a, cred_a.credential_id).with_label("device-a").wrap(&file_key).unwrap();
    let r_b = Fido2Wrapper::new(&device_b, cred_b.credential_id).with_label("device-b").wrap(&file_key).unwrap();

    let mut header = FileHeader::new(CipherSuite::V1Xchacha20Blake3, CompressionAlgo::Uncompressed);
    header.integrity = IntegrityAlgo::Blake3;
    header.recipients.push(r_a.clone());
    header.recipients.push(r_b.clone());
    header.payload_nonce = nonce;
    header.original_size = plaintext.len() as u64;
    header.created_at_unix = 0;

    let buf = write_packed_file(&header, b"header", &ciphertext, &blake3_hash(plaintext)).unwrap();
    let (_, body) = read_header_frame(&buf).unwrap();
    let parsed = read_packed_file(header.clone(), &buf, body).unwrap();

    let mut success = false;
    for recipient in &parsed.header.recipients {
        if let Recipient::Fido2(f) = recipient {
            if let Ok(_fk) = unwrap_fido2_with(&device_a, f) {
                success = true;
                break;
            }
        }
    }
    assert!(success, "device A should unwrap at least one recipient");
}
