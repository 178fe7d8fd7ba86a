use qsafe::envelope::FileKey;
use qsafe::error::CryptoError;
use qsafe::format::{PasswordRecipient, Recipient};
use qsafe::password::{unwrap_password, PasswordWrapper, NONCE_LEN};

const TEST_M: u32 = 8 * 1024;
const TEST_T: u32 = 1;
const TEST_P: u32 = 1;

fn make_recipient() -> PasswordRecipient {
    let fk = FileKey::random();
    let w = PasswordWrapper::new("good-pw").with_params(TEST_M, TEST_T, TEST_P);
    match w.wrap(&fk).unwrap() {
        Recipient::Password(p) => p,
        _ => panic!(),
    }
}

#[test]
fn password_wrap_unwrap_roundtrip() {
    let file_key = FileKey::random();
    let original = *file_key.as_bytes();

    let w = PasswordWrapper::new("hunter2").with_params(TEST_M, TEST_T, TEST_P);
    let r = w.wrap(&file_key).unwrap();

    let pr = match r {
        Recipient::Password(p) => p,
        _ => panic!("expected Password recipient"),
    };

    let recovered = unwrap_password("hunter2", &pr).unwrap();
    assert_eq!(recovered.as_bytes(), &original);
}

#[test]
fn password_wrong_password_fails() {
    let file_key = FileKey::random();
    let w = PasswordWrapper::new("hunter2").with_params(TEST_M, TEST_T, TEST_P);
    let r = w.wrap(&file_key).unwrap();
    let pr = match r {
        Recipient::Password(p) => p,
        _ => panic!(),
    };
    assert!(unwrap_password("wrong-pw", &pr).is_err());
}

#[test]
fn tampered_nonce_fails() {
    let file_key = FileKey::random();
    let w = PasswordWrapper::new("hunter2").with_params(TEST_M, TEST_T, TEST_P);
    let r = w.wrap(&file_key).unwrap();
    let mut pr = match r {
        Recipient::Password(p) => p,
        _ => panic!(),
    };
    pr.nonce[0] ^= 1;
    assert!(unwrap_password("hunter2", &pr).is_err());
}

#[test]
fn password_tampered_ciphertext_fails() {
    let file_key = FileKey::random();
    let w = PasswordWrapper::new("hunter2").with_params(TEST_M, TEST_T, TEST_P);
    let r = w.wrap(&file_key).unwrap();
    let mut pr = match r {
        Recipient::Password(p) => p,
        _ => panic!(),
    };
    pr.encrypted_file_key[0] ^= 1;
    assert!(unwrap_password("hunter2", &pr).is_err());
}

#[test]
fn invalid_nonce_length_rejected() {
    let mut pr = PasswordRecipient {
        salt: vec![0; 32],
        argon2_m_kib: TEST_M,
        argon2_t: TEST_T,
        argon2_p: TEST_P,
        nonce: vec![0; 12],
        encrypted_file_key: vec![0; 48],
    };
    assert!(matches!(unwrap_password("pw", &pr), Err(CryptoError::InvalidNonce)));
    pr.nonce = vec![0; NONCE_LEN];
}

#[test]
fn rejects_weak_argon2_m_below_minimum() {
    let mut pr = make_recipient();
    pr.argon2_m_kib = 1;
    assert!(unwrap_password("good-pw", &pr).is_err());
}

#[test]
fn rejects_argon2_m_zero() {
    let mut pr = make_recipient();
    pr.argon2_m_kib = 0;
    assert!(unwrap_password("good-pw", &pr).is_err());
}

#[test]
fn rejects_argon2_m_too_large_dos_guard() {
    let mut pr = make_recipient();
    pr.argon2_m_kib = u32::MAX;
    assert!(unwrap_password("good-pw", &pr).is_err());
}

#[test]
fn rejects_argon2_t_zero() {
    let mut pr = make_recipient();
    pr.argon2_t = 0;
    assert!(unwrap_password("good-pw", &pr).is_err());
}

#[test]
fn rejects_argon2_p_zero() {
    let mut pr = make_recipient();
    pr.argon2_p = 0;
    assert!(unwrap_password("good-pw", &pr).is_err());
}

#[test]
fn accepts_minimum_params() {
    let pr = make_recipient();
    assert_eq!(pr.argon2_m_kib, 8 * 1024);
    assert!(unwrap_password("good-pw", &pr).is_ok());
}

#[test]
fn short_salt_and_huge_lanes_are_refused() {
    let mut pr = make_recipient();
    pr.salt = vec![1; 7];
    assert!(matches!(unwrap_password("good-pw", &pr), Err(CryptoError::InvalidParams(_))));
    let mut pr = make_recipient();
    pr.argon2_p = u32::MAX;
    assert!(matches!(unwrap_password("good-pw", &pr), Err(CryptoError::Kdf(_))));
    let mut pr = make_recipient();
    pr.argon2_p = 2000;
    assert!(matches!(unwrap_password("good-pw", &pr), Err(CryptoError::Kdf(_))));
}

#[test]
fn wrap_records_parameters_and_strong_profile() {
    let fk = FileKey::from_bytes([5u8; 32]);
    let r = PasswordWrapper::new("pw").with_params(TEST_M, 2, 1).wrap(&fk).unwrap();
    match r {
        Recipient::Password(p) => {
            assert_eq!(p.argon2_m_kib, TEST_M);
            assert_eq!(p.argon2_t, 2);
            assert_eq!(p.argon2_p, 1);
            assert_eq!(p.salt.len(), 32);
            assert_eq!(p.nonce.len(), 24);
            assert_eq!(p.encrypted_file_key.len(), 48);
            assert_ne!(&p.encrypted_file_key[..32], &[5u8; 32]);
        }
        _ => panic!(),
    }
    let bad = PasswordWrapper::new("pw").with_params(TEST_M, 0, 1).wrap(&fk);
    assert!(matches!(bad, Err(CryptoError::Kdf(_))));
}

#[test]
fn argon2_param_refusals_name_the_value_and_limit() {
    let mut pr = make_recipient();
    pr.argon2_m_kib = 1024;
    match unwrap_password("good-pw", &pr) {
        Err(CryptoError::InvalidParams(m)) => assert_eq!(m, "Argon2 m=1024 below minimum 8192"),
        _ => panic!("expected InvalidParams"),
    }
    pr.argon2_m_kib = 16777217;
    match unwrap_password("good-pw", &pr) {
        Err(CryptoError::InvalidParams(m)) => assert_eq!(m, "Argon2 m=16777217 above max 16777216 (DoS guard)"),
        _ => panic!("expected InvalidParams"),
    }
    pr.argon2_m_kib = TEST_M;
    pr.argon2_t = 0;
    match unwrap_password("good-pw", &pr) {
        Err(CryptoError::InvalidParams(m)) => assert_eq!(m, "Argon2 t=0 below minimum 1"),
        _ => panic!("expected InvalidParams"),
    }
    pr.argon2_t = TEST_T;
    pr.argon2_p = 0;
    match unwrap_password("good-pw", &pr) {
        Err(CryptoError::InvalidParams(m)) => assert_eq!(m, "Argon2 p=0 below minimum 1"),
        _ => panic!("expected InvalidParams"),
    }
}
