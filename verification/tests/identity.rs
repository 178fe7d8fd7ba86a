use qsafe::envelope::FileKey;
use qsafe::error::IdentityError;
use qsafe::format::Recipient;
use qsafe::identity::{unwrap_pubkey, Identity, IdentityPublic, IdentitySecretBytes, PubkeyWrapper};

#[test]
fn pubkey_roundtrip() {
    let identity = Identity::generate();
    let public = identity.public();

    let file_key = FileKey::random();
    let original = *file_key.as_bytes();

    let r = PubkeyWrapper::new(public).wrap(&file_key).unwrap();
    let pr = match r {
        Recipient::Pubkey(p) => p,
        _ => panic!(),
    };

    let recovered = unwrap_pubkey(&identity, &pr).unwrap();
    assert_eq!(recovered.as_bytes(), &original);
}

#[test]
fn wrong_identity_fails() {
    let alice = Identity::generate();
    let bob = Identity::generate();

    let fk = FileKey::random();
    let r = PubkeyWrapper::new(alice.public()).wrap(&fk).unwrap();
    let pr = match r {
        Recipient::Pubkey(p) => p,
        _ => panic!(),
    };

    assert!(matches!(unwrap_pubkey(&bob, &pr), Err(IdentityError::RecipientMismatch)));
}

#[test]
fn recipient_tampered_ciphertext_rejected() {
    let identity = Identity::generate();
    let fk = FileKey::random();
    let r = PubkeyWrapper::new(identity.public()).wrap(&fk).unwrap();
    let mut pr = match r {
        Recipient::Pubkey(p) => p,
        _ => panic!(),
    };
    pr.encrypted_file_key[0] ^= 1;
    assert!(unwrap_pubkey(&identity, &pr).is_err());
}

#[test]
fn tampered_ephemeral_pk_rejected() {
    let identity = Identity::generate();
    let fk = FileKey::random();
    let r = PubkeyWrapper::new(identity.public()).wrap(&fk).unwrap();
    let mut pr = match r {
        Recipient::Pubkey(p) => p,
        _ => panic!(),
    };
    pr.ephemeral_x25519_pk[0] ^= 1;
    assert!(unwrap_pubkey(&identity, &pr).is_err());
}

#[test]
fn identity_serialize_roundtrip() {
    let identity = Identity::generate();
    let pub_before = identity.public();

    let bytes = IdentitySecretBytes::from_identity(&identity);
    let identity_back = bytes.to_identity().unwrap();
    let pub_after = identity_back.public();

    assert_eq!(pub_before.x25519_pk, pub_after.x25519_pk);
    assert_eq!(pub_before.mlkem768_pk, pub_after.mlkem768_pk);

    let fk = FileKey::random();
    let original = *fk.as_bytes();
    let r = PubkeyWrapper::new(identity.public()).wrap(&fk).unwrap();
    let pr = match r {
        Recipient::Pubkey(p) => p,
        _ => panic!(),
    };
    let recovered = unwrap_pubkey(&identity_back, &pr).unwrap();
    assert_eq!(recovered.as_bytes(), &original);
}

#[test]
fn fingerprint_and_hash_shapes() {
    let id = Identity::generate();
    let fp = id.fingerprint();
    assert_eq!(fp.len(), 16);
    assert!(fp.chars().all(|c| c.is_ascii_hexdigit() && !c.is_ascii_uppercase()));
    assert_eq!(fp, id.public().fingerprint());
    assert_eq!(id.public().mlkem_pk_hash().len(), 8);
    let known = IdentityPublic { x25519_pk: vec![], mlkem768_pk: vec![] };
    assert_eq!(known.fingerprint(), "e3b0c44298fc1c14");
    assert_eq!(known.mlkem_pk_hash(), vec![0xe3, 0xb0, 0xc4, 0x42, 0x98, 0xfc, 0x1c, 0x14]);
}

#[test]
fn invalid_key_lengths_rejected() {
    let bad = IdentitySecretBytes { x25519_sk: vec![1; 31], mlkem768_sk: vec![0; 2400], mlkem768_pk: vec![0; 1184] };
    assert!(matches!(bad.to_identity(), Err(IdentityError::InvalidX25519SkLen(31))));
    let bad = IdentitySecretBytes { x25519_sk: vec![1; 32], mlkem768_sk: vec![0; 10], mlkem768_pk: vec![0; 1184] };
    assert!(matches!(bad.to_identity(), Err(IdentityError::InvalidMlkemSk)));
    let bad = IdentitySecretBytes { x25519_sk: vec![1; 32], mlkem768_sk: vec![0; 2400], mlkem768_pk: vec![0; 3] };
    assert!(matches!(bad.to_identity(), Err(IdentityError::InvalidMlkemPkLen)));
    let fk = FileKey::random();
    let p = IdentityPublic { x25519_pk: vec![1; 5], mlkem768_pk: vec![0; 1184] };
    assert!(matches!(PubkeyWrapper::new(p).wrap(&fk), Err(IdentityError::InvalidX25519PkLen(5))));
    let p = IdentityPublic { x25519_pk: vec![9; 32], mlkem768_pk: vec![0; 7] };
    assert!(matches!(PubkeyWrapper::new(p).wrap(&fk), Err(IdentityError::InvalidMlkemPkLen)));
}
