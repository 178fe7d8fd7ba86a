use qsafe::formats::archive::{archive_listing, check_single_entry_format, RarEntry};
use qsafe::formats::detect::ExternalFormat;
use qsafe::gui::{about_info, identity_summary, temp_cleanup_guard, update_check};
use qsafe::identity::IdentityPublic;

#[test]
fn identity_summary_fields() {
    let public = IdentityPublic { x25519_pk: vec![], mlkem768_pk: vec![] };
    let s = identity_summary(&public, "/k/id.json".to_string(), Some("/k/id.pub.json".to_string()));
    assert_eq!(s.fingerprint, "e3b0c44298fc1c14");
    assert_eq!(s.x25519_pk_len, 0);
    assert_eq!(s.mlkem768_pk_len, 0);
    assert_eq!(s.path, "/k/id.json");
    assert_eq!(s.public_path.as_deref(), Some("/k/id.pub.json"));
    let public = IdentityPublic { x25519_pk: vec![7; 32], mlkem768_pk: vec![9; 1184] };
    let s = identity_summary(&public, "p".to_string(), None);
    assert_eq!((s.x25519_pk_len, s.mlkem768_pk_len), (32, 1184));
    assert_eq!(s.fingerprint, public.fingerprint());
}

#[test]
fn update_check_compares_versions() {
    let u = update_check("0.4.0".to_string(), "v0.5.0".to_string(), None);
    assert!(!u.up_to_date);
    assert_eq!(u.release_url, "https://github.com/heedong719/qsafe/releases");
    let u = update_check("0.5.1".to_string(), "v0.5.0".to_string(), Some("https://x/r".to_string()));
    assert!(u.up_to_date);
    assert_eq!(u.release_url, "https://x/r");
    assert_eq!(u.current, "0.5.1");
    assert_eq!(u.latest, "v0.5.0");
}

#[test]
fn about_lists_features() {
    let a = about_info("1.2.3", "/home/u".to_string());
    assert_eq!(a.version, "1.2.3");
    assert_eq!(a.cipher_suite, "XChaCha20-Poly1305 + BLAKE3 + Argon2id");
    assert_eq!(a.features.len(), 6);
    assert_eq!(a.features[3], "Shamir 분산 백업");
    assert_eq!(a.default_dir, "/home/u");
}

#[test]
fn temp_cleanup_guarded() {
    assert!(temp_cleanup_guard("/tmp/qsafe-info-1-2", "/tmp").is_ok());
    assert_eq!(
        temp_cleanup_guard("/tmpx/qsafe-info-1", "/tmp").unwrap_err(),
        "안전 가드: /tmpx/qsafe-info-1 가 temp_dir (/tmp) 안에 없음"
    );
    assert_eq!(
        temp_cleanup_guard("/tmp/other", "/tmp").unwrap_err(),
        "안전 가드: other 가 qsafe-info-* 패턴 아님"
    );
    assert_eq!(temp_cleanup_guard("/tmp", "/tmp").unwrap_err(), "안전 가드: tmp 가 qsafe-info-* 패턴 아님");
    assert!(temp_cleanup_guard("/tmp//a/./qsafe-info-9/", "/tmp/").is_ok());
    assert_eq!(
        temp_cleanup_guard("/tmp/qsafe-info-1/..", "/tmp").unwrap_err(),
        "안전 가드:  가 qsafe-info-* 패턴 아님"
    );
}

#[test]
fn archive_listings() {
    let rar = vec![
        RarEntry { filename: "a.txt".to_string(), unpacked_size: 5, is_directory: false, is_encrypted: true },
        RarEntry { filename: "d".to_string(), unpacked_size: 0, is_directory: true, is_encrypted: false },
    ];
    let l = archive_listing("/x/a.rar".to_string(), ExternalFormat::Rar, &rar);
    assert_eq!(l.format, "rar");
    assert_eq!(l.entries.len(), 2);
    assert_eq!(l.entries[0].name, "a.txt");
    assert!(l.entries[0].is_encrypted);
    assert!(l.entries[1].is_dir);
    let z = archive_listing("/x/a.zip".to_string(), ExternalFormat::Zip, &rar);
    assert_eq!(z.format, "zip");
    assert!(z.entries.is_empty());
    assert!(check_single_entry_format(ExternalFormat::Rar).is_ok());
    assert_eq!(
        check_single_entry_format(ExternalFormat::SevenZ).unwrap_err(),
        "7z 포맷은 단일 entry 추출을 지원하지 않습니다"
    );
}
