use qsafe::cli::{
    check_pack_recipients, check_share_count, check_split_secret, constant_time_eq, decide_compression, default_pack_output, describe_recipient,
    find_share_line, first_password_recipient, merge_base, parse_size, part_name, safe_default_output, size_in_range,
    sanitize_for_terminal, sfx_default_output, share_file_text, split_plan, unwrap_any_pubkey, CompressArg,
    CredentialStore, StoredCredential,
};
use qsafe::envelope::FileKey;
use qsafe::format::{Bip39Recipient, CompressionAlgo, Fido2Recipient, PasswordRecipient, Recipient, TimelockRecipient};
use qsafe::identity::{Identity, PubkeyWrapper};
use qsafe::shamir::EncodedShare;

#[test]
fn sanitize_strips_escape_codes() {
    let dangerous = "normal\x1b[2J\x1b[Hhidden";
    let clean = sanitize_for_terminal(dangerous);
    assert!(!clean.contains('\x1b'));
    assert!(clean.contains("normal"));
    assert!(clean.contains("hidden"));
}

#[test]
fn sanitize_preserves_korean() {
    let s = "내 중요 문서 📄";
    let clean = sanitize_for_terminal(s);
    assert_eq!(clean, s);
}

#[test]
fn sanitize_removes_null_bytes() {
    let s = "hello\x00world\x07";
    let clean = sanitize_for_terminal(s);
    assert_eq!(clean, "helloworld");
}

#[test]
fn sanitize_length_limit() {
    let huge = "a".repeat(10_000);
    let clean = sanitize_for_terminal(&huge);
    assert!(clean.len() <= 512);
}

#[test]
fn sanitize_keeps_tabs_newlines() {
    let s = "line1\nline2\tcol";
    let clean = sanitize_for_terminal(s);
    assert!(clean.contains('\n'));
    assert!(clean.contains('\t'));
}

#[test]
fn sanitize_counts_characters_not_bytes() {
    let s = "한".repeat(600);
    let clean = sanitize_for_terminal(&s);
    assert_eq!(clean.chars().count(), 512);
    assert_eq!(sanitize_for_terminal("a\u{85}b\u{9f}c\u{a0}"), "abc\u{a0}");
}

#[test]
fn constant_time_eq_basic() {
    assert!(constant_time_eq(b"abc", b"abc"));
    assert!(!constant_time_eq(b"abc", b"abd"));
    assert!(!constant_time_eq(b"abc", b"abcd"));
    assert!(constant_time_eq(b"", b""));
}

#[test]
fn decide_compression_auto() {
    assert_eq!(decide_compression(CompressArg::Auto, 10), CompressionAlgo::Uncompressed);
    assert_eq!(decide_compression(CompressArg::Auto, 10_000), CompressionAlgo::Zstd);
    assert_eq!(decide_compression(CompressArg::Uncompressed, 10_000), CompressionAlgo::Uncompressed);
    assert_eq!(decide_compression(CompressArg::Zstd, 10), CompressionAlgo::Zstd);
}

#[test]
fn safe_default_output_strips_clk() {
    assert_eq!(safe_default_output("foo.txt.qs"), "foo.txt");
    assert_eq!(safe_default_output("foo.txt.cl"), "foo.txt");
    assert_eq!(safe_default_output("foo.bin"), "foo.bin.unpacked");
}

#[test]
fn safe_default_output_paths() {
    assert_eq!(safe_default_output("/data/a.qs"), "/data/a");
    assert_eq!(safe_default_output("/data/.qs"), "/data/.qs.unpacked");
    assert_eq!(safe_default_output("/"), "/out.unpacked");
}

#[test]
fn sfx_output_choice() {
    assert_eq!(sfx_default_output("/d/in.txt", "/d/custom.bin", ".run"), "/d/custom.bin");
    assert_eq!(sfx_default_output("/d/in.txt", "/d/in.txt.qs", ".run"), "/d/in.txt.run");
    assert_eq!(sfx_default_output("/d/in.txt", "/d/in.txt", ".exe"), "/d/in.txt.exe");
}

#[test]
fn parse_size_units() {
    assert_eq!(parse_size("100M").unwrap(), 100 * 1024 * 1024);
    assert_eq!(parse_size(" 1g ").unwrap(), 1024 * 1024 * 1024);
    assert_eq!(parse_size("500K").unwrap(), 500 * 1024);
    assert_eq!(parse_size("42").unwrap(), 42);
    assert!(parse_size("").is_err());
    assert!(parse_size("12X").is_err());
    assert!(parse_size("M").is_err());
    assert!(parse_size("99999999999999999999").is_err());
    assert!(!size_in_range("18446744073709551615G"));
    assert!(size_in_range("17179869183G"));
    assert!(!size_in_range("17179869184G"));
    assert!(size_in_range("nonsense"));
    assert_eq!(parse_size(" 12x ").unwrap_err(), "크기 파싱 실패: '12X' (예: 100M, 1G, 500K)");
}

fn cred(name: &str) -> StoredCredential {
    StoredCredential {
        name: name.to_string(),
        credential_id_hex: "00".to_string(),
        rp_id: "qsafe.local".to_string(),
        created_at_unix: 0,
        label: None,
    }
}

#[test]
fn credential_store_add_find_remove() {
    let mut store = CredentialStore::new();
    store.add(cred("a")).unwrap();
    store.add(cred("b")).unwrap();
    assert!(store.add(cred("a")).is_err());
    assert_eq!(store.credentials.len(), 2);
    assert_eq!(store.find("b").unwrap().name, "b");
    assert!(store.find("c").is_none());
    assert!(store.remove("c").is_err());
    assert_eq!(store.credentials.len(), 2);
    store.remove("a").unwrap();
    assert_eq!(store.credentials.len(), 1);
    assert!(store.find("a").is_none());
    assert_eq!(store.credentials[0].name, "b");
    store.add(cred("a")).unwrap();
    let names: Vec<&str> = store.credentials.iter().map(|c| c.name.as_str()).collect();
    assert_eq!(names, vec!["b", "a"]);
}

#[test]
fn pack_recipients_checked() {
    assert!(check_pack_recipients(false, 0, 0, false).is_ok());
    assert!(check_pack_recipients(true, 1, 0, false).is_ok());
    assert!(check_pack_recipients(true, 0, 1, false).is_ok());
    assert!(check_pack_recipients(true, 0, 0, false).is_err());
    assert!(check_pack_recipients(true, 1, 0, true).is_err());
    assert!(check_pack_recipients(false, 0, 0, true).is_ok());
}

#[test]
fn pack_output_defaults() {
    assert_eq!(default_pack_output("/tmp/report.pdf"), "/tmp/report.pdf.qs");
    assert_eq!(default_pack_output("notes"), "notes.qs");
    assert_eq!(default_pack_output("dir/sub/"), "dir/sub.qs");
    assert_eq!(default_pack_output("/"), "/output.qs");
}

#[test]
fn split_plan_counts_parts() {
    assert_eq!(split_plan(10_000, 1024), Ok(10));
    assert_eq!(split_plan(1024, 1024), Ok(1));
    assert_eq!(split_plan(1025, 1024), Ok(2));
    assert_eq!(split_plan(0, 4096), Ok(0));
    assert!(split_plan(10_000, 1023).is_err());
    assert!(split_plan(10_000 * 1024, 1024).is_err());
    assert_eq!(split_plan(9999 * 1024, 1024), Ok(9999));
}

#[test]
fn part_names_are_padded() {
    assert_eq!(part_name("big.iso", 1), "big.iso.part001");
    assert_eq!(part_name("big.iso", 42), "big.iso.part042");
    assert_eq!(part_name("x", 1234), "x.part1234");
}

#[test]
fn merge_base_strips_last_part_suffix() {
    assert_eq!(merge_base("big.iso.part001"), Ok("big.iso".to_string()));
    assert_eq!(merge_base("a.part1/b.part002"), Ok("a.part1/b".to_string()));
    assert!(merge_base("big.iso").is_err());
}

#[test]
fn share_file_roundtrip() {
    let share = EncodedShare { threshold: 3, total: 5, index: 2, data: vec![0xde, 0xad, 0x01] };
    let text = share_file_text(2, 5, 3, &share);
    assert!(text.starts_with("=== qsafe Shamir Share 2 of 5 ===\n"));
    assert!(text.contains("임계값: 3 share 필요\n"));
    assert!(text.ends_with("qs1-3-5-02-dead01\n"));
    let line = find_share_line(&text).unwrap();
    assert_eq!(line, "qs1-3-5-02-dead01");
    let back = EncodedShare::parse(&line).unwrap();
    assert_eq!((back.threshold, back.total, back.index, back.data), (3, 5, 2, vec![0xde, 0xad, 0x01]));
}

#[test]
fn share_line_found_after_trimming() {
    assert_eq!(find_share_line("header\n  qs1-2-3-01-ff  \r\nrest"), Some("qs1-2-3-01-ff".to_string()));
    assert_eq!(find_share_line("no share here\n"), None);
}

#[test]
fn first_password_recipient_found() {
    let p = PasswordRecipient {
        salt: vec![1; 16],
        argon2_m_kib: 65536,
        argon2_t: 3,
        argon2_p: 4,
        nonce: vec![2; 24],
        encrypted_file_key: vec![3; 48],
    };
    let rs = vec![Recipient::Timelock(timelock()), Recipient::Password(p)];
    let found = first_password_recipient(&rs).unwrap();
    assert_eq!(found.argon2_m_kib, 65536);
    assert!(first_password_recipient(&[Recipient::Timelock(timelock())]).is_none());
}

fn timelock() -> TimelockRecipient {
    TimelockRecipient { drand_chain_hash: "h".to_string(), round: 1, unlock_at_unix: 0, tlock_envelope: vec![] }
}

#[test]
fn any_pubkey_unwraps_matching_recipient() {
    let alice = Identity::generate();
    let bob = Identity::generate();
    let fk = FileKey::random();
    let to_bob = PubkeyWrapper::new(bob.public()).wrap(&fk).unwrap();
    let to_alice = PubkeyWrapper::new(alice.public()).wrap(&fk).unwrap();
    let rs = vec![Recipient::Timelock(timelock()), to_bob, to_alice];
    let got = unwrap_any_pubkey(&alice, &rs).unwrap();
    assert_eq!(got.as_bytes(), fk.as_bytes());
    assert!(matches!(unwrap_any_pubkey(&alice, &[Recipient::Timelock(timelock())]), Err(None)));
    let only_bob = vec![PubkeyWrapper::new(bob.public()).wrap(&fk).unwrap()];
    assert!(matches!(unwrap_any_pubkey(&alice, &only_bob), Err(Some(_))));
}

#[test]
fn recipients_described() {
    let p = PasswordRecipient {
        salt: vec![],
        argon2_m_kib: 65536,
        argon2_t: 3,
        argon2_p: 4,
        nonce: vec![],
        encrypted_file_key: vec![],
    };
    assert_eq!(
        describe_recipient(&Recipient::Password(p)),
        "password (Argon2id m=65536KiB t=3 p=4, XChaCha20-Poly1305)"
    );
    let f = Fido2Recipient {
        credential_id: vec![],
        rp_id: "qsafe.local".to_string(),
        hmac_salt: vec![],
        user_verification_required: true,
        nonce: vec![],
        encrypted_file_key: vec![],
        label: None,
    };
    assert_eq!(
        describe_recipient(&Recipient::Fido2(f)),
        "fido2 (hmac-secret, rp=qsafe.local, label=unnamed, uv=true)"
    );
    let b = Bip39Recipient {
        salt: vec![],
        nonce: vec![],
        encrypted_file_key: vec![],
        word_count: 24,
        language: "english".to_string(),
        label: Some("back\x1b[2Jup".to_string()),
    };
    assert_eq!(describe_recipient(&Recipient::Bip39(b)), "bip39 paper (24 words, english, label=back[2Jup)");
    assert_eq!(describe_recipient(&Recipient::Timelock(timelock())), "timelock (drand)");
}

#[test]
fn sanitize_twice_changes_nothing() {
    let s = format!("{}\x1b[31mred\u{9b}\x07{}", "x".repeat(600), "tail");
    let once = sanitize_for_terminal(&s);
    assert_eq!(once.chars().count(), 512);
    assert!(once.chars().all(|c| c == '\n' || c == '\t' || !c.is_control()));
    assert_eq!(sanitize_for_terminal(&once), once);
}

#[test]
fn merge_finds_split_prefix() {
    for prefix in ["/tmp/a.bin", "/tmp/x.part7/file", "noext", ""] {
        for index in [1u32, 12, 123, 9999] {
            assert_eq!(merge_base(&part_name(prefix, index)).unwrap(), prefix);
        }
    }
}

#[test]
fn shamir_input_checks() {
    assert_eq!(check_split_secret(b"").unwrap_err(), "입력 파일이 비어있음");
    assert!(check_split_secret(b"k").is_ok());
    assert_eq!(check_share_count(1).unwrap_err(), "최소 2개 share 필요");
    assert!(check_share_count(2).is_ok());
}
