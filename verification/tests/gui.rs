use qsafe::gui::{
    basename_of, confirm_token_for, delete_guard, delete_guard_on, derive_pub_path, zip_overwrite_check, zip_target, mnemonic_generate, mnemonic_verify, version_at_least, StartupArgs,
};

#[test]
fn startup_args_empty() {
    let a = StartupArgs::parse(&Vec::<String>::new());
    assert_eq!(a.action, "");
    assert_eq!(a.path, "");
}

#[test]
fn startup_args_path_only() {
    let a = StartupArgs::parse(&vec!["/tmp/qsafe-nonexistent-xyz.qs".to_string()]);
    assert_eq!(a.action, "");
    assert!(a.path.ends_with("qsafe-nonexistent-xyz.qs"));
}

#[test]
fn startup_args_action_eq_form() {
    let a = StartupArgs::parse(&vec!["--action=pack".to_string(), "/tmp/foo.txt".to_string()]);
    assert_eq!(a.action, "pack");
    assert!(a.path.ends_with("foo.txt"));
}

#[test]
fn startup_args_only_action() {
    let a = StartupArgs::parse(&vec!["--action=unpack".to_string()]);
    assert_eq!(a.action, "unpack");
    assert_eq!(a.path, "");
}

#[test]
fn startup_args_first_positional_wins() {
    let a = StartupArgs::parse(&vec![
        "--action=info".to_string(),
        "/tmp/first.qs".to_string(),
        "/tmp/second.qs".to_string(),
    ]);
    assert_eq!(a.action, "info");
    assert!(a.path.ends_with("first.qs"));
}

#[test]
fn startup_args_unknown_flag_ignored() {
    let a = StartupArgs::parse(&vec!["--debug".to_string(), "--verbose".to_string(), "/tmp/x.qs".to_string()]);
    assert_eq!(a.action, "");
    assert!(a.path.ends_with("x.qs"));
}

#[test]
fn version_at_least_basic() {
    assert!(version_at_least("0.1.7", "0.1.7"));
    assert!(version_at_least("0.1.8", "0.1.7"));
    assert!(!version_at_least("0.1.6", "0.1.7"));
    assert!(version_at_least("v0.1.7", "v0.1.7"));
    assert!(!version_at_least("0.1.7", "v0.1.8"));
    assert!(version_at_least("1.0.0", "0.99.99"));
    assert!(!version_at_least("0.99.99", "1.0.0"));
    assert!(version_at_least("0.1", "0.1.0"));
    assert!(!version_at_least("0.1", "0.1.1"));
    assert!(version_at_least("0.1.7", "0.1.7-rc1"));
}

#[test]
fn version_overflowing_part_counts_as_zero() {
    assert!(version_at_least("0.0.0", "99999999999999999999999.0.0"));
    assert!(version_at_least("vv1.2.3", "1.2.3"));
}

#[test]
fn mnemonic_generate_all_valid_word_counts() {
    for n in [12u8, 15, 18, 21, 24] {
        let r = mnemonic_generate(n).unwrap_or_else(|e| panic!("n={}: {}", n, e));
        assert_eq!(r.word_count as u8, n);
        assert_eq!(r.words.len() as u8, n);
        let joined = r.words.join(" ");
        assert!(mnemonic_verify(&joined).unwrap());
    }
}

#[test]
fn mnemonic_generate_rejects_invalid_count() {
    for n in [0u8, 1, 11, 13, 25, 100] {
        let r = mnemonic_generate(n);
        assert!(r.is_err(), "n={} should fail", n);
    }
}

#[test]
fn mnemonic_verify_rejects_garbage() {
    assert!(mnemonic_verify("not a real mnemonic").is_err());
    assert!(mnemonic_verify("").is_err());
    assert!(mnemonic_verify("   ").is_err());
}

#[test]
fn mnemonic_verify_rejects_bad_checksum() {
    let r = mnemonic_generate(12).unwrap();
    let mut words = r.words.clone();
    words[11] = "zoo".into();
    let joined = words.join(" ");
    assert!(mnemonic_verify(&joined).is_err());
}

#[test]
fn derive_pub_path_appends_pub_json() {
    let p = derive_pub_path("/tmp/foo.json");
    assert!(p.ends_with("foo.pub.json"));
    assert_eq!(p, "/tmp/foo.pub.json");
}

#[test]
fn derive_pub_path_handles_no_extension() {
    let p = derive_pub_path("/tmp/myid");
    assert!(p.ends_with("myid.pub.json"));
}

#[test]
fn derive_pub_path_edge_cases() {
    assert_eq!(derive_pub_path("id.json"), "id.pub.json");
    assert_eq!(derive_pub_path("/tmp/.hidden"), "/tmp/.hidden.pub.json");
}

#[test]
fn confirm_token_and_basename() {
    assert_eq!(confirm_token_for("disk4", 32017047552), "disk4:32017047552");
    assert_eq!(confirm_token_for("", 0), ":0");
    assert_eq!(basename_of("/a/b/c.iso"), "c.iso");
    assert_eq!(basename_of("c.iso"), "c.iso");
    assert_eq!(basename_of("/"), "/");
}

#[test]
fn delete_guard_refuses_roots_and_bare_names() {
    assert!(delete_guard("/").is_err());
    assert!(delete_guard("").is_err());
    assert!(delete_guard("notes.txt").is_err());
    assert!(delete_guard(".").is_err());
    assert_eq!(
        delete_guard("/").unwrap_err(),
        "드라이브 루트 또는 시스템 최상위는 삭제할 수 없습니다."
    );
}

#[test]
fn delete_guard_refuses_system_folders() {
    assert_eq!(delete_guard("/usr").unwrap_err(), "시스템 폴더는 삭제할 수 없습니다: /usr");
    assert!(delete_guard("/usr/").is_err());
    assert!(delete_guard("/home/me/BIN").is_err());
    assert!(delete_guard("C:\\Program Files (x86)").is_err());
    assert!(delete_guard("D:\\Windows\\").is_err());
    assert!(delete_guard("/data/Program Files (x86)").is_err());
    assert!(delete_guard("/srv/ProgramData/").is_err());
    assert!(delete_guard("/mnt/data/var").is_err());
}

#[test]
fn delete_guard_allows_ordinary_paths() {
    assert!(delete_guard("/home/me/old.txt").is_ok());
    assert!(delete_guard("./build").is_ok());
    assert!(delete_guard("docs/old").is_ok());
    assert!(delete_guard("/home/me/usr-notes").is_ok());
    assert!(delete_guard("/home/me/library").is_ok());
}

#[test]
fn version_order_is_total() {
    let versions = ["v1.2.3", "1.2", "0.9.10", "v1.10.0", "2", "x"];
    for a in versions {
        assert!(version_at_least(a, a));
        for b in versions {
            assert!(version_at_least(a, b) || version_at_least(b, a));
            for c in versions {
                if version_at_least(a, b) && version_at_least(b, c) {
                    assert!(version_at_least(a, c));
                }
            }
        }
    }
}

#[test]
fn windows_top_level_folders_are_refused_on_windows_only() {
    assert_eq!(delete_guard_on("c:", true).unwrap_err(), "드라이브 루트 또는 시스템 최상위는 삭제할 수 없습니다.");
    assert_eq!(delete_guard_on("a/b", true).unwrap_err(), "시스템 최상위 폴더는 삭제할 수 없습니다.");
    assert_eq!(delete_guard_on("a/b//", true).unwrap_err(), "시스템 최상위 폴더는 삭제할 수 없습니다.");
    assert!(delete_guard_on("a/b", false).is_ok());
    assert!(delete_guard_on("ab/c", true).is_ok());
    assert!(delete_guard_on("a/\u{e9}", true).is_ok());
    assert!(delete_guard_on("/home/me/notes", true).is_ok());
    assert_eq!(delete_guard_on("/usr", true).unwrap_err(), "시스템 폴더는 삭제할 수 없습니다: /usr");
}

#[test]
fn zip_target_and_overwrite_decision() {
    assert_eq!(zip_target("/tmp/a", None), "/tmp/a.zip");
    assert_eq!(zip_target("/tmp/a", Some("/tmp/b.zip")), "/tmp/b.zip");
    assert!(zip_overwrite_check("/tmp/b.zip", false, false).is_ok());
    assert!(zip_overwrite_check("/tmp/b.zip", true, true).is_ok());
    assert_eq!(zip_overwrite_check("/tmp/b.zip", true, false).unwrap_err(), "파일이 이미 있어요: /tmp/b.zip");
}
