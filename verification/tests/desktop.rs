use qsafe::cli::{
    credential_id_short, extract_dir_for, has_qsafe_magic, header_summary, migrate_output_for, valid_credential_name,
};
use qsafe::paper::{mnemonic_info, GeneratedMnemonic};
use qsafe::sfx::{password_from_line, sfx_output_path};
use qsafe::error::{CoreError, FormatError, ShamirError, SfxError};
use qsafe::formats::path_safety::single_file_output;
use qsafe::disks::{
    accept_iso_write, check_iso_size, choose_iso_disk, dd_bytes_written, disk_still_safe, parse_lsblk, parse_lsblk_line, WritableDisk,
};
use qsafe::format::{CipherSuite, CompressionAlgo, Fido2Recipient, FileHeader, PasswordRecipient, Recipient, TimelockRecipient, MAGIC};
use qsafe::jobs::{cap_line, keep_stderr_line, read_stderr_line, PackUnpackProgress, StderrLine};
use qsafe::launch::{
    compression_name, delete_result, digests_match, is_tar_image, unpack_ext_result, UnpackResult, md5_sidecar_text, pack_args, pack_credentials, pack_label,
    pack_output_for, recipient_kind, sidecar_digest, unpack_args, unpack_credentials, unpack_output_for,
    untar_dir_for, PUBLIC_PASSWORD, file_info_of, qsafe_info_of,
};
use qsafe::listing::{dir_listing, entry_marks, is_hidden, sort_entries, DirEntry};

fn disk(id: &str, size: u64, system: bool) -> WritableDisk {
    WritableDisk {
        id: id.to_string(),
        label: "USB".to_string(),
        size_bytes: size,
        removable: true,
        is_system: system,
        mount_points: vec![],
    }
}

#[test]
fn lsblk_line_removable_disk() {
    let d = parse_lsblk_line(
        "NAME=\"sdb\" SIZE=\"16008609792\" TYPE=\"disk\" RM=\"1\" MOUNTPOINT=\"\" VENDOR=\"SanDisk\" MODEL=\"Cruzer\"",
    )
    .unwrap();
    assert_eq!(d.id, "/dev/sdb");
    assert_eq!(d.label, "SanDisk Cruzer");
    assert_eq!(d.size_bytes, 16008609792);
    assert!(d.removable && !d.is_system);
    assert!(d.mount_points.is_empty());
}

#[test]
fn lsblk_line_quirks() {
    let d = parse_lsblk_line("NAME=\"sdc\" SIZE=\"x\" TYPE=\"disk\" RM=\"1\" MOUNTPOINT=\"/media/usb\" MODEL=\"Ultra Fit\"")
        .unwrap();
    assert_eq!(d.size_bytes, 0);
    assert_eq!(d.label, "Ultra");
    assert_eq!(d.mount_points, vec!["/media/usb".to_string()]);
    let d = parse_lsblk_line("NAME=\"sdd\" SIZE=\"1\" TYPE=\"disk\" RM=\"1\"").unwrap();
    assert_eq!(d.label, "sdd");
}

#[test]
fn lsblk_line_rejected() {
    assert!(parse_lsblk_line("NAME=\"sda\" SIZE=\"1\" TYPE=\"disk\" RM=\"0\"").is_none());
    assert!(parse_lsblk_line("NAME=\"sdb1\" SIZE=\"1\" TYPE=\"part\" RM=\"1\"").is_none());
    assert!(parse_lsblk_line("NAME=\"sdb\" SIZE=\"1\" TYPE=\"disk\" RM=\"1\" MOUNTPOINT=\"/\"").is_none());
    assert!(parse_lsblk_line("NAME=\"sdb\" SIZE=\"1\" TYPE=\"disk\" RM=\"1\" MOUNTPOINT=\"/boot/efi\"").is_none());
    assert!(parse_lsblk_line("").is_none());
}

#[test]
fn lsblk_output_in_order() {
    let out = "NAME=\"sda\" SIZE=\"5\" TYPE=\"disk\" RM=\"0\"\r\nNAME=\"sdb\" SIZE=\"7\" TYPE=\"disk\" RM=\"1\"\r\nNAME=\"sdc\" SIZE=\"9\" TYPE=\"disk\" RM=\"1\"\n";
    let ds = parse_lsblk(out);
    assert_eq!(ds.len(), 2);
    assert_eq!(ds[0].id, "/dev/sdb");
    assert_eq!(ds[1].id, "/dev/sdc");
    assert_eq!(ds[1].size_bytes, 9);
}

#[test]
fn iso_disk_choice() {
    let ds = vec![disk("/dev/sdb", 1000, false), disk("/dev/sdc", 2000, true)];
    assert_eq!(choose_iso_disk(&ds, "/dev/sdb", "/dev/sdb:1000"), Ok(0));
    assert_eq!(
        choose_iso_disk(&ds, "/dev/sdz", "x").unwrap_err(),
        "디스크 /dev/sdz가 더 이상 보이지 않습니다 (분리됨?)"
    );
    assert!(choose_iso_disk(&ds, "/dev/sdb", "/dev/sdb:999").unwrap_err().contains("expected=/dev/sdb:1000, got=/dev/sdb:999"));
    assert_eq!(choose_iso_disk(&ds, "/dev/sdc", "/dev/sdc:2000").unwrap_err(), "시스템/부팅 디스크에는 쓸 수 없습니다");
}

#[test]
fn iso_size_checks() {
    assert!(check_iso_size(0, 10).is_err());
    assert_eq!(check_iso_size(11, 10).unwrap_err(), "ISO(11 bytes)가 디스크(10 bytes)보다 큽니다");
    assert!(check_iso_size(10, 10).is_ok());
}

#[test]
fn disk_recheck() {
    let ds = vec![disk("/dev/sdb", 1000, false), disk("/dev/sdc", 2000, true)];
    assert!(disk_still_safe(&ds, "/dev/sdb", "/dev/sdb:1000"));
    assert!(!disk_still_safe(&ds, "/dev/sdb", "/dev/sdb:1001"));
    assert!(!disk_still_safe(&ds, "/dev/sdc", "/dev/sdc:2000"));
    assert!(!disk_still_safe(&[], "/dev/sdb", "/dev/sdb:1000"));
}

#[test]
fn dd_progress_lines() {
    assert_eq!(dd_bytes_written("1234567890 bytes (1.2 GB, 1.1 GiB) copied, 3 s, 400 MB/s"), Some(1234567890));
    assert_eq!(dd_bytes_written("  42 bytes transferred in 0.1 secs"), Some(42));
    assert_eq!(dd_bytes_written("records in 7 bytes 9 bytes"), Some(7));
    assert_eq!(dd_bytes_written("no count here"), None);
    assert_eq!(dd_bytes_written(" bytes"), None);
    assert_eq!(dd_bytes_written("x12 bytes"), None);
}

#[test]
fn stderr_progress_and_text() {
    match read_stderr_line("PROGRESS\t10\t100\t10") {
        StderrLine::Progress(p) => assert_eq!(p, PackUnpackProgress { current: 10, total: 100, percent: 10 }),
        StderrLine::Text(_) => panic!("expected progress"),
    }
    match read_stderr_line("PROGRESS\tx\t5\t250") {
        StderrLine::Progress(p) => assert_eq!(p, PackUnpackProgress { current: 0, total: 5, percent: 100 }),
        StderrLine::Text(_) => panic!("expected progress"),
    }
    match read_stderr_line("PROGRESS\t1\t2") {
        StderrLine::Text(t) => assert_eq!(t, "PROGRESS\t1\t2"),
        StderrLine::Progress(_) => panic!("expected text"),
    }
    match read_stderr_line("error: bad password") {
        StderrLine::Text(t) => assert_eq!(t, "error: bad password"),
        StderrLine::Progress(_) => panic!("expected text"),
    }
}

#[test]
fn long_lines_are_cut_on_char_boundary() {
    let short = "a".repeat(8192);
    assert_eq!(cap_line(&short), short);
    let long = "a".repeat(8193);
    assert_eq!(cap_line(&long), format!("{}…(truncated)", "a".repeat(8192)));
    let korean = "가".repeat(3000);
    let cut = cap_line(&korean);
    assert_eq!(cut, format!("{}…(truncated)", "가".repeat(2730)));
}

#[test]
fn stderr_kept_up_to_cap() {
    let mut kept = String::new();
    keep_stderr_line(&mut kept, "one");
    keep_stderr_line(&mut kept, "two");
    assert_eq!(kept, "one\ntwo\n");
    let mut full = "x".repeat(262144);
    keep_stderr_line(&mut full, "more");
    assert_eq!(full.len(), 262144);
}

#[test]
fn open_mode_credentials() {
    let (pw, keys, nopw) = pack_credentials(true, Some("secret".into()), vec!["k.json".into()], true);
    assert_eq!(pw.as_deref(), Some(PUBLIC_PASSWORD));
    assert!(keys.is_empty());
    assert!(!nopw);
    let (pw, keys, nopw) = pack_credentials(false, Some("secret".into()), vec!["k.json".into()], true);
    assert_eq!(pw.as_deref(), Some("secret"));
    assert_eq!(keys, vec!["k.json".to_string()]);
    assert!(nopw);
    let (pw, id) = unpack_credentials(true, None, Some("id.json".into()));
    assert_eq!(pw.as_deref(), Some("qsafe-public-v1"));
    assert!(id.is_none());
}

#[test]
fn default_outputs() {
    assert_eq!(pack_output_for("a.txt", false, false), "a.txt.qs");
    assert_eq!(pack_output_for("a.txt", true, false), "a.txt.run");
    assert_eq!(pack_output_for("a.txt", true, true), "a.txt.run.exe");
    assert_eq!(unpack_output_for("a.txt.qs"), "a.txt");
    assert_eq!(unpack_output_for("a.txt"), "a.txt.out");
    assert_eq!(unpack_output_for(".qs"), "");
}

#[test]
fn labels_with_digest() {
    let md5 = Some("0123456789abcdef0123456789abcdef".to_string());
    assert_eq!(pack_label(&Some("doc".into()), &md5).as_deref(), Some("doc | MD5:0123456789abcdef"));
    assert_eq!(pack_label(&None, &md5).as_deref(), Some("MD5:0123456789abcdef"));
    assert_eq!(pack_label(&Some("doc".into()), &None).as_deref(), Some("doc"));
    assert_eq!(pack_label(&None, &None), None);
}

#[test]
fn pack_argument_list() {
    let args = pack_args(
        "in.txt",
        "in.txt.qs",
        true,
        &Some("zstd".into()),
        &Some("strong".into()),
        false,
        &Some("pw".into()),
        &vec!["a.json".into(), "b.json".into()],
        true,
        &Some("lbl".into()),
        true,
    );
    let expected: Vec<&str> = vec![
        "pack", "in.txt", "-o", "in.txt.qs", "--force", "-c", "zstd", "--profile", "strong", "--password", "pw",
        "--pubkey", "a.json", "--pubkey", "b.json", "--sfx", "--label", "lbl", "--progress",
    ];
    assert_eq!(args, expected);
    let args = pack_args("i", "o", false, &None, &Some("weird".into()), true, &Some("pw".into()), &vec![], false, &None, false);
    assert_eq!(args, vec!["pack", "i", "-o", "o", "-c", "auto", "--no-password"]);
    let args = pack_args("i", "o", false, &Some("brotli".into()), &None, false, &None, &vec![], false, &None, false);
    assert_eq!(args, vec!["pack", "i", "-o", "o"]);
}

#[test]
fn unpack_argument_list() {
    let args = unpack_args("f.qs", "f", true, &Some("pw".into()), &Some("id.json".into()));
    assert_eq!(args, vec!["unpack", "f.qs", "-o", "f", "--progress", "--force", "--password", "pw", "--identity", "id.json"]);
    let args = unpack_args("f.qs", "f", false, &None, &None);
    assert_eq!(args, vec!["unpack", "f.qs", "-o", "f", "--progress"]);
}

#[test]
fn md5_sidecar_round() {
    let text = md5_sidecar_text("abc123", "/tmp/out/file.bin");
    assert_eq!(text, "abc123  file.bin\n");
    assert_eq!(sidecar_digest(&text).as_deref(), Some("abc123"));
    assert_eq!(sidecar_digest("   \n"), None);
    assert!(digests_match("ABC123", "abc123"));
    assert!(!digests_match("abc124", "abc123"));
    assert!(!digests_match("abc12", "abc123"));
    // Unicode case is folded too, as `str::to_lowercase` folds it.
    assert!(digests_match("ÉTÉ", "été"));
}

#[test]
fn tar_images_detected() {
    let mut head = vec![0u8; 512];
    head[257..262].copy_from_slice(b"ustar");
    assert!(is_tar_image(&head));
    assert!(!is_tar_image(&head[..264]));
    head[257] = b'x';
    assert!(!is_tar_image(&head));
}

#[test]
fn untar_folders() {
    assert_eq!(untar_dir_for("/tmp/x/backup.tar"), "/tmp/x/backup");
    assert_eq!(untar_dir_for("/tmp/x/backup.bin"), "/tmp/x/backup.bin_extracted");
    assert_eq!(untar_dir_for("data"), "data_extracted");
}

#[test]
fn names_shown_for_headers() {
    assert_eq!(compression_name(CompressionAlgo::Uncompressed), "None");
    assert_eq!(compression_name(CompressionAlgo::Zstd), "Zstd");
    let f = Fido2Recipient {
        credential_id: vec![],
        rp_id: "qsafe.local".into(),
        hmac_salt: vec![],
        user_verification_required: false,
        nonce: vec![],
        encrypted_file_key: vec![],
        label: Some("yubikey".into()),
    };
    assert_eq!(recipient_kind(&Recipient::Fido2(f)), "FIDO2 (yubikey)");
    let p = PasswordRecipient {
        salt: vec![],
        argon2_m_kib: 1,
        argon2_t: 1,
        argon2_p: 1,
        nonce: vec![],
        encrypted_file_key: vec![],
    };
    assert_eq!(recipient_kind(&Recipient::Password(p)), "Password (Argon2id)");
    let t = TimelockRecipient { drand_chain_hash: String::new(), round: 0, unlock_at_unix: 0, tlock_envelope: vec![] };
    assert_eq!(recipient_kind(&Recipient::Timelock(t)), "Timelock");
}

fn entry(name: &str, is_dir: bool, size: u64) -> DirEntry {
    let (is_qsafe, is_archive) = entry_marks(name, is_dir);
    DirEntry {
        name: name.to_string(),
        path: format!("/x/{}", name),
        is_dir,
        size,
        modified_unix: 0,
        is_qsafe,
        is_archive,
    }
}

#[test]
fn entries_marked() {
    assert_eq!(entry_marks("Report.QS", false), (true, false));
    assert_eq!(entry_marks("photos.TAR.GZ", false), (false, true));
    assert_eq!(entry_marks("old.zip", true), (false, false));
    assert_eq!(entry_marks("notes.txt", false), (false, false));
    assert!(is_hidden(".git"));
    assert!(!is_hidden("git"));
}

#[test]
fn listing_sorted_folders_first_then_name() {
    let es = vec![
        entry("b.txt", false, 1),
        entry("Zeta", true, 0),
        entry("a.txt", false, 2),
        entry("alpha", true, 0),
        entry("B.txt", false, 3),
    ];
    let sorted = sort_entries(es);
    let names: Vec<(String, u64)> = sorted.iter().map(|e| (e.name.clone(), e.size)).collect();
    assert_eq!(
        names,
        vec![
            ("alpha".to_string(), 0),
            ("Zeta".to_string(), 0),
            ("a.txt".to_string(), 2),
            ("b.txt".to_string(), 1),
            ("B.txt".to_string(), 3),
        ]
    );
}

#[test]
fn sfx_output_names() {
    assert_eq!(sfx_output_path("/home/me/report.pdf.run", 0), "/home/me/report.pdf");
    assert_eq!(sfx_output_path("/home/me/report.pdf.run", 2), "/home/me/report.pdf-2");
    assert_eq!(sfx_output_path("report.pdf.run.exe", 0), "report.pdf");
    assert_eq!(sfx_output_path("/", 0), "/qsafe-output");
    assert_eq!(password_from_line("secret\r\n").unwrap(), "secret");
    assert_eq!(password_from_line("pass word\n").unwrap(), "pass word");
    assert!(password_from_line("\n").is_err());
    assert!(password_from_line("").is_err());
}

#[test]
fn small_cli_helpers() {
    assert!(valid_credential_name("yubikey-main"));
    assert!(!valid_credential_name(""));
    assert!(!valid_credential_name("a/b"));
    assert!(!valid_credential_name("a\\b"));
    assert_eq!(credential_id_short("0123456789abcdef0123"), "0123456789abcdef");
    assert_eq!(credential_id_short("abc"), "abc");
    assert_eq!(migrate_output_for("/data/old.cl"), "/data/old.migrated.qs");
    assert_eq!(extract_dir_for("/tmp/photos.zip"), "photos");
    assert_eq!(extract_dir_for("/tmp/archive.tar.gz"), "archive.tar");
    let mut bytes = qsafe::format::MAGIC.to_vec();
    assert!(has_qsafe_magic(&bytes));
    assert!(!has_qsafe_magic(&bytes[..7]));
    bytes[0] = 0;
    assert!(!has_qsafe_magic(&bytes));
    assert_eq!(
        header_summary(2, 1024, qsafe::format::CipherSuite::V1Xchacha20Blake3),
        "2 recipients · 1024 bytes original · suite=V1Xchacha20Blake3"
    );
}

#[test]
fn mnemonic_info_of_generated_phrase() {
    let m = GeneratedMnemonic::random(12).unwrap();
    let phrase = m.words().join(" ");
    let info = mnemonic_info(&format!("  {}  ", phrase)).unwrap();
    assert_eq!(info.word_count, 12);
    assert_eq!(info.entropy_len, 16);
    assert_eq!(info.fingerprint.len(), 16);
    assert!(mnemonic_info("not a phrase").unwrap_err().starts_with("파싱 실패: "));
}

#[test]
fn error_messages() {
    assert_eq!(CoreError::IntegrityFailed.message(), "integrity check failed");
    assert_eq!(
        CoreError::SizeMismatch { expected: 10, got: 7 }.message(),
        "decompressed size mismatch (expected 10, got 7)"
    );
    assert_eq!(
        CoreError::UnsupportedCompression(CompressionAlgo::Bzip3).message(),
        "unsupported compression algorithm: Bzip3"
    );
    assert_eq!(CoreError::InvalidHeaderField("payload_nonce length").message(), "invalid header field: payload_nonce length");
    assert_eq!(FormatError::Gzip("bad".into()).message(), "gzip error: bad");
    assert_eq!(
        ShamirError::InvalidThreshold { m: 1, n: 3 }.message(),
        "invalid threshold: M=1, N=3 (need 2 ≤ M ≤ N ≤ 255)"
    );
    assert_eq!(
        SfxError::InvalidFooter { payload: 99, file: 20 }.message(),
        "invalid SFX footer (payload size 99 exceeds file size 20)"
    );
}

#[test]
fn single_file_outputs() {
    assert_eq!(single_file_output("/in/file.txt.gz", "/out").unwrap(), "/out/file.txt");
    assert_eq!(single_file_output("data.xz", "/").unwrap(), "/data");
    assert!(single_file_output("/", "/out").is_err());
}

fn two_recipient_header() -> FileHeader {
    let mut h = FileHeader::new(CipherSuite::V1Xchacha20Blake3, CompressionAlgo::Zstd);
    h.original_size = 1234;
    h.created_at_unix = 1_700_000_000;
    h.label = Some("taxes".to_string());
    h.recipients.push(Recipient::Password(PasswordRecipient {
        salt: vec![],
        argon2_m_kib: 1,
        argon2_t: 1,
        argon2_p: 1,
        nonce: vec![],
        encrypted_file_key: vec![],
    }));
    h.recipients.push(Recipient::Timelock(TimelockRecipient {
        drand_chain_hash: String::new(),
        round: 0,
        unlock_at_unix: 0,
        tlock_envelope: vec![],
    }));
    h
}

#[test]
fn qsafe_info_lists_header() {
    let h = two_recipient_header();
    let info = qsafe_info_of("/d/a.qs".to_string(), 999, &h);
    assert_eq!(info.path, "/d/a.qs");
    assert_eq!(info.size, 999);
    assert_eq!(info.format, "qsafe (.qs)");
    assert_eq!(info.cipher_suite.as_deref(), Some("V1Xchacha20Blake3"));
    assert_eq!(info.compression.as_deref(), Some("Zstd"));
    assert_eq!(info.recipients, vec!["Password (Argon2id)".to_string(), "Timelock".to_string()]);
    assert_eq!(info.original_size, 1234);
    assert_eq!(info.label.as_deref(), Some("taxes"));
    assert_eq!(info.created_at_unix, 1_700_000_000);
}

#[test]
fn file_info_kinds() {
    let h = two_recipient_header();
    let mut head = MAGIC.to_vec();
    head.extend_from_slice(&[0, 0, 0, 0]);
    let qs = file_info_of("/d/a.qs".to_string(), 12, &head, Some(&h));
    assert_eq!(qs.kind, "qsafe");
    assert_eq!(qs.header_summary.as_deref(), Some("2 recipients · 1234 bytes original · suite=V1Xchacha20Blake3"));
    let streaming = file_info_of("/d/b.qs".to_string(), 12, &head, None);
    assert_eq!(streaming.kind, "qsafe");
    assert_eq!(streaming.header_summary.as_deref(), Some("qsafe streaming format"));
    let plain = file_info_of("/d/c.txt".to_string(), 3, b"abc", None);
    assert_eq!(plain.kind, "plain");
    assert_eq!(plain.header_summary, None);
    assert_eq!(plain.size, 3);
}

#[test]
fn dir_listing_sorts_entries() {
    let listing = dir_listing(
        "/x".to_string(),
        Some("/".to_string()),
        vec![entry("b.txt", false, 1), entry("docs", true, 0), entry("A.qs", false, 2)],
    );
    assert_eq!(listing.current_path, "/x");
    assert_eq!(listing.parent_path.as_deref(), Some("/"));
    let names: Vec<&str> = listing.entries.iter().map(|e| e.name.as_str()).collect();
    assert_eq!(names, vec!["docs", "A.qs", "b.txt"]);
    assert!(listing.entries[1].is_qsafe);
}

#[test]
fn diskutil_listing_read() {
    let text = "/dev/disk4 (external, physical):\n   #:                       TYPE NAME                    SIZE       IDENTIFIER\n   0:      GUID_partition_scheme                        *15.5 GB    disk4\n   1:                        EFI EFI                     209.7 MB   disk4s1\n\n/dev/disk5 (external, physical):\n   1:                  Apple_HFS Stick                   *8.0 GB     disk5s1\n";
    let disks = qsafe::disks::diskutil_disks(text);
    assert_eq!(disks.len(), 2);
    assert_eq!(disks[0].id, "/dev/disk4");
    assert_eq!(disks[0].label, "USB Disk");
    assert_eq!(disks[0].size_text, "15.5");
    assert_eq!(disks[1].id, "/dev/disk5");
    assert_eq!(disks[1].label, "");
    assert_eq!(disks[1].size_text, "8.0");
    assert!(qsafe::disks::diskutil_disks("nothing external\n").is_empty());
}

#[test]
fn windows_disks_named() {
    let d = qsafe::disks::windows_disk(1, Some("SanDisk Cruzer".to_string()), 16_000_000_000);
    assert_eq!(d.id, "\\\\.\\PhysicalDrive1");
    assert_eq!(d.label, "SanDisk Cruzer");
    assert!(d.removable && !d.is_system && d.mount_points.is_empty());
    assert_eq!(qsafe::disks::windows_disk(12, None, 0).label, "USB Drive");
}

#[test]
fn raw_devices_and_dd_args() {
    assert_eq!(qsafe::disks::raw_device_of("/dev/disk4"), "/dev/rdisk4");
    assert_eq!(qsafe::disks::raw_device_of("/dev/disk4/dev/disk5"), "/dev/rdisk4/dev/disk5");
    assert_eq!(qsafe::disks::raw_device_of("/dev/sdb"), "/dev/sdb");
    assert_eq!(
        qsafe::disks::dd_args("/x/a.iso", "/dev/rdisk4"),
        vec!["if=/x/a.iso".to_string(), "of=/dev/rdisk4".to_string(), "bs=4m".to_string(), "status=progress".to_string()]
    );
}

#[test]
fn chosen_disk_passes_the_second_check() {
    let disks = vec![disk("/dev/sdb", 8_000, false), disk("/dev/sdc", 16_000, false)];
    let token = qsafe::gui::confirm_token_for("/dev/sdc", 16_000);
    let i = choose_iso_disk(&disks, "/dev/sdc", &token).unwrap();
    assert_eq!(i, 1);
    assert!(disk_still_safe(&disks, &disks[i].id, &token));
}

#[test]
fn iso_write_acceptance() {
    let ds = vec![disk("/dev/sdb", 1000, false), disk("/dev/sdc", 2000, true)];
    assert_eq!(accept_iso_write(&ds, "/dev/sdb", "/dev/sdb:1000", 1000), Ok(0));
    assert_eq!(accept_iso_write(&ds, "/dev/sdb", "/dev/sdb:1000", 0).unwrap_err(), "ISO 파일이 비어 있습니다");
    assert_eq!(
        accept_iso_write(&ds, "/dev/sdb", "/dev/sdb:1000", 1001).unwrap_err(),
        "ISO(1001 bytes)가 디스크(1000 bytes)보다 큽니다"
    );
    assert_eq!(accept_iso_write(&ds, "/dev/sdc", "/dev/sdc:2000", 10).unwrap_err(), "시스템/부팅 디스크에는 쓸 수 없습니다");
    assert!(accept_iso_write(&ds, "/dev/sdz", "/dev/sdz:1", 1).is_err());
}

#[test]
fn delete_and_unpack_reports() {
    let d = delete_result("/tmp/x".to_string(), true, 10, 3);
    assert_eq!((d.deleted_path.as_str(), d.kind.as_str(), d.size_bytes, d.item_count), ("/tmp/x", "directory", 10, 3));
    assert_eq!(delete_result("/tmp/y".to_string(), false, 5, 1).kind, "file");
    let base = || UnpackResult { output_path: "/o".to_string(), bytes_written: 7, untarred_dir: None, file_count: 0 };
    let r = unpack_ext_result(base(), Some("ABCD".to_string()), Some("/o.md5".to_string()), Some("abcd".to_string()));
    assert_eq!(r.original_md5_matches, Some(true));
    assert_eq!(r.output_path, "/o");
    assert_eq!(r.md5_file_path.as_deref(), Some("/o.md5"));
    let r = unpack_ext_result(base(), Some("abce".to_string()), None, Some("abcd".to_string()));
    assert_eq!(r.original_md5_matches, Some(false));
    let r = unpack_ext_result(base(), None, None, Some("abcd".to_string()));
    assert_eq!(r.original_md5_matches, None);
    assert_eq!(r.original_md5_value.as_deref(), Some("abcd"));
}
