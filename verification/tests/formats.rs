use qsafe::compress::{Compressor, ZstdCompressor};
use qsafe::error::FormatError;
use qsafe::formats::detect::{detect_format, ExternalFormat};
use qsafe::formats::path_safety::{check_bomb_ratio, sanitize_archive_path};
use qsafe::formats::{bz2, gz, lz4, xz, zstd_fmt};

#[test]
fn detect_qsafe() {
    assert_eq!(detect_format(b"QSAFE001..."), ExternalFormat::Qsafe);
}

#[test]
fn detect_rar5() {
    let mut bytes = Vec::from(*b"Rar!\x1a\x07\x01\x00");
    bytes.extend_from_slice(&[0u8; 100]);
    assert_eq!(detect_format(&bytes), ExternalFormat::Rar);
}

#[test]
fn detect_rar4() {
    let mut bytes = Vec::from(*b"Rar!\x1a\x07\x00");
    bytes.extend_from_slice(&[0u8; 100]);
    assert_eq!(detect_format(&bytes), ExternalFormat::Rar);
}

#[test]
fn detect_zip() {
    assert_eq!(detect_format(b"PK\x03\x04...."), ExternalFormat::Zip);
}

#[test]
fn detect_gzip() {
    assert_eq!(detect_format(b"\x1f\x8b\x08\x00..."), ExternalFormat::Gzip);
}

#[test]
fn detect_xz() {
    assert_eq!(detect_format(b"\xfd7zXZ\x00..."), ExternalFormat::Xz);
}

#[test]
fn detect_bzip2() {
    assert_eq!(detect_format(b"BZh91AY&SY"), ExternalFormat::Bzip2);
}

#[test]
fn detect_7z() {
    let mut bytes = Vec::from(*b"7z\xbc\xaf\x27\x1c");
    bytes.extend_from_slice(&[0u8; 10]);
    assert_eq!(detect_format(&bytes), ExternalFormat::SevenZ);
}

#[test]
fn detect_unknown() {
    assert_eq!(detect_format(b"\xff\xff\xff\xff..."), ExternalFormat::Unknown);
}

#[test]
fn detect_short_lz4_zstd_tar() {
    assert_eq!(detect_format(b"QSA"), ExternalFormat::Unknown);
    assert_eq!(detect_format(b"\x04\x22\x4d\x18xx"), ExternalFormat::Lz4Frame);
    assert_eq!(detect_format(b"\x28\xb5\x2f\xfdxx"), ExternalFormat::Zstd);
    assert_eq!(detect_format(b"PK\x05\x06"), ExternalFormat::Zip);
    let mut tar = vec![0u8; 300];
    tar[257..262].copy_from_slice(b"ustar");
    assert_eq!(detect_format(&tar), ExternalFormat::Tar);
    assert_eq!(detect_format(&tar[..262]), ExternalFormat::Unknown);
}

#[test]
fn rar_cannot_create() {
    assert!(!ExternalFormat::Rar.can_create());
    assert!(ExternalFormat::Rar.can_extract());
}

#[test]
fn zip_can_both() {
    assert!(ExternalFormat::Zip.can_create());
    assert!(ExternalFormat::Zip.can_extract());
}

#[test]
fn format_names() {
    assert_eq!(ExternalFormat::SevenZ.name(), "7z");
    assert_eq!(ExternalFormat::Lz4Frame.name(), "lz4");
    assert_eq!(ExternalFormat::Unknown.name(), "unknown");
    assert!(!ExternalFormat::Unknown.can_extract());
    assert!(!ExternalFormat::Unknown.can_create());
}

#[test]
fn sanitize_keeps_normal_entries() {
    assert_eq!(sanitize_archive_path("dir/file.txt", "/out").unwrap(), "/out/dir/file.txt");
    assert_eq!(sanitize_archive_path("./a//b/./c", "/out/").unwrap(), "/out/a/b/c");
}

#[test]
fn sanitize_blocks_traversal_and_absolute() {
    assert!(matches!(sanitize_archive_path("../etc/passwd", "/out"), Err(FormatError::PathTraversal(_))));
    assert!(matches!(sanitize_archive_path("a/../../x", "/out"), Err(FormatError::PathTraversal(_))));
    assert!(matches!(sanitize_archive_path("/etc/passwd", "/out"), Err(FormatError::PathTraversal(_))));
    match sanitize_archive_path("", "/out") {
        Err(FormatError::PathTraversal(m)) => assert_eq!(m, "(empty)"),
        other => panic!("{:?}", other),
    }
}

#[test]
fn bomb_ratio_check() {
    assert!(check_bomb_ratio(0, 1_000_000, 10).is_ok());
    assert!(check_bomb_ratio(10, 100, 10).is_ok());
    match check_bomb_ratio(10, 111, 10) {
        Err(FormatError::BombDetected { ratio, limit }) => {
            assert_eq!(ratio, 11);
            assert_eq!(limit, 10);
        }
        other => panic!("{:?}", other),
    }
}

#[test]
fn gzip_roundtrip_and_errors() {
    let data = b"gzip me please".repeat(10);
    let packed = gz::compress_buf(&data, 6).unwrap();
    assert_eq!(detect_format(&packed), ExternalFormat::Gzip);
    assert_ne!(packed, data);
    assert_eq!(gz::decompress_buf(&packed).unwrap(), data);
    assert!(matches!(gz::decompress_buf(b"nope"), Err(FormatError::Gzip(_))));
    assert!(matches!(xz::decompress_buf(b"nope"), Err(FormatError::Xz(_))));
    assert!(matches!(zstd_fmt::decompress_buf(b"nope"), Err(FormatError::Zstd(_))));
}

#[test]
fn ruzstd_reads_zstd_frames() {
    let data = b"zstd frame".repeat(20);
    let frame = ZstdCompressor::new(3).compress(&data).unwrap();
    assert_eq!(zstd_fmt::decompress_buf(&frame).unwrap(), data);
}

#[test]
fn extract_only_formats_cannot_be_created() {
    for f in [ExternalFormat::SevenZ, ExternalFormat::Xz, ExternalFormat::Bzip2, ExternalFormat::Zstd] {
        assert!(!f.can_create());
        assert!(f.can_extract());
    }
    for f in [ExternalFormat::Qsafe, ExternalFormat::Gzip, ExternalFormat::Lz4Frame, ExternalFormat::Tar] {
        assert!(f.can_create());
    }
}

#[test]
fn bomb_ratio_uses_the_whole_number_ratio() {
    assert!(check_bomb_ratio(10, 10009, 1000).is_ok());
    match check_bomb_ratio(10, 10010, 1000) {
        Err(FormatError::BombDetected { ratio, limit }) => {
            assert_eq!(ratio, 1001);
            assert_eq!(limit, 1000);
        }
        other => panic!("{:?}", other),
    }
    assert!(check_bomb_ratio(u64::MAX, u64::MAX, u64::MAX).is_ok());
}

#[test]
fn bzip2_decodes_and_refuses_garbage() {
    let packed: Vec<u8> = vec![
        66, 90, 104, 57, 49, 65, 89, 38, 83, 89, 171, 107, 161, 241, 0, 0, 2, 217, 128, 0, 16, 64, 0, 16, 0, 18, 100,
        192, 16, 32, 0, 49, 0, 211, 77, 4, 0, 30, 163, 239, 78, 81, 162, 7, 139, 185, 34, 156, 40, 72, 85, 181, 208,
        248, 128,
    ];
    assert_eq!(detect_format(&packed), ExternalFormat::Bzip2);
    assert_eq!(bz2::decompress_buf(&packed).unwrap(), b"hello bzip2\n".to_vec());
    assert!(matches!(bz2::decompress_buf(b"BZh9 not really"), Err(FormatError::Bzip2(_))));
}

#[test]
fn lz4_roundtrip_and_errors() {
    let data = b"lz4 frame content ".repeat(40);
    let packed = lz4::compress_buf(&data).unwrap();
    assert_eq!(detect_format(&packed), ExternalFormat::Lz4Frame);
    assert_ne!(packed, data);
    assert_eq!(lz4::decompress_buf(&packed).unwrap(), data);
    assert!(matches!(lz4::decompress_buf(b"\x04\x22\x4d\x18garbage"), Err(FormatError::Lz4(_))));
}

#[test]
fn windows_style_entry_names_are_checked_too() {
    assert!(matches!(sanitize_archive_path("..\\..\\evil", "/out"), Err(FormatError::PathTraversal(_))));
    assert!(matches!(sanitize_archive_path("C:\\Windows\\x", "/out"), Err(FormatError::PathTraversal(_))));
    assert!(matches!(sanitize_archive_path("c:evil", "/out"), Err(FormatError::PathTraversal(_))));
    assert!(matches!(sanitize_archive_path("\\server\\share\\x", "/out"), Err(FormatError::PathTraversal(_))));
    assert!(matches!(sanitize_archive_path("a\\..\\..\\x", "/out"), Err(FormatError::PathTraversal(_))));
    assert_eq!(sanitize_archive_path("dir\\sub\\file.txt", "/out").unwrap(), "/out/dir/sub/file.txt");
    assert_eq!(sanitize_archive_path("1:2/x", "/out").unwrap(), "/out/1:2/x");
}
