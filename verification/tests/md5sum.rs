use md5::Digest;
use qsafe::md5sum::{file_md5_hex, folder_md5_hex, parent_byte_len, FolderFile};
use std::path::Path;

fn md5_hex(data: &[u8]) -> String {
    hex::encode(md5::Md5::digest(data))
}

#[test]
fn file_digest_matches_md5() {
    assert_eq!(file_md5_hex(b""), "d41d8cd98f00b204e9800998ecf8427e");
    assert_eq!(file_md5_hex(b"abc"), "900150983cd24fb0d6963f7d28e17f72");
}

#[test]
fn parent_lengths_match_std() {
    for p in [
        "/a/b", "/a/b/", "/a//b//", "/a/./b", "/a/b/.", "/", "", "a", "a/b", "./a", "./", ".", "..", "../x",
        "/a/..", "a/../b", "//x", "/é/ü", "/tmp/qsafe-info-1", "x/./", "./.", "a/.//b",
    ] {
        let expected = Path::new(p).parent().map(|q| q.as_os_str().len());
        assert_eq!(parent_byte_len(p), expected, "parent of {:?}", p);
    }
}

#[test]
fn folder_digest_sorts_and_names_files() {
    let files = vec![
        FolderFile { path: "/home/u/docs/b.txt".to_string(), data: b"B".to_vec() },
        FolderFile { path: "/home/u/docs/a/z.txt".to_string(), data: b"Z".to_vec() },
        FolderFile { path: "/home/u/docs/a.txt".to_string(), data: vec![] },
    ];
    let mut stream = Vec::new();
    // By component, "a" (a folder) comes before "a.txt".
    for (rel, data) in [("docs/a/z.txt", &b"Z"[..]), ("docs/a.txt", &b""[..]), ("docs/b.txt", &b"B"[..])] {
        stream.extend_from_slice(rel.as_bytes());
        stream.push(b'\n');
        stream.extend_from_slice(data);
        stream.push(b'\n');
    }
    assert_eq!(folder_md5_hex("/home/u/docs", &files), md5_hex(&stream));
    let mut reversed = files.clone();
    reversed.reverse();
    assert_eq!(folder_md5_hex("/home/u/docs", &reversed), md5_hex(&stream));
}

#[test]
fn folder_digest_path_order_is_by_component() {
    // "a/z" sorts before "a.txt" by component ("a" < "a.txt"), unlike plain text order.
    let mut paths = vec!["/d/a.txt", "/d/a/z", "/d/a-b"];
    let mut by_path: Vec<&Path> = paths.iter().map(|p| Path::new(*p)).collect();
    by_path.sort();
    let expected: Vec<&str> = by_path.iter().map(|p| p.to_str().unwrap()).collect();
    paths.sort();
    assert_ne!(paths, expected);
    let files: Vec<FolderFile> =
        ["/d/a.txt", "/d/a/z", "/d/a-b"].iter().map(|p| FolderFile { path: p.to_string(), data: vec![] }).collect();
    let mut stream = Vec::new();
    for p in &expected {
        stream.extend_from_slice(p[1..].as_bytes());
        stream.extend_from_slice(b"\n\n");
    }
    // The parent of "/d" is "/", so one byte plus the separator is cut.
    let mut cut = Vec::new();
    for p in &expected {
        cut.extend_from_slice(p[2..].as_bytes());
        cut.extend_from_slice(b"\n\n");
    }
    assert_eq!(folder_md5_hex("/d", &files), md5_hex(&cut));
    assert_ne!(folder_md5_hex("/d", &files), md5_hex(&stream));
}
