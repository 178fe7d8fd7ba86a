//! Format detection from the first bytes of a file.
use vstd::prelude::*;

verus! {

/// Formats that can be told apart by their magic bytes.
#[derive(Debug, Clone, Copy, PartialEq, Eq, Structural)]
pub enum ExternalFormat {
    Qsafe,
    Rar,
    Zip,
    Gzip,
    Xz,
    Bzip2,
    SevenZ,
    Lz4Frame,
    Zstd,
    Tar,
    Unknown,
}

impl ExternalFormat {
    /// The short name of the format.
    pub fn name(&self) -> (res: &'static str)
        ensures
            res@ == format_name(*self)@,
    {
        match self {
            ExternalFormat::Qsafe => "qsafe",
            ExternalFormat::Rar => "rar",
            ExternalFormat::Zip => "zip",
            ExternalFormat::Gzip => "gzip",
            ExternalFormat::Xz => "xz",
            ExternalFormat::Bzip2 => "bzip2",
            ExternalFormat::SevenZ => "7z",
            ExternalFormat::Lz4Frame => "lz4",
            ExternalFormat::Zstd => "zstd",
            ExternalFormat::Tar => "tar",
            ExternalFormat::Unknown => "unknown",
        }
    }

    /// Every known format can be extracted.
    pub fn can_extract(&self) -> (res: bool)
        ensures
            res <==> *self != ExternalFormat::Unknown,
    {
        !matches!(self, ExternalFormat::Unknown)
    }

    /// Only qsafe, ZIP, gzip, LZ4 and tar can be created; RAR, 7z, xz, bzip2
    /// and zstd are extract-only.
    pub fn can_create(&self) -> (res: bool)
        ensures
            res <==> (*self == ExternalFormat::Qsafe || *self == ExternalFormat::Zip || *self == ExternalFormat::Gzip
                || *self == ExternalFormat::Lz4Frame || *self == ExternalFormat::Tar),
    {
        matches!(
            self,
            ExternalFormat::Qsafe | ExternalFormat::Zip | ExternalFormat::Gzip | ExternalFormat::Lz4Frame | ExternalFormat::Tar
        )
    }
}

/// The short name of a format.
pub open spec fn format_name(f: ExternalFormat) -> &'static str {
    match f {
        ExternalFormat::Qsafe => "qsafe",
        ExternalFormat::Rar => "rar",
        ExternalFormat::Zip => "zip",
        ExternalFormat::Gzip => "gzip",
        ExternalFormat::Xz => "xz",
        ExternalFormat::Bzip2 => "bzip2",
        ExternalFormat::SevenZ => "7z",
        ExternalFormat::Lz4Frame => "lz4",
        ExternalFormat::Zstd => "zstd",
        ExternalFormat::Tar => "tar",
        ExternalFormat::Unknown => "unknown",
    }
}

/// "QSAFE001".
pub const QSAFE_MAGIC: [u8; 8] = [0x51, 0x53, 0x41, 0x46, 0x45, 0x30, 0x30, 0x31];
/// RAR 5: "Rar!\x1a\x07\x01\x00".
pub const RAR5_MAGIC: [u8; 8] = [0x52, 0x61, 0x72, 0x21, 0x1a, 0x07, 0x01, 0x00];
/// RAR 4: "Rar!\x1a\x07\x00".
pub const RAR4_MAGIC: [u8; 7] = [0x52, 0x61, 0x72, 0x21, 0x1a, 0x07, 0x00];
/// ZIP local file header: "PK\x03\x04".
pub const ZIP_MAGIC: [u8; 4] = [0x50, 0x4b, 0x03, 0x04];
/// ZIP end of central directory (empty archive): "PK\x05\x06".
pub const ZIP_EMPTY_MAGIC: [u8; 4] = [0x50, 0x4b, 0x05, 0x06];
/// gzip: 1f 8b.
pub const GZIP_MAGIC: [u8; 2] = [0x1f, 0x8b];
/// xz: "\xfd7zXZ\x00".
pub const XZ_MAGIC: [u8; 6] = [0xfd, 0x37, 0x7a, 0x58, 0x5a, 0x00];
/// bzip2: "BZh".
pub const BZIP2_MAGIC: [u8; 3] = [0x42, 0x5a, 0x68];
/// 7z: "7z\xbc\xaf\x27\x1c".
pub const SEVENZ_MAGIC: [u8; 6] = [0x37, 0x7a, 0xbc, 0xaf, 0x27, 0x1c];
/// LZ4 frame: 04 22 4d 18.
pub const LZ4_MAGIC: [u8; 4] = [0x04, 0x22, 0x4d, 0x18];
/// zstd frame: 28 b5 2f fd.
pub const ZSTD_MAGIC: [u8; 4] = [0x28, 0xb5, 0x2f, 0xfd];
/// POSIX tar: "ustar\0" at offset 257.
pub const USTAR_MAGIC: [u8; 6] = [0x75, 0x73, 0x74, 0x61, 0x72, 0x00];
/// Old GNU tar: "ustar" at offset 257.
pub const USTAR_PREFIX: [u8; 5] = [0x75, 0x73, 0x74, 0x61, 0x72];

/// Whether `b` holds `m` at offset `off`.
pub open spec fn has_at(b: Seq<u8>, off: int, m: Seq<u8>) -> bool {
    b.len() >= off + m.len() && b.subrange(off, off + m.len()) == m
}

/// The format that the first bytes of a file show, checked in a fixed order;
/// fewer than 4 bytes show nothing.
pub open spec fn detected_format(b: Seq<u8>) -> ExternalFormat {
    if b.len() < 4 {
        ExternalFormat::Unknown
    } else if has_at(b, 0, QSAFE_MAGIC@) {
        ExternalFormat::Qsafe
    } else if has_at(b, 0, RAR5_MAGIC@) || has_at(b, 0, RAR4_MAGIC@) {
        ExternalFormat::Rar
    } else if has_at(b, 0, ZIP_MAGIC@) || has_at(b, 0, ZIP_EMPTY_MAGIC@) {
        ExternalFormat::Zip
    } else if has_at(b, 0, GZIP_MAGIC@) {
        ExternalFormat::Gzip
    } else if has_at(b, 0, XZ_MAGIC@) {
        ExternalFormat::Xz
    } else if has_at(b, 0, BZIP2_MAGIC@) {
        ExternalFormat::Bzip2
    } else if has_at(b, 0, SEVENZ_MAGIC@) {
        ExternalFormat::SevenZ
    } else if has_at(b, 0, LZ4_MAGIC@) {
        ExternalFormat::Lz4Frame
    } else if has_at(b, 0, ZSTD_MAGIC@) {
        ExternalFormat::Zstd
    } else if b.len() >= 263 && (has_at(b, 257, USTAR_MAGIC@) || has_at(b, 257, USTAR_PREFIX@)) {
        ExternalFormat::Tar
    } else {
        ExternalFormat::Unknown
    }
}

/// Whether `b` holds `m` at offset `off`, computed.
fn bytes_at(b: &[u8], off: usize, m: &[u8]) -> (res: bool)
    ensures
        res == has_at(b@, off as int, m@),
{
    if b.len() < m.len() || b.len() - m.len() < off {
        return false;
    }
    let mut i: usize = 0;
    while i < m.len()
        invariant
            i <= m@.len(),
            off + m@.len() <= b.len(),
            forall|j: int| 0 <= j < i ==> b@[off + j] == m@[j],
        decreases m@.len() - i,
    {
        if b[off + i] != m[i] {
            assert(b@.subrange(off as int, off + m@.len())[i as int] != m@[i as int]);
            return false;
        }
        i = i + 1;
    }
    assert(b@.subrange(off as int, off + m@.len()) =~= m@);
    true
}

/// Detects the format of a file from its first bytes.
pub fn detect_format(bytes: &[u8]) -> (res: ExternalFormat)
    ensures
        res == detected_format(bytes@),
{
    if bytes.len() < 4 {
        return ExternalFormat::Unknown;
    }
    if bytes_at(bytes, 0, &QSAFE_MAGIC) {
        return ExternalFormat::Qsafe;
    }
    if bytes_at(bytes, 0, &RAR5_MAGIC) || bytes_at(bytes, 0, &RAR4_MAGIC) {
        return ExternalFormat::Rar;
    }
    if bytes_at(bytes, 0, &ZIP_MAGIC) || bytes_at(bytes, 0, &ZIP_EMPTY_MAGIC) {
        return ExternalFormat::Zip;
    }
    if bytes_at(bytes, 0, &GZIP_MAGIC) {
        return ExternalFormat::Gzip;
    }
    if bytes_at(bytes, 0, &XZ_MAGIC) {
        return ExternalFormat::Xz;
    }
    if bytes_at(bytes, 0, &BZIP2_MAGIC) {
        return ExternalFormat::Bzip2;
    }
    if bytes_at(bytes, 0, &SEVENZ_MAGIC) {
        return ExternalFormat::SevenZ;
    }
    if bytes_at(bytes, 0, &LZ4_MAGIC) {
        return ExternalFormat::Lz4Frame;
    }
    if bytes_at(bytes, 0, &ZSTD_MAGIC) {
        return ExternalFormat::Zstd;
    }
    if bytes.len() >= 263 && (bytes_at(bytes, 257, &USTAR_MAGIC) || bytes_at(bytes, 257, &USTAR_PREFIX)) {
        return ExternalFormat::Tar;
    }
    ExternalFormat::Unknown
}

/// A tar header is recognised by the `ustar` at offset 257 whatever byte
/// follows it: POSIX tar writes `ustar\0`, GNU tar in its default format
/// `ustar  \0`. Any input of at least 263 bytes with `ustar` at offset 257
/// and no other format's signature at its start is tar.
pub proof fn lemma_ustar_header_is_tar(b: Seq<u8>)
    requires
        b.len() >= 263,
        b[257] == 0x75u8,
        b[258] == 0x73u8,
        b[259] == 0x74u8,
        b[260] == 0x61u8,
        b[261] == 0x72u8,
        !has_at(b, 0, QSAFE_MAGIC@),
        !has_at(b, 0, RAR5_MAGIC@),
        !has_at(b, 0, RAR4_MAGIC@),
        !has_at(b, 0, ZIP_MAGIC@),
        !has_at(b, 0, ZIP_EMPTY_MAGIC@),
        !has_at(b, 0, GZIP_MAGIC@),
        !has_at(b, 0, XZ_MAGIC@),
        !has_at(b, 0, BZIP2_MAGIC@),
        !has_at(b, 0, SEVENZ_MAGIC@),
        !has_at(b, 0, LZ4_MAGIC@),
        !has_at(b, 0, ZSTD_MAGIC@),
    ensures
        detected_format(b) == ExternalFormat::Tar,
{
    assert(b.subrange(257, 262) =~= seq![0x75u8, 0x73u8, 0x74u8, 0x61u8, 0x72u8]);
    assert(USTAR_PREFIX@ =~= seq![0x75u8, 0x73u8, 0x74u8, 0x61u8, 0x72u8]);
}

/// A file that starts with a format's signature is detected as that format
/// (the signatures begin with different bytes, so none hides another, and
/// RAR 4 and RAR 5 share the format), and fewer than four bytes show no
/// format.
pub proof fn lemma_signature_detected(b: Seq<u8>)
    ensures
        b.len() < 4 ==> detected_format(b) == ExternalFormat::Unknown,
        b.len() >= 4 && has_at(b, 0, QSAFE_MAGIC@) ==> detected_format(b) == ExternalFormat::Qsafe,
        b.len() >= 4 && (has_at(b, 0, RAR5_MAGIC@) || has_at(b, 0, RAR4_MAGIC@)) ==> detected_format(b) == ExternalFormat::Rar,
        b.len() >= 4 && (has_at(b, 0, ZIP_MAGIC@) || has_at(b, 0, ZIP_EMPTY_MAGIC@)) ==> detected_format(b) == ExternalFormat::Zip,
        b.len() >= 4 && has_at(b, 0, GZIP_MAGIC@) ==> detected_format(b) == ExternalFormat::Gzip,
        b.len() >= 4 && has_at(b, 0, XZ_MAGIC@) ==> detected_format(b) == ExternalFormat::Xz,
        b.len() >= 4 && has_at(b, 0, BZIP2_MAGIC@) ==> detected_format(b) == ExternalFormat::Bzip2,
        b.len() >= 4 && has_at(b, 0, SEVENZ_MAGIC@) ==> detected_format(b) == ExternalFormat::SevenZ,
        b.len() >= 4 && has_at(b, 0, LZ4_MAGIC@) ==> detected_format(b) == ExternalFormat::Lz4Frame,
        b.len() >= 4 && has_at(b, 0, ZSTD_MAGIC@) ==> detected_format(b) == ExternalFormat::Zstd,
{
    if b.len() >= 4 {
        let first = b[0];
        assert(has_at(b, 0, QSAFE_MAGIC@) ==> first == 0x51u8) by {
            if has_at(b, 0, QSAFE_MAGIC@) {
                assert(b.subrange(0, 8)[0] == QSAFE_MAGIC@[0]);
            }
        }
        assert(has_at(b, 0, RAR5_MAGIC@) ==> first == 0x52u8) by {
            if has_at(b, 0, RAR5_MAGIC@) {
                assert(b.subrange(0, 8)[0] == RAR5_MAGIC@[0]);
            }
        }
        assert(has_at(b, 0, RAR4_MAGIC@) ==> first == 0x52u8) by {
            if has_at(b, 0, RAR4_MAGIC@) {
                assert(b.subrange(0, 7)[0] == RAR4_MAGIC@[0]);
            }
        }
        assert(has_at(b, 0, ZIP_MAGIC@) ==> first == 0x50u8) by {
            if has_at(b, 0, ZIP_MAGIC@) {
                assert(b.subrange(0, 4)[0] == ZIP_MAGIC@[0]);
            }
        }
        assert(has_at(b, 0, ZIP_EMPTY_MAGIC@) ==> first == 0x50u8) by {
            if has_at(b, 0, ZIP_EMPTY_MAGIC@) {
                assert(b.subrange(0, 4)[0] == ZIP_EMPTY_MAGIC@[0]);
            }
        }
        assert(has_at(b, 0, GZIP_MAGIC@) ==> first == 0x1fu8) by {
            if has_at(b, 0, GZIP_MAGIC@) {
                assert(b.subrange(0, 2)[0] == GZIP_MAGIC@[0]);
            }
        }
        assert(has_at(b, 0, XZ_MAGIC@) ==> first == 0xfdu8) by {
            if has_at(b, 0, XZ_MAGIC@) {
                assert(b.subrange(0, 6)[0] == XZ_MAGIC@[0]);
            }
        }
        assert(has_at(b, 0, BZIP2_MAGIC@) ==> first == 0x42u8) by {
            if has_at(b, 0, BZIP2_MAGIC@) {
                assert(b.subrange(0, 3)[0] == BZIP2_MAGIC@[0]);
            }
        }
        assert(has_at(b, 0, SEVENZ_MAGIC@) ==> first == 0x37u8) by {
            if has_at(b, 0, SEVENZ_MAGIC@) {
                assert(b.subrange(0, 6)[0] == SEVENZ_MAGIC@[0]);
            }
        }
        assert(has_at(b, 0, LZ4_MAGIC@) ==> first == 0x04u8) by {
            if has_at(b, 0, LZ4_MAGIC@) {
                assert(b.subrange(0, 4)[0] == LZ4_MAGIC@[0]);
            }
        }
        assert(has_at(b, 0, ZSTD_MAGIC@) ==> first == 0x28u8) by {
            if has_at(b, 0, ZSTD_MAGIC@) {
                assert(b.subrange(0, 4)[0] == ZSTD_MAGIC@[0]);
            }
        }
    }
}

} // verus!
