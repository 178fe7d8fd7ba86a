//! What the application lists of an archive from another tool, and what a
//! preview extraction of one entry gives.
use vstd::prelude::*;

use crate::formats::detect::{format_name, ExternalFormat};
use crate::primitives::string_from_chars;
use crate::text::push_str;

verus! {

/// An entry of a RAR archive, as listing it gives.
#[derive(Debug, Clone)]
pub struct RarEntry {
    pub filename: String,
    pub unpacked_size: u64,
    pub is_directory: bool,
    pub is_encrypted: bool,
}

/// An entry of an archive listing.
#[derive(Debug, Clone)]
pub struct ArchiveEntry {
    pub name: String,
    pub size: u64,
    pub is_dir: bool,
    pub is_encrypted: bool,
}

/// The listing of an archive: its path, its format's name, and its entries
/// (RAR archives only).
#[derive(Debug)]
pub struct ArchiveListing {
    pub path: String,
    pub format: String,
    pub entries: Vec<ArchiveEntry>,
}

/// One entry extracted for a preview, in a temporary folder of its own.
#[derive(Debug)]
pub struct TempExtraction {
    /// The extracted file.
    pub extracted_path: String,
    /// The temporary folder that holds it.
    pub temp_dir: String,
}

/// The largest entry a preview extracts (2 GiB).
pub const PREVIEW_MAX_SIZE: u64 = 2147483648;

/// Whether a listing entry shows a RAR entry.
pub open spec fn shows_rar_entry(a: ArchiveEntry, r: RarEntry) -> bool {
    a.name@ == r.filename@ && a.size == r.unpacked_size && a.is_dir == r.is_directory && a.is_encrypted
        == r.is_encrypted
}

/// The listing of the archive at `path` in format `format`; `rar_entries`
/// is what listing it as RAR gave. Only a RAR archive has its entries listed.
pub fn archive_listing(path: String, format: ExternalFormat, rar_entries: &Vec<RarEntry>) -> (res: ArchiveListing)
    ensures
        res.path@ == path@,
        res.format@ == format_name(format)@,
        format == ExternalFormat::Rar ==> res.entries@.len() == rar_entries@.len() && forall|i: int|
            0 <= i < rar_entries@.len() ==> shows_rar_entry(#[trigger] res.entries@[i], rar_entries@[i]),
        format != ExternalFormat::Rar ==> res.entries@.len() == 0,
{
    let mut entries: Vec<ArchiveEntry> = Vec::new();
    if format == ExternalFormat::Rar {
        let mut i: usize = 0;
        while i < rar_entries.len()
            invariant
                i <= rar_entries@.len(),
                entries@.len() == i,
                forall|j: int| 0 <= j < i ==> shows_rar_entry(#[trigger] entries@[j], rar_entries@[j]),
            decreases rar_entries@.len() - i,
        {
            let e = &rar_entries[i];
            entries.push(ArchiveEntry {
                name: e.filename.clone(),
                size: e.unpacked_size,
                is_dir: e.is_directory,
                is_encrypted: e.is_encrypted,
            });
            i = i + 1;
        }
    }
    ArchiveListing { path, format: format.name().to_string(), entries }
}

/// Only RAR archives have single entries extracted for a preview; for any
/// other format the error names it.
pub fn check_single_entry_format(format: ExternalFormat) -> (res: Result<(), String>)
    ensures
        res is Ok <==> format == ExternalFormat::Rar,
        res matches Err(m) ==> m@ == format_name(format)@ + " 포맷은 단일 entry 추출을 지원하지 않습니다"@,
{
    if format == ExternalFormat::Rar {
        return Ok(());
    }
    let mut msg: Vec<char> = Vec::new();
    push_str(&mut msg, format.name());
    push_str(&mut msg, " 포맷은 단일 entry 추출을 지원하지 않습니다");
    Err(string_from_chars(&msg))
}

} // verus!
