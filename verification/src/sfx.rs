//! Self-extracting files: a stub binary followed by a qsafe file and a
//! 16-byte footer.
//!
//! ```text
//! [STUB BINARY        ]
//! [QSAFE .qs PAYLOAD  ]
//! [PAYLOAD_LEN u64 LE ]
//! [SFX_MAGIC 8 bytes  ]  "QSAFESFX"
//! ```
use vstd::prelude::*;

use crate::bytes::{append_bytes, le_bytes, le_value, lemma_le_bytes_len, lemma_le_roundtrip, lemma_pow256_values, push_le, read_le};
use crate::error::SfxError;
use crate::paths::{dir_part, file_name, is_file_name_exec, push_chars, split_ext, split_ext_exec, split_path};
use crate::primitives::{chars_of, string_from_chars};
use crate::text::{dec_nat, push_dec_u64, push_str};

verus! {

/// The footer magic: "QSAFESFX".
pub const SFX_MAGIC: [u8; 8] = [0x51, 0x53, 0x41, 0x46, 0x45, 0x53, 0x46, 0x58];

/// Length of the footer: payload length and magic.
pub const SFX_FOOTER_LEN: u64 = 16;

/// The bytes of a self-extracting file.
pub open spec fn sfx_bytes(stub: Seq<u8>, payload: Seq<u8>) -> Seq<u8> {
    stub + payload + le_bytes(payload.len(), 8) + SFX_MAGIC@
}

/// The payload length field of a file of 16 bytes or more.
pub open spec fn sfx_payload_len(b: Seq<u8>) -> int {
    le_value(b.subrange(b.len() - 16, b.len() - 8)) as int
}

/// Whether a file ends with the footer magic.
pub open spec fn has_sfx_magic(b: Seq<u8>) -> bool {
    b.len() >= 16 && b.subrange(b.len() - 8, b.len() as int) == SFX_MAGIC@
}

/// The payload of a self-extracting file, when its footer is valid.
pub open spec fn sfx_payload(b: Seq<u8>) -> Option<Seq<u8>> {
    if !has_sfx_magic(b) || sfx_payload_len(b) > b.len() - 16 {
        None
    } else {
        Some(b.subrange(b.len() - 16 - sfx_payload_len(b), b.len() - 16))
    }
}

/// Builds a self-extracting file from a stub binary and a qsafe file. Its
/// payload extracts back.
pub fn assemble_sfx(stub_binary: &[u8], qs_payload: &[u8]) -> (res: Vec<u8>)
    ensures
        res@ == sfx_bytes(stub_binary@, qs_payload@),
        sfx_payload(res@) == Some(qs_payload@),
{
    let mut out: Vec<u8> = Vec::new();
    append_bytes(&mut out, stub_binary);
    append_bytes(&mut out, qs_payload);
    push_le(&mut out, qs_payload.len() as u64, 8);
    append_bytes(&mut out, &SFX_MAGIC);
    proof {
        let b = out@;
        let n = qs_payload@.len();
        lemma_le_bytes_len(n, 8);
        lemma_pow256_values();
        lemma_le_roundtrip(n, 8);
        assert(b.subrange(b.len() - 8, b.len() as int) =~= SFX_MAGIC@);
        assert(b.subrange(b.len() - 16, b.len() - 8) =~= le_bytes(n, 8));
        assert(b.subrange(b.len() - 16 - n, b.len() - 16) =~= qs_payload@);
    }
    out
}

/// Extracts the qsafe file from a self-extracting file. A file under 16 bytes
/// or without the magic is `NotSfx`; a payload length beyond the file is
/// `InvalidFooter`.
pub fn extract_payload(bytes: &[u8]) -> (res: Result<Vec<u8>, SfxError>)
    ensures
        res is Ok <==> sfx_payload(bytes@) is Some,
        res matches Ok(p) ==> Some(p@) == sfx_payload(bytes@),
        !has_sfx_magic(bytes@) ==> res matches Err(SfxError::NotSfx),
        has_sfx_magic(bytes@) && sfx_payload_len(bytes@) > bytes@.len() - 16 ==> (res matches Err(
            SfxError::InvalidFooter { payload: p, file: f },
        ) && p == sfx_payload_len(bytes@) && f == bytes@.len()),
{
    let file_size = bytes.len();
    if file_size < 16 {
        return Err(SfxError::NotSfx);
    }
    let mut i: usize = 0;
    while i < 8
        invariant
            i <= 8,
            file_size == bytes@.len(),
            file_size >= 16,
            forall|j: int| 0 <= j < i ==> bytes@[file_size - 8 + j] == SFX_MAGIC@[j],
        decreases 8 - i,
    {
        if bytes[file_size - 8 + i] != SFX_MAGIC[i] {
            assert(bytes@.subrange(file_size - 8, file_size as int)[i as int] != SFX_MAGIC@[i as int]);
            return Err(SfxError::NotSfx);
        }
        i = i + 1;
    }
    assert(bytes@.subrange(file_size - 8, file_size as int) =~= SFX_MAGIC@);
    let payload_len = read_le(bytes, file_size - 16, 8);
    if payload_len > (file_size - 16) as u64 {
        return Err(SfxError::InvalidFooter { payload: payload_len, file: file_size as u64 });
    }
    let plen = payload_len as usize;
    let stub_end = file_size - 16 - plen;
    let payload = vstd::slice::slice_to_vec(vstd::slice::slice_subrange(bytes, stub_end, stub_end + plen));
    Ok(payload)
}

/// The name an extracted file gets: the stem of the self-extracting file (or
/// `qsafe-output`) without a trailing `.run` or `.exe`.
pub open spec fn sfx_output_stem(exe: Seq<char>) -> Seq<char> {
    let stem = match file_name(exe) {
        Some(n) => split_ext(n).0,
        None => "qsafe-output"@,
    };
    if stem.len() >= 4 && (stem.skip(stem.len() - 4) == ".run"@ || stem.skip(stem.len() - 4) == ".exe"@) {
        stem.take(stem.len() - 4)
    } else {
        stem
    }
}

/// The path tried at `attempt` for the extracted file, beside the
/// self-extracting file: the stem, then the stem followed by `-1`, `-2`, ….
pub open spec fn sfx_output_candidate(exe: Seq<char>, attempt: u32) -> Seq<char> {
    dir_part(exe) + sfx_output_stem(exe) + if attempt == 0 {
        Seq::empty()
    } else {
        "-"@ + dec_nat(attempt as nat)
    }
}

/// The path tried at `attempt` for the extracted file.
pub fn sfx_output_path(exe: &str, attempt: u32) -> (res: String)
    ensures
        res@ == sfx_output_candidate(exe@, attempt),
{
    let cs = chars_of(exe);
    let (dir, name) = split_path(&cs);
    let mut stem: Vec<char> = if is_file_name_exec(&name) {
        let (st, _ext) = split_ext_exec(&name);
        st
    } else {
        chars_of("qsafe-output")
    };
    let n = stem.len();
    if n >= 4 {
        let mut tail: Vec<char> = Vec::new();
        tail.push(stem[n - 4]);
        tail.push(stem[n - 3]);
        tail.push(stem[n - 2]);
        tail.push(stem[n - 1]);
        assert(tail@ =~= stem@.skip(n - 4));
        if crate::text::chars_equal(&tail, &chars_of(".run")) || crate::text::chars_equal(&tail, &chars_of(".exe")) {
            let mut cut: Vec<char> = Vec::new();
            let mut i: usize = 0;
            while i < n - 4
                invariant
                    n == stem@.len(),
                    n >= 4,
                    i <= n - 4,
                    cut@ == stem@.take(i as int),
                decreases n - 4 - i,
            {
                cut.push(stem[i]);
                i = i + 1;
                assert(cut@ =~= stem@.take(i as int));
            }
            stem = cut;
        }
    }
    assert(stem@ == sfx_output_stem(exe@));
    let mut out: Vec<char> = Vec::new();
    push_chars(&mut out, &dir);
    push_chars(&mut out, &stem);
    if attempt > 0 {
        push_str(&mut out, "-");
        push_dec_u64(&mut out, attempt as u64);
    }
    assert(out@ =~= sfx_output_candidate(exe@, attempt));
    string_from_chars(&out)
}

/// A password read as a line of standard input: without its trailing line
/// breaks (`\n`, `\r`).
pub open spec fn without_line_breaks(s: Seq<char>) -> Seq<char>
    decreases s.len(),
{
    if s.len() > 0 && (s.last() == '\n' || s.last() == '\r') {
        without_line_breaks(s.drop_last())
    } else {
        s
    }
}

/// The password in a line read from standard input; an empty one is refused.
pub fn password_from_line(line: &str) -> (res: Result<String, String>)
    ensures
        without_line_breaks(line@).len() == 0 <==> res is Err,
        res matches Ok(p) ==> p@ == without_line_breaks(line@),
        res matches Err(m) ==> m@ == "stdin에서 빈 패스워드"@,
{
    let cs = chars_of(line);
    let mut k: usize = cs.len();
    assert(cs@.take(k as int) =~= cs@);
    while k > 0 && (cs[k - 1] == '\n' || cs[k - 1] == '\r')
        invariant
            k <= cs@.len(),
            without_line_breaks(cs@) == without_line_breaks(cs@.take(k as int)),
        decreases k,
    {
        assert(cs@.take(k as int).drop_last() =~= cs@.take(k - 1));
        k = k - 1;
    }
    let ghost t = cs@.take(k as int);
    assert(without_line_breaks(t) == t);
    if k == 0 {
        return Err("stdin에서 빈 패스워드".to_string());
    }
    let mut out: Vec<char> = Vec::new();
    let mut i: usize = 0;
    while i < k
        invariant
            i <= k <= cs@.len(),
            out@ == cs@.take(i as int),
        decreases k - i,
    {
        out.push(cs[i]);
        i = i + 1;
        assert(out@ =~= cs@.take(i as int));
    }
    Ok(string_from_chars(&out))
}

} // verus!
