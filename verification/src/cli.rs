//! Decisions of the command-line tool: compression choice, password
//! comparison, terminal-safe labels, default output paths, sizes, and the
//! store of enrolled FIDO2 credentials.
use vstd::prelude::*;

use crate::format::{CompressionAlgo, PasswordRecipient, Recipient};
use crate::shamir::{share_text, EncodedShare};
use crate::text::{dec_chars, dec_nat, push_dec, push_dec_u64, push_dec_usize};
use crate::identity::{pubkey_recipient_key, unwrap_pubkey, Identity};
use crate::envelope::FileKey;
use crate::error::IdentityError;
use crate::paths::{dir_part, file_name, is_file_name, is_file_name_exec, last_component, push_chars, split_ext, split_ext_exec, split_path};
use crate::primitives::{chars_of, string_from_chars};
use crate::text::{chars_equal, digits_value, hex_chars, hex_digit, is_ws, parse_u8_spec, push_str, split_on, trim, trim_chars, trim_end, trim_start};

verus! {

/// Inputs smaller than this are stored without compression in `Auto` mode.
pub const COMPRESS_THRESHOLD_BYTES: usize = 256;

/// Most characters of a label shown on a terminal.
pub const TERMINAL_LABEL_MAX_CHARS: usize = 512;

/// The compression the user asked for.
#[derive(Debug, Clone, Copy, PartialEq, Eq, Structural)]
pub enum CompressArg {
    /// Skip compression for small inputs, zstd otherwise.
    Auto,
    /// No compression.
    Uncompressed,
    /// zstd.
    Zstd,
}

/// The algorithm used for an input of `input_len` bytes.
pub fn decide_compression(arg: CompressArg, input_len: usize) -> (res: CompressionAlgo)
    ensures
        arg == CompressArg::Uncompressed ==> res == CompressionAlgo::Uncompressed,
        arg == CompressArg::Zstd ==> res == CompressionAlgo::Zstd,
        arg == CompressArg::Auto ==> res == (if input_len < COMPRESS_THRESHOLD_BYTES {
            CompressionAlgo::Uncompressed
        } else {
            CompressionAlgo::Zstd
        }),
{
    match arg {
        CompressArg::Uncompressed => CompressionAlgo::Uncompressed,
        CompressArg::Zstd => CompressionAlgo::Zstd,
        CompressArg::Auto => if input_len < COMPRESS_THRESHOLD_BYTES {
            CompressionAlgo::Uncompressed
        } else {
            CompressionAlgo::Zstd
        },
    }
}

/// Compares two byte strings without an early exit on the first difference:
/// equal lengths, then the OR of all byte differences is zero.
pub fn constant_time_eq(a: &[u8], b: &[u8]) -> (res: bool)
    ensures
        res <==> a@ == b@,
{
    if a.len() != b.len() {
        return false;
    }
    let mut diff: u8 = 0;
    let mut i: usize = 0;
    while i < a.len()
        invariant
            i <= a@.len(),
            a@.len() == b@.len(),
            diff == 0 <==> forall|j: int| 0 <= j < i ==> a@[j] == b@[j],
        decreases a@.len() - i,
    {
        let x = a[i];
        let y = b[i];
        let d = diff;
        assert((d | (x ^ y)) == 0u8 <==> (d == 0u8 && x == y)) by (bit_vector);
        diff = diff | (x ^ y);
        i = i + 1;
    }
    proof {
        if diff == 0 {
            assert(a@ =~= b@);
        }
    }
    diff == 0
}

/// Unicode control characters (general category Cc).
pub open spec fn is_control(c: char) -> bool {
    c <= '\u{1F}' || ('\u{7F}' <= c && c <= '\u{9F}')
}

/// Whether a character may be shown on a terminal: newline, tab, space, or
/// any character that is not a control character.
pub open spec fn terminal_safe(c: char) -> bool {
    c == '\n' || c == '\t' || c == ' ' || !is_control(c)
}

/// The test that `sanitize_for_terminal` keeps a character by.
pub open spec fn safe_pred() -> spec_fn(char) -> bool {
    |c: char| terminal_safe(c)
}

/// The characters of `s` that are safe on a terminal, at most 512 of them.
pub open spec fn sanitized(s: Seq<char>) -> Seq<char> {
    let kept = s.filter(safe_pred());
    if kept.len() <= TERMINAL_LABEL_MAX_CHARS {
        kept
    } else {
        kept.subrange(0, TERMINAL_LABEL_MAX_CHARS as int)
    }
}

/// Keeping only safe characters of a text that has nothing else keeps it whole.
proof fn lemma_filter_all_safe(s: Seq<char>)
    requires
        forall|i: int| 0 <= i < s.len() ==> terminal_safe(#[trigger] s[i]),
    ensures
        s.filter(safe_pred()) == s,
    decreases s.len(),
{
    reveal(Seq::filter);
    if s.len() > 0 {
        lemma_filter_all_safe(s.drop_last());
        assert(s.drop_last().push(s.last()) =~= s);
    }
}

/// A sanitized label holds only characters that are safe on a terminal, and
/// sanitizing it again changes nothing.
pub proof fn lemma_sanitize_idempotent(s: Seq<char>)
    ensures
        forall|i: int| 0 <= i < sanitized(s).len() ==> terminal_safe(#[trigger] sanitized(s)[i]),
        sanitized(sanitized(s)) == sanitized(s),
{
    let kept = s.filter(safe_pred());
    assert forall|i: int| 0 <= i < kept.len() implies terminal_safe(#[trigger] kept[i]) by {
        s.lemma_filter_pred(safe_pred(), i);
    }
    let t = sanitized(s);
    assert forall|i: int| 0 <= i < t.len() implies terminal_safe(#[trigger] t[i]) by {
        assert(t[i] == kept[i]);
    }
    lemma_filter_all_safe(t);
}

/// Removes control characters (ANSI escapes, bells, NULs) from a label shown
/// on a terminal, keeping newlines, tabs and spaces, and cuts it to 512
/// characters.
pub fn sanitize_for_terminal(s: &str) -> (res: String)
    ensures
        res@ == sanitized(s@),
{
    let cs = chars_of(s);
    let mut out: Vec<char> = Vec::new();
    let mut i: usize = 0;
    proof {
        reveal(Seq::filter);
        assert(cs@.subrange(0, 0).filter(safe_pred()) =~= Seq::<char>::empty());
    }
    while i < cs.len() && out.len() < TERMINAL_LABEL_MAX_CHARS
        invariant
            i <= cs@.len(),
            cs@ == s@,
            out@ == cs@.subrange(0, i as int).filter(safe_pred()),
            out@.len() <= TERMINAL_LABEL_MAX_CHARS,
        decreases cs@.len() - i,
    {
        let c = cs[i];
        let safe = c == '\n' || c == '\t' || c == ' ' || !(c <= '\u{1F}' || ('\u{7F}' <= c && c <= '\u{9F}'));
        if safe {
            out.push(c);
        }
        proof {
            reveal(Seq::filter);
            assert(cs@.subrange(0, i + 1).drop_last() =~= cs@.subrange(0, i as int));
        }
        i = i + 1;
    }
    proof {
        let f = safe_pred();
        if i == cs@.len() {
            assert(cs@.subrange(0, i as int) =~= cs@);
        } else {
            lemma_filter_prefix(cs@, i as int, f);
            lemma_filter_len_mono(cs@, i as int, f);
        }
    }
    string_from_chars(&out)
}

/// Filtering a longer prefix keeps what filtering a shorter one gave.
proof fn lemma_filter_prefix(s: Seq<char>, i: int, f: spec_fn(char) -> bool)
    requires
        0 <= i <= s.len(),
    ensures
        s.subrange(0, i).filter(f) == s.filter(f).subrange(0, s.subrange(0, i).filter(f).len() as int),
    decreases s.len() - i,
{
    reveal(Seq::filter);
    if i == s.len() {
        assert(s.subrange(0, i) =~= s);
        assert(s.filter(f).subrange(0, s.filter(f).len() as int) =~= s.filter(f));
    } else {
        lemma_filter_prefix(s.drop_last(), i, f);
        assert(s.drop_last().subrange(0, i) =~= s.subrange(0, i));
        s.drop_last().lemma_filter_len(f);
        assert(s.subrange(0, i).filter(f).len() <= s.drop_last().filter(f).len()) by {
            s.subrange(0, i).lemma_filter_len(f);
            lemma_filter_len_mono(s.drop_last(), i, f);
        }
        assert(s.filter(f).subrange(0, s.subrange(0, i).filter(f).len() as int) =~= s.drop_last().filter(f).subrange(
            0,
            s.subrange(0, i).filter(f).len() as int,
        ));
    }
}

/// Filtering a prefix gives no more than filtering the whole.
proof fn lemma_filter_len_mono(s: Seq<char>, i: int, f: spec_fn(char) -> bool)
    requires
        0 <= i <= s.len(),
    ensures
        s.subrange(0, i).filter(f).len() <= s.filter(f).len(),
    decreases s.len() - i,
{
    reveal(Seq::filter);
    if i == s.len() {
        assert(s.subrange(0, i) =~= s);
    } else {
        lemma_filter_len_mono(s.drop_last(), i, f);
        assert(s.drop_last().subrange(0, i) =~= s.subrange(0, i));
    }
}

/// The default output of unpacking `input`: the input without its `.qs` (or
/// older `.cl`) extension; otherwise the file name (or `out`) followed by
/// `.unpacked`, in the same directory.
pub open spec fn default_unpack_output(input: Seq<char>) -> Seq<char> {
    let name = last_component(input);
    let (stem, ext) = split_ext(name);
    if is_file_name(name) && (ext == Some(seq!['q', 's']) || ext == Some(seq!['c', 'l'])) {
        dir_part(input) + stem
    } else {
        dir_part(input) + (if is_file_name(name) {
            name
        } else {
            seq!['o', 'u', 't']
        }) + seq!['.', 'u', 'n', 'p', 'a', 'c', 'k', 'e', 'd']
    }
}

/// Whether `e` is exactly the two characters `a`, `b`.
fn is_two(e: &Vec<char>, a: char, b: char) -> (res: bool)
    ensures
        res <==> e@ == seq![a, b],
{
    let r = e.len() == 2 && e[0] == a && e[1] == b;
    proof {
        if e@.len() == 2 {
            assert(r <==> e@ =~= seq![a, b]);
        }
    }
    r
}

/// The default output path of unpacking `input` (the header's label is not
/// trusted for it).
pub fn safe_default_output(input: &str) -> (res: String)
    ensures
        res@ == default_unpack_output(input@),
{
    let cs = chars_of(input);
    let (dir, name) = split_path(&cs);
    let (stem, ext) = split_ext_exec(&name);
    let named = is_file_name_exec(&name);
    let strip = named && match &ext {
        Some(e) => is_two(e, 'q', 's') || is_two(e, 'c', 'l'),
        None => false,
    };
    let mut out: Vec<char> = Vec::new();
    push_chars(&mut out, &dir);
    if strip {
        push_chars(&mut out, &stem);
    } else {
        if named {
            push_chars(&mut out, &name);
        } else {
            push_str(&mut out, "out");
        }
        push_str(&mut out, ".unpacked");
    }
    proof {
        reveal_strlit("out");
        reveal_strlit(".unpacked");
        assert(out@ =~= default_unpack_output(input@));
    }
    string_from_chars(&out)
}

/// Whether `s` ends with `.qs`.
pub open spec fn ends_with_qs(s: Seq<char>) -> bool {
    s.len() >= 3 && s.subrange(s.len() - 3, s.len() as int) == seq!['.', 'q', 's']
}

/// The default output of a self-extracting pack: an explicit output that is
/// not the input and does not end in `.qs`; otherwise the input's file name
/// (or `output`) followed by `exe_ext` (`.run`, or `.exe` on Windows), in the
/// input's directory.
pub open spec fn default_sfx_output(input: Seq<char>, explicit: Seq<char>, exe_ext: Seq<char>) -> Seq<char> {
    if explicit != input && !ends_with_qs(explicit) {
        explicit
    } else {
        dir_part(input) + (match file_name(input) {
            Some(n) => n,
            None => seq!['o', 'u', 't', 'p', 'u', 't'],
        }) + exe_ext
    }
}

/// The output path of a self-extracting pack.
pub fn sfx_default_output(input: &str, explicit: &str, exe_ext: &str) -> (res: String)
    ensures
        res@ == default_sfx_output(input@, explicit@, exe_ext@),
{
    let ic = chars_of(input);
    let ec = chars_of(explicit);
    let n = ec.len();
    let qs = n >= 3 && ec[n - 3] == '.' && ec[n - 2] == 'q' && ec[n - 1] == 's';
    proof {
        if ec@.len() >= 3 {
            assert(qs <==> ec@.subrange(ec@.len() - 3, ec@.len() as int) =~= seq!['.', 'q', 's']);
        }
    }
    if !chars_equal(&ic, &ec) && !qs {
        return string_from_chars(&ec);
    }
    let (dir, name) = split_path(&ic);
    let mut out: Vec<char> = Vec::new();
    push_chars(&mut out, &dir);
    if is_file_name_exec(&name) {
        push_chars(&mut out, &name);
    } else {
        push_str(&mut out, "output");
    }
    push_str(&mut out, exe_ext);
    proof {
        reveal_strlit("output");
        assert(out@ =~= default_sfx_output(input@, explicit@, exe_ext@));
    }
    string_from_chars(&out)
}

/// The multiplier of a size suffix (`K`, `M`, `G`, either case).
pub open spec fn size_multiplier(c: char) -> Option<u64> {
    if c == 'g' || c == 'G' {
        Some(1073741824)
    } else if c == 'm' || c == 'M' {
        Some(1048576)
    } else if c == 'k' || c == 'K' {
        Some(1024)
    } else {
        None
    }
}

/// The value of an unsigned decimal (an optional `+`, then digits) that fits
/// in `u64`.
pub open spec fn parse_u64_spec(cs: Seq<char>) -> Option<u64> {
    let ds = if cs.len() >= 2 && cs[0] == '+' {
        cs.drop_first()
    } else {
        cs
    };
    if ds.len() == 0 {
        None
    } else {
        match digits_value(ds, 10) {
            Some(v) => if v <= u64::MAX {
                Some(v as u64)
            } else {
                None
            },
            None => None,
        }
    }
}

/// The number and multiplier that a size text holds: after trimming, a
/// decimal number with an optional `K`, `M` or `G` suffix (powers of 1024,
/// either case); `None` when the number does not parse.
pub open spec fn size_parts(s: Seq<char>) -> Option<(u64, u64)> {
    let t = trim(s);
    let (digits, mult) = if t.len() > 0 && size_multiplier(t.last()) is Some {
        (t.drop_last(), size_multiplier(t.last())->0)
    } else {
        (t, 1u64)
    };
    match parse_u64_spec(digits) {
        Some(n) => Some((n, mult)),
        None => None,
    }
}

/// Whether the size a text holds fits in `u64` (a text that does not parse
/// holds none, which fits).
pub open spec fn size_fits(s: Seq<char>) -> bool {
    match size_parts(s) {
        Some((n, m)) => n * m <= u64::MAX,
        None => true,
    }
}

/// Parses an unsigned decimal into `u64`.
pub fn parse_u64(cs: &Vec<char>, start: usize) -> (res: Option<u64>)
    requires
        start <= cs@.len(),
    ensures
        res == parse_u64_spec(cs@.subrange(start as int, cs@.len() as int)),
{
    let ghost whole = cs@.subrange(start as int, cs@.len() as int);
    let first: usize = if cs.len() - start >= 2 && cs[start] == '+' {
        start + 1
    } else {
        start
    };
    let ghost ds = if whole.len() >= 2 && whole[0] == '+' {
        whole.drop_first()
    } else {
        whole
    };
    assert(ds =~= cs@.subrange(first as int, cs@.len() as int));
    if first == cs.len() {
        return None;
    }
    let mut acc: u64 = 0;
    let mut over = false;
    let mut i: usize = first;
    assert(ds.subrange(0, 0) =~= Seq::<char>::empty());
    while i < cs.len()
        invariant
            first <= i <= cs@.len(),
            ds == cs@.subrange(first as int, cs@.len() as int),
            whole == cs@.subrange(start as int, cs@.len() as int),
            ds == (if whole.len() >= 2 && whole[0] == '+' { whole.drop_first() } else { whole }),
            digits_value(ds.subrange(0, i - first), 10) is Some,
            over <==> digits_value(ds.subrange(0, i - first), 10)->0 > u64::MAX,
            !over ==> acc == digits_value(ds.subrange(0, i - first), 10)->0,
        decreases cs@.len() - i,
    {
        let c = cs[i];
        if !('0' <= c && c <= '9') {
            proof {
                assert(ds[(i - first) as int] == c);
                lemma_digits_invalid_dec(ds, (i - first) as int);
            }
            return None;
        }
        let d = (c as u64) - ('0' as u64);
        proof {
            let pre = ds.subrange(0, i - first);
            assert(ds.subrange(0, i - first + 1).drop_last() =~= pre);
            let v = digits_value(pre, 10)->0;
            if v > u64::MAX {
                assert(v * 10 + d > u64::MAX) by (nonlinear_arith)
                    requires
                        v > u64::MAX,
                        d >= 0,
                ;
            }
        }
        if !over {
            match acc.checked_mul(10) {
                Some(m) => match m.checked_add(d) {
                    Some(v) => {
                        acc = v;
                    },
                    None => {
                        over = true;
                    },
                },
                None => {
                    proof {
                        assert(acc * 10 + d > u64::MAX);
                    }
                    over = true;
                },
            }
        }
        i = i + 1;
    }
    assert(ds.subrange(0, cs@.len() - first) =~= ds);
    if over {
        None
    } else {
        Some(acc)
    }
}

/// A decimal string with a non-digit has no value.
proof fn lemma_digits_invalid_dec(ds: Seq<char>, k: int)
    requires
        0 <= k < ds.len(),
        !('0' <= ds[k] && ds[k] <= '9'),
    ensures
        digits_value(ds, 10) is None,
    decreases ds.len(),
{
    if ds.len() - 1 > k {
        assert(ds.drop_last()[k] == ds[k]);
        lemma_digits_invalid_dec(ds.drop_last(), k);
    }
}

/// Parses a size such as `100M`, `1G` or `500K` (powers of 1024, either case).
/// A number that does not parse is an error whose text shows the trimmed
/// input in upper case; the size must fit in `u64`.
pub fn parse_size(s: &str) -> (res: Result<u64, String>)
    requires
        size_fits(s@),
    ensures
        res is Ok <==> size_parts(s@) is Some,
        res matches Ok(v) ==> (size_parts(s@) matches Some((n, m)) && v == n * m),
        res matches Err(e) ==> e@ == "크기 파싱 실패: '"@ + crate::text::uppercase(trim(s@)) + "' (예: 100M, 1G, 500K)"@,
{
    let cs = chars_of(s);
    let t = trim_chars(&cs);
    let n = t.len();
    let mult: u64 = if n > 0 {
        let c = t[n - 1];
        if c == 'g' || c == 'G' {
            1073741824
        } else if c == 'm' || c == 'M' {
            1048576
        } else if c == 'k' || c == 'K' {
            1024
        } else {
            1
        }
    } else {
        1
    };
    let digits_end: usize = if mult == 1 {
        n
    } else {
        n - 1
    };
    let mut digits: Vec<char> = Vec::new();
    let mut i: usize = 0;
    while i < digits_end
        invariant
            i <= digits_end <= n,
            n == t@.len(),
            digits@ == t@.subrange(0, i as int),
        decreases digits_end - i,
    {
        digits.push(t[i]);
        i = i + 1;
    }
    proof {
        if n > 0 && size_multiplier(t@.last()) is Some {
            assert(digits@ =~= t@.drop_last());
        } else {
            assert(digits@ =~= t@);
        }
        assert(digits@.subrange(0, digits@.len() as int) =~= digits@);
    }
    let parsed = parse_u64(&digits, 0);
    match parsed {
        Some(v) => Ok(v * mult),
        None => Err(size_error(&t)),
    }
}

/// Whether the size a text holds fits in `u64`, computed.
pub fn size_in_range(s: &str) -> (res: bool)
    ensures
        res == size_fits(s@),
{
    let cs = chars_of(s);
    let t = trim_chars(&cs);
    let n = t.len();
    let mult: u64 = if n > 0 {
        let c = t[n - 1];
        if c == 'g' || c == 'G' {
            1073741824
        } else if c == 'm' || c == 'M' {
            1048576
        } else if c == 'k' || c == 'K' {
            1024
        } else {
            1
        }
    } else {
        1
    };
    let digits_end: usize = if mult == 1 {
        n
    } else {
        n - 1
    };
    let digits = vstd::slice::slice_to_vec(vstd::slice::slice_subrange(t.as_slice(), 0, digits_end));
    proof {
        if n > 0 && size_multiplier(t@.last()) is Some {
            assert(digits@ =~= t@.drop_last());
        } else {
            assert(digits@ =~= t@);
        }
        assert(digits@.subrange(0, digits@.len() as int) =~= digits@);
    }
    match parse_u64(&digits, 0) {
        Some(v) => v.checked_mul(mult).is_some(),
        None => true,
    }
}

/// The message for a size that does not parse: the trimmed text in upper case.
fn size_error(t: &Vec<char>) -> (res: String)
    ensures
        res@ == "크기 파싱 실패: '"@ + crate::text::uppercase(t@) + "' (예: 100M, 1G, 500K)"@,
{
    let upper = crate::text::to_uppercase(string_from_chars(t).as_str());
    let mut msg: Vec<char> = Vec::new();
    push_str(&mut msg, "크기 파싱 실패: '");
    push_str(&mut msg, upper.as_str());
    push_str(&mut msg, "' (예: 100M, 1G, 500K)");
    string_from_chars(&msg)
}

/// An enrolled FIDO2 credential, as the tool stores it.
#[derive(Debug, Clone)]
pub struct StoredCredential {
    pub name: String,
    pub credential_id_hex: String,
    pub rp_id: String,
    pub created_at_unix: i64,
    pub label: Option<String>,
}

/// A copy of a stored credential.
pub fn copy_credential(c: &StoredCredential) -> (res: StoredCredential)
    ensures
        res == *c,
{
    StoredCredential {
        name: c.name.clone(),
        credential_id_hex: c.credential_id_hex.clone(),
        rp_id: c.rp_id.clone(),
        created_at_unix: c.created_at_unix,
        label: match &c.label {
            Some(l) => Some(l.clone()),
            None => None,
        },
    }
}

/// The names of stored credentials.
pub open spec fn cred_names(cs: Seq<StoredCredential>) -> Seq<Seq<char>> {
    Seq::new(cs.len(), |i: int| cs[i].name@)
}

/// The test that keeps a credential not stored under `name`.
pub open spec fn other_name(name: Seq<char>) -> spec_fn(StoredCredential) -> bool {
    |c: StoredCredential| c.name@ != name
}

/// The credentials the tool knows, each under a distinct name.
#[derive(Debug)]
pub struct CredentialStore {
    pub credentials: Vec<StoredCredential>,
}

/// Whether two strings are equal.
fn strings_equal(a: &String, b: &String) -> (res: bool)
    ensures
        res <==> a@ == b@,
{
    *a == *b
}

impl CredentialStore {
    /// An empty store.
    pub fn new() -> (s: CredentialStore)
        ensures
            s.credentials@.len() == 0,
    {
        CredentialStore { credentials: Vec::new() }
    }

    /// Adds a credential; a name already stored is refused and the store is
    /// unchanged.
    pub fn add(&mut self, cred: StoredCredential) -> (res: Result<(), String>)
        ensures
            cred_names(old(self).credentials@).contains(cred.name@) ==> (res is Err && final(self).credentials@
                == old(self).credentials@),
            !cred_names(old(self).credentials@).contains(cred.name@) ==> (res is Ok && final(self).credentials@
                == old(self).credentials@.push(cred)),
    {
        let mut i: usize = 0;
        while i < self.credentials.len()
            invariant
                i <= self.credentials@.len(),
                self.credentials@ == old(self).credentials@,
                forall|j: int| 0 <= j < i ==> self.credentials@[j].name@ != cred.name@,
            decreases self.credentials@.len() - i,
        {
            if strings_equal(&self.credentials[i].name, &cred.name) {
                assert(cred_names(old(self).credentials@)[i as int] == cred.name@);
                let mut msg: Vec<char> = Vec::new();
                push_str(&mut msg, "이미 존재하는 이름: ");
                push_str(&mut msg, cred.name.as_str());
                return Err(string_from_chars(&msg));
            }
            i = i + 1;
        }
        proof {
            if cred_names(old(self).credentials@).contains(cred.name@) {
                let k = choose|k: int| 0 <= k < cred_names(old(self).credentials@).len() && cred_names(old(self).credentials@)[k] == cred.name@;
                assert(self.credentials@[k].name@ == cred.name@);
            }
        }
        self.credentials.push(cred);
        Ok(())
    }

    /// The first credential stored under `name`.
    pub fn find(&self, name: &str) -> (res: Option<&StoredCredential>)
        ensures
            res is None <==> !cred_names(self.credentials@).contains(name@),
            res matches Some(c) ==> exists|k: int|
                0 <= k < self.credentials@.len() && self.credentials@[k] == *c && c.name@ == name@ && forall|j: int|
                    0 <= j < k ==> self.credentials@[j].name@ != name@,
    {
        let target = String::from_str(name);
        let mut i: usize = 0;
        while i < self.credentials.len()
            invariant
                i <= self.credentials@.len(),
                target@ == name@,
                forall|j: int| 0 <= j < i ==> self.credentials@[j].name@ != name@,
            decreases self.credentials@.len() - i,
        {
            if strings_equal(&self.credentials[i].name, &target) {
                assert(cred_names(self.credentials@)[i as int] == name@);
                return Some(&self.credentials[i]);
            }
            i = i + 1;
        }
        proof {
            if cred_names(self.credentials@).contains(name@) {
                let k = choose|k: int| 0 <= k < cred_names(self.credentials@).len() && cred_names(self.credentials@)[k] == name@;
                assert(self.credentials@[k].name@ == name@);
            }
        }
        None
    }

    /// Removes every credential stored under `name`; when there is none, the
    /// store is unchanged and an error names it.
    pub fn remove(&mut self, name: &str) -> (res: Result<(), String>)
        ensures
            final(self).credentials@ == old(self).credentials@.filter(other_name(name@)),
            res is Err <==> !cred_names(old(self).credentials@).contains(name@),
    {
        let target = String::from_str(name);
        let mut kept: Vec<StoredCredential> = Vec::new();
        let mut found = false;
        let mut i: usize = 0;
        let ghost f = other_name(name@);
        proof {
            reveal(Seq::filter);
            assert(self.credentials@.subrange(0, 0).filter(f) =~= Seq::<StoredCredential>::empty());
        }
        while i < self.credentials.len()
            invariant
                i <= self.credentials@.len(),
                self.credentials@ == old(self).credentials@,
                target@ == name@,
                f == other_name(name@),
                kept@ == self.credentials@.subrange(0, i as int).filter(f),
                found <==> exists|j: int| 0 <= j < i && self.credentials@[j].name@ == name@,
            decreases self.credentials@.len() - i,
        {
            let c = copy_credential(&self.credentials[i]);
            proof {
                reveal(Seq::filter);
                assert(self.credentials@.subrange(0, i + 1).drop_last() =~= self.credentials@.subrange(0, i as int));
            }
            if strings_equal(&self.credentials[i].name, &target) {
                found = true;
            } else {
                kept.push(c);
            }
            i = i + 1;
        }
        proof {
            assert(self.credentials@.subrange(0, self.credentials@.len() as int) =~= self.credentials@);
            if cred_names(old(self).credentials@).contains(name@) {
                let k = choose|k: int| 0 <= k < cred_names(old(self).credentials@).len() && cred_names(old(self).credentials@)[k] == name@;
                assert(self.credentials@[k].name@ == name@);
            }
            if found {
                let k = choose|j: int| 0 <= j < i && self.credentials@[j].name@ == name@;
                assert(cred_names(old(self).credentials@)[k] == name@);
            }
        }
        if !found {
            let mut msg: Vec<char> = Vec::new();
            push_str(&mut msg, "이름을 찾을 수 없음: ");
            push_str(&mut msg, name);
            proof {
                lemma_filter_all_kept(old(self).credentials@, name@);
            }
            return Err(string_from_chars(&msg));
        }
        self.credentials = kept;
        Ok(())
    }
}

/// Filtering out a name that no credential has keeps every credential.
proof fn lemma_filter_all_kept(cs: Seq<StoredCredential>, name: Seq<char>)
    requires
        !cred_names(cs).contains(name),
    ensures
        cs.filter(other_name(name)) == cs,
    decreases cs.len(),
{
    reveal(Seq::filter);
    if cs.len() > 0 {
        assert(!cred_names(cs.drop_last()).contains(name)) by {
            if cred_names(cs.drop_last()).contains(name) {
                let k = choose|k: int| 0 <= k < cred_names(cs.drop_last()).len() && cred_names(cs.drop_last())[k] == name;
                assert(cred_names(cs)[k] == name);
            }
        }
        lemma_filter_all_kept(cs.drop_last(), name);
        assert(cred_names(cs)[cs.len() - 1] == cs.last().name@);
        assert(cs.drop_last().push(cs.last()) =~= cs);
    }
}

/// Whether no two stored credentials share a name.
pub open spec fn names_distinct(cs: Seq<StoredCredential>) -> bool {
    forall|i: int, j: int| 0 <= i < j < cs.len() ==> #[trigger] cs[i].name@ != #[trigger] cs[j].name@
}

/// Adding a credential under a name not yet stored keeps the names distinct,
/// and the new credential is the only one found under its name.
pub proof fn lemma_add_keeps_names_distinct(cs: Seq<StoredCredential>, cred: StoredCredential)
    requires
        names_distinct(cs),
        !cred_names(cs).contains(cred.name@),
    ensures
        names_distinct(cs.push(cred)),
        forall|k: int| 0 <= k < cs.push(cred).len() && #[trigger] cs.push(cred)[k].name@ == cred.name@ ==> k == cs.len(),
{
    assert forall|k: int| 0 <= k < cs.len() implies #[trigger] cs[k].name@ != cred.name@ by {
        assert(cred_names(cs)[k] == cs[k].name@);
    }
    assert forall|i: int, j: int| 0 <= i < j < cs.push(cred).len() implies #[trigger] cs.push(cred)[i].name@
        != #[trigger] cs.push(cred)[j].name@ by {
        assert(cs.push(cred)[i] == cs[i]);
        if j < cs.len() {
            assert(cs.push(cred)[j] == cs[j]);
        }
    }
    assert forall|k: int| 0 <= k < cs.push(cred).len() && #[trigger] cs.push(cred)[k].name@ == cred.name@ implies k
        == cs.len() by {
        if k < cs.len() {
            assert(cs.push(cred)[k] == cs[k]);
        }
    }
}

/// Removing a name keeps the remaining names distinct, and afterwards no
/// credential is stored under the removed name.
pub proof fn lemma_remove_drops_name(cs: Seq<StoredCredential>, name: Seq<char>)
    requires
        names_distinct(cs),
    ensures
        names_distinct(cs.filter(other_name(name))),
        !cred_names(cs.filter(other_name(name))).contains(name),
        forall|c: StoredCredential| cs.contains(c) && c.name@ != name ==> #[trigger] cs.filter(other_name(name)).contains(c),
    decreases cs.len(),
{
    reveal(Seq::filter);
    let f = other_name(name);
    let r = cs.filter(f);
    assert forall|c: StoredCredential| cs.contains(c) && c.name@ != name implies #[trigger] r.contains(c) by {
        let i = choose|i: int| 0 <= i < cs.len() && cs[i] == c;
        cs.lemma_filter_contains(f, i);
    }
    assert forall|k: int| 0 <= k < r.len() implies #[trigger] r[k].name@ != name by {
        cs.lemma_filter_pred(f, k);
    }
    assert(!cred_names(r).contains(name)) by {
        if cred_names(r).contains(name) {
            let k = choose|k: int| 0 <= k < cred_names(r).len() && cred_names(r)[k] == name;
            assert(r[k].name@ != name);
        }
    }
    if cs.len() > 0 {
        let init = cs.drop_last();
        assert(names_distinct(init)) by {
            assert forall|i: int, j: int| 0 <= i < j < init.len() implies #[trigger] init[i].name@ != #[trigger] init[j].name@ by {
                assert(init[i] == cs[i]);
                assert(init[j] == cs[j]);
            }
        }
        lemma_remove_drops_name(init, name);
        let ri = init.filter(f);
        if f(cs.last()) {
            assert(r == ri.push(cs.last()));
            assert forall|k: int| 0 <= k < ri.len() implies #[trigger] ri[k].name@ != cs.last().name@ by {
                assert(ri.contains(ri[k]));
                init.lemma_filter_contains_rev(f, ri[k]);
                let m = choose|m: int| 0 <= m < init.len() && init[m] == ri[k];
                assert(cs[m] == init[m]);
                assert(cs[cs.len() - 1] == cs.last());
            }
            assert forall|i: int, j: int| 0 <= i < j < r.len() implies #[trigger] r[i].name@ != #[trigger] r[j].name@ by {
                assert(r[i] == ri[i]);
                if j < ri.len() {
                    assert(r[j] == ri[j]);
                }
            }
        } else {
            assert(r == ri);
        }
    }
}

/// Checks the recipients asked for before packing: at least one (password,
/// FIDO2 or public key), and a password for a self-extracting file.
pub fn check_pack_recipients(no_password: bool, fido2_count: usize, pubkey_count: usize, sfx: bool) -> (res: Result<(), String>)
    ensures
        res is Ok <==> (!(no_password && fido2_count == 0 && pubkey_count == 0) && !(sfx && no_password)),
        no_password && fido2_count == 0 && pubkey_count == 0 ==> (res matches Err(m) && m@
            == "적어도 하나의 수신자가 필요합니다 (패스워드, --fido2, 또는 --pubkey)"@),
        !(no_password && fido2_count == 0 && pubkey_count == 0) && sfx && no_password ==> (res matches Err(m) && m@
            == "--sfx 는 패스워드 수신자가 필요합니다. --no-password와 함께 쓸 수 없음."@),
{
    if no_password && fido2_count == 0 && pubkey_count == 0 {
        return Err("적어도 하나의 수신자가 필요합니다 (패스워드, --fido2, 또는 --pubkey)".to_string());
    }
    if sfx && no_password {
        return Err("--sfx 는 패스워드 수신자가 필요합니다. --no-password와 함께 쓸 수 없음.".to_string());
    }
    Ok(())
}

/// The default output of packing `input`: its file name (or `output`)
/// followed by `.qs`, in the same directory.
pub open spec fn default_pack_output_of(input: Seq<char>) -> Seq<char> {
    dir_part(input) + (match file_name(input) {
        Some(n) => n,
        None => seq!['o', 'u', 't', 'p', 'u', 't'],
    }) + seq!['.', 'q', 's']
}

/// The default output path of packing `input`.
pub fn default_pack_output(input: &str) -> (res: String)
    ensures
        res@ == default_pack_output_of(input@),
{
    let ic = chars_of(input);
    let (dir, name) = split_path(&ic);
    let mut out: Vec<char> = Vec::new();
    push_chars(&mut out, &dir);
    if is_file_name_exec(&name) {
        push_chars(&mut out, &name);
    } else {
        push_str(&mut out, "output");
    }
    push_str(&mut out, ".qs");
    proof {
        reveal_strlit("output");
        reveal_strlit(".qs");
        assert(out@ =~= default_pack_output_of(input@));
    }
    string_from_chars(&out)
}

/// Smallest part of a split file (1 KiB).
pub const MIN_PART_SIZE: u64 = 1024;

/// Most parts of a split file.
pub const MAX_PARTS: u64 = 9999;

/// The number of parts of a file of `total` bytes split in parts of
/// `part_size` bytes (the last one shorter); parts under 1 KiB or more than
/// 9999 parts are refused.
pub fn split_plan(total: u64, part_size: u64) -> (res: Result<u32, String>)
    ensures
        part_size < MIN_PART_SIZE ==> (res matches Err(m) && m@ == "part 크기는 최소 1 KB"@),
        part_size >= MIN_PART_SIZE ==> {
            let parts = (total + part_size - 1) / (part_size as int);
            &&& parts > MAX_PARTS ==> (res matches Err(m) && m@ == "part 수가 너무 많음 ("@ + dec_nat(parts as nat)
                + "): part 크기를 키우세요"@)
            &&& parts <= MAX_PARTS ==> res == Ok::<u32, String>(parts as u32)
        },
{
    if part_size < MIN_PART_SIZE {
        return Err("part 크기는 최소 1 KB".to_string());
    }
    let parts: u64 = if total == 0 {
        0
    } else {
        (total - 1) / part_size + 1
    };
    proof {
        if total > 0 {
            assert((total - 1) / (part_size as int) + 1 == (total + part_size - 1) / (part_size as int)) by (nonlinear_arith)
                requires
                    total > 0,
                    part_size > 0,
            ;
        } else {
            assert((part_size - 1) / (part_size as int) == 0) by (nonlinear_arith)
                requires
                    part_size > 0,
            ;
        }
    }
    if parts > MAX_PARTS {
        let mut msg: Vec<char> = Vec::new();
        push_str(&mut msg, "part 수가 너무 많음 (");
        push_dec_u64(&mut msg, parts);
        push_str(&mut msg, "): part 크기를 키우세요");
        return Err(string_from_chars(&msg));
    }
    Ok(parts as u32)
}

/// The digits of `n`, padded with zeros on the left to at least 3.
pub open spec fn dec_pad3(n: nat) -> Seq<char> {
    Seq::new(if dec_nat(n).len() < 3 { (3 - dec_nat(n).len()) as nat } else { 0 }, |i: int| '0') + dec_nat(n)
}

/// The name of part `index` (from 1): the prefix, `.part`, and the index in at
/// least three digits.
pub fn part_name(prefix: &str, index: u32) -> (res: String)
    ensures
        res@ == prefix@ + seq!['.', 'p', 'a', 'r', 't'] + dec_pad3(index as nat),
{
    let mut digits: Vec<char> = Vec::new();
    push_dec_u64(&mut digits, index as u64);
    let mut out: Vec<char> = Vec::new();
    push_str(&mut out, prefix);
    push_str(&mut out, ".part");
    let ghost head = out@;
    let mut k: usize = digits.len();
    while k < 3
        invariant
            digits@.len() <= k <= 3 || (k == digits@.len() && k >= 3),
            out@ == head + Seq::new((k - digits@.len()) as nat, |i: int| '0'),
        decreases 3 - k,
    {
        out.push('0');
        k = k + 1;
        assert(out@ =~= head + Seq::new((k - digits@.len()) as nat, |i: int| '0'));
    }
    push_chars(&mut out, &digits);
    proof {
        reveal_strlit(".part");
        assert(out@ =~= prefix@ + seq!['.', 'p', 'a', 'r', 't'] + dec_pad3(index as nat));
    }
    string_from_chars(&out)
}

/// The start of the last `.part` in `s`, if any.
pub open spec fn last_part_marker(s: Seq<char>) -> Option<int>
    decreases s.len(),
{
    if s.len() < 5 {
        None
    } else if s.subrange(s.len() - 5, s.len() as int) == seq!['.', 'p', 'a', 'r', 't'] {
        Some(s.len() - 5)
    } else {
        last_part_marker(s.drop_last())
    }
}

/// The path of the merged file: the first part's path before its last
/// `.part`; a path without `.part` is refused.
pub fn merge_base(first_part: &str) -> (res: Result<String, String>)
    ensures
        last_part_marker(first_part@) is None <==> res is Err,
        res matches Err(m) ==> m@ == "입력이 .partXXX 형식이 아님"@,
        res matches Ok(b) ==> b@ == first_part@.subrange(0, last_part_marker(first_part@)->0),
{
    let cs = chars_of(first_part);
    let mut end: usize = cs.len();
    assert(cs@.subrange(0, end as int) =~= cs@);
    while end >= 5
        invariant
            end <= cs@.len(),
            cs@ == first_part@,
            last_part_marker(cs@) == last_part_marker(cs@.subrange(0, end as int)),
        decreases end,
    {
        let t = &cs;
        let hit = t[end - 5] == '.' && t[end - 4] == 'p' && t[end - 3] == 'a' && t[end - 2] == 'r' && t[end - 1] == 't';
        proof {
            let sub = cs@.subrange(0, end as int);
            assert(sub.subrange(sub.len() - 5, sub.len() as int) =~= cs@.subrange(end - 5, end as int));
            assert(hit <==> cs@.subrange(end - 5, end as int) =~= seq!['.', 'p', 'a', 'r', 't']);
            assert(sub.drop_last() =~= cs@.subrange(0, end - 1));
        }
        if hit {
            let base = vstd::slice::slice_to_vec(vstd::slice::slice_subrange(cs.as_slice(), 0, end - 5));
            return Ok(string_from_chars(&base));
        }
        end = end - 1;
    }
    Err("입력이 .partXXX 형식이 아님".to_string())
}

/// Where the last `.part` of `prefix` + `.part` + `digits` is, for digits.
proof fn lemma_part_marker_digits(prefix: Seq<char>, digits: Seq<char>, j: int)
    requires
        0 <= j <= digits.len(),
        forall|i: int| 0 <= i < digits.len() ==> '0' <= #[trigger] digits[i] <= '9',
    ensures
        last_part_marker(prefix + seq!['.', 'p', 'a', 'r', 't'] + digits.take(j)) == Some(prefix.len() as int),
    decreases j,
{
    let s = prefix + seq!['.', 'p', 'a', 'r', 't'] + digits.take(j);
    if j == 0 {
        assert(digits.take(0) =~= Seq::<char>::empty());
        assert(s.subrange(s.len() - 5, s.len() as int) =~= seq!['.', 'p', 'a', 'r', 't']);
    } else {
        assert(s.last() == digits[j - 1]);
        assert(s.subrange(s.len() - 5, s.len() as int)[4] == s.last());
        assert(s.drop_last() =~= prefix + seq!['.', 'p', 'a', 'r', 't'] + digits.take(j - 1));
        lemma_part_marker_digits(prefix, digits, j - 1);
    }
}

/// Merging finds the prefix back from the name of any part that splitting
/// wrote: `merge_base` of `part_name(prefix, index)` is `prefix`.
pub proof fn lemma_merge_finds_prefix(prefix: Seq<char>, index: nat)
    ensures
        last_part_marker(prefix + seq!['.', 'p', 'a', 'r', 't'] + dec_pad3(index)) == Some(prefix.len() as int),
        (prefix + seq!['.', 'p', 'a', 'r', 't'] + dec_pad3(index)).subrange(0, prefix.len() as int) == prefix,
{
    let d = dec_pad3(index);
    lemma_dec_nat_digits(index);
    assert forall|i: int| 0 <= i < d.len() implies '0' <= #[trigger] d[i] <= '9' by {
        let zeros = if dec_nat(index).len() < 3 { (3 - dec_nat(index).len()) as nat } else { 0 };
        if i >= zeros {
            assert(d[i] == dec_nat(index)[i - zeros]);
        }
    }
    lemma_part_marker_digits(prefix, d, d.len() as int);
    assert(d.take(d.len() as int) =~= d);
    assert((prefix + seq!['.', 'p', 'a', 'r', 't'] + d).subrange(0, prefix.len() as int) =~= prefix);
}

/// Whether `p` holds no newline.
pub open spec fn newline_free(p: Seq<char>) -> bool {
    forall|i: int| 0 <= i < p.len() ==> p[i] != '\n'
}

/// Whether the trimmed `p` starts with `qs1-`, the mark of a share line.
pub open spec fn is_share_line(p: Seq<char>) -> bool {
    trim(p).len() >= 4 && trim(p).subrange(0, 4) == seq!['q', 's', '1', '-']
}

/// The digits of `n` are ASCII digits.
proof fn lemma_dec_nat_digits(n: nat)
    ensures
        forall|i: int| 0 <= i < dec_nat(n).len() ==> '0' <= #[trigger] dec_nat(n)[i] <= '9',
    decreases n,
{
    if n >= 10 {
        lemma_dec_nat_digits(n / 10);
        let d = dec_nat(n);
        assert forall|i: int| 0 <= i < d.len() implies '0' <= #[trigger] d[i] <= '9' by {
            if i < d.len() - 1 {
                assert(d[i] == dec_nat(n / 10)[i]);
            }
        }
    }
}

/// `trim_end(s)` is a prefix of `s`.
proof fn lemma_trim_end_prefix(s: Seq<char>)
    ensures
        trim_end(s).len() <= s.len(),
        forall|i: int| 0 <= i < trim_end(s).len() ==> trim_end(s)[i] == s[i],
    decreases s.len(),
{
    if s.len() > 0 && is_ws(s.last()) {
        lemma_trim_end_prefix(s.drop_last());
        assert forall|i: int| 0 <= i < trim_end(s).len() implies trim_end(s)[i] == s[i] by {
            assert(s.drop_last()[i] == s[i]);
        }
    }
}

/// A line whose first character is neither whitespace nor `q` is no share line.
proof fn lemma_not_share_line(p: Seq<char>)
    requires
        p.len() > 0,
        !is_ws(p[0]),
        p[0] != 'q',
    ensures
        !is_share_line(p),
{
    assert(trim_start(p) == p);
    lemma_trim_end_prefix(p);
    if trim(p).len() >= 4 {
        assert(trim(p).subrange(0, 4)[0] == p[0]);
    }
}

/// Appending a piece without separator to text whose last piece is empty
/// makes that piece the last one.
proof fn lemma_split_extend(out: Seq<char>, lines: Seq<Seq<char>>, p: Seq<char>)
    requires
        split_on(out, '\n') == lines.push(Seq::<char>::empty()),
        newline_free(p),
    ensures
        split_on(out + p, '\n') == lines.push(p),
    decreases p.len(),
{
    if p.len() == 0 {
        assert(out + p =~= out);
        assert(p =~= Seq::<char>::empty());
    } else {
        assert((out + p).drop_last() =~= out + p.drop_last());
        assert((out + p).last() == p[p.len() - 1]);
        lemma_split_extend(out, lines, p.drop_last());
        assert(p.drop_last().push(p.last()) =~= p);
        let init = lines.push(p.drop_last());
        assert(init.last() == p.drop_last());
        assert(init.update(lines.len() as int, p) =~= lines.push(p));
        assert(split_on(out + p, '\n') == init.update(init.len() - 1, init.last().push((out + p).last())));
    }
}

/// Appending a line and a newline adds that line.
proof fn lemma_append_line(out: Seq<char>, lines: Seq<Seq<char>>, p: Seq<char>)
    requires
        split_on(out, '\n') == lines.push(Seq::<char>::empty()),
        newline_free(p),
    ensures
        split_on(out + p + seq!['\n'], '\n') == lines.push(p).push(Seq::<char>::empty()),
{
    lemma_split_extend(out, lines, p);
    assert((out + p + seq!['\n']).drop_last() =~= out + p);
}

/// The first share line of `lines` with `p` appended.
proof fn lemma_first_share_push(lines: Seq<Seq<char>>, p: Seq<char>)
    ensures
        first_share_line(lines.push(p)) == (if first_share_line(lines) is Some {
            first_share_line(lines)
        } else {
            first_share_line(seq![p])
        }),
    decreases lines.len(),
{
    if lines.len() > 0 {
        assert(lines.push(p)[0] == lines[0]);
        assert(lines.push(p).drop_first() =~= lines.drop_first().push(p));
        lemma_first_share_push(lines.drop_first(), p);
    } else {
        assert(lines.push(p) =~= seq![p]);
    }
}

/// Appends one line of a share file's heading and a newline, keeping the
/// heading free of share lines.
fn push_heading_line(out: &mut Vec<char>, line: &Vec<char>, Ghost(lines): Ghost<Seq<Seq<char>>>)
    requires
        split_on(old(out)@, '\n') == lines.push(Seq::<char>::empty()),
        first_share_line(lines) is None,
        newline_free(line@),
        !is_share_line(line@),
    ensures
        split_on(final(out)@, '\n') == lines.push(line@).push(Seq::<char>::empty()),
        first_share_line(lines.push(line@)) is None,
{
    let ghost start = out@;
    push_chars(out, line);
    out.push('\n');
    proof {
        assert(out@ =~= start + line@ + seq!['\n']);
        lemma_append_line(start, lines, line@);
        lemma_first_share_push(lines, line@);
        assert(seq![line@].drop_first() =~= Seq::<Seq<char>>::empty());
        assert(seq![line@][0] == line@);
        assert(first_share_line(Seq::<Seq<char>>::empty()) is None);
    }
}

/// The text of a share file: a heading with its number and the total, the
/// threshold, the share's index, warnings, and the share on a line of its own.
pub fn share_file_text(number: usize, total: u8, threshold: u8, share: &EncodedShare) -> (res: String)
    ensures
        find_share_line_spec(res@) == Some(share_text(*share)),
{
    let mut out: Vec<char> = Vec::new();
    let ghost mut lines: Seq<Seq<char>> = Seq::empty();
    assert(split_on(out@, '\n') =~= lines.push(Seq::<char>::empty()));
    proof {
        lemma_dec_nat_digits(number as nat);
        crate::text::lemma_dec_chars_digits(total);
        crate::text::lemma_dec_chars_digits(threshold);
        crate::text::lemma_dec_chars_digits(share.index);
        reveal_strlit("=== qsafe Shamir Share ");
        reveal_strlit(" of ");
        reveal_strlit(" ===");
        reveal_strlit("임계값: ");
        reveal_strlit(" share 필요");
        reveal_strlit("이 share 번호: ");
        reveal_strlit("⚠️  종이에 적어 안전한 곳에 보관하세요.");
        reveal_strlit("⚠️  파일로 저장 시 다른 share와 같은 곳에 두지 마세요.");
        reveal_strlit("--- 아래 한 줄이 share 데이터 ---");
    }
    let mut l: Vec<char> = Vec::new();
    push_str(&mut l, "=== qsafe Shamir Share ");
    push_dec_usize(&mut l, number);
    push_str(&mut l, " of ");
    push_dec(&mut l, total);
    push_str(&mut l, " ===");
    proof {
        lemma_not_share_line(l@);
    }
    push_heading_line(&mut out, &l, Ghost(lines));
    proof { lines = lines.push(l@); }
    let mut l: Vec<char> = Vec::new();
    push_str(&mut l, "임계값: ");
    push_dec(&mut l, threshold);
    push_str(&mut l, " share 필요");
    proof {
        lemma_not_share_line(l@);
    }
    push_heading_line(&mut out, &l, Ghost(lines));
    proof { lines = lines.push(l@); }
    let mut l: Vec<char> = Vec::new();
    push_str(&mut l, "이 share 번호: ");
    push_dec(&mut l, share.index);
    proof {
        lemma_not_share_line(l@);
    }
    push_heading_line(&mut out, &l, Ghost(lines));
    proof { lines = lines.push(l@); }
    let blank: Vec<char> = Vec::new();
    push_heading_line(&mut out, &blank, Ghost(lines));
    proof { lines = lines.push(blank@); }
    let mut l: Vec<char> = Vec::new();
    push_str(&mut l, "⚠️  종이에 적어 안전한 곳에 보관하세요.");
    proof {
        lemma_not_share_line(l@);
    }
    push_heading_line(&mut out, &l, Ghost(lines));
    proof { lines = lines.push(l@); }
    let mut l: Vec<char> = Vec::new();
    push_str(&mut l, "⚠️  파일로 저장 시 다른 share와 같은 곳에 두지 마세요.");
    proof {
        lemma_not_share_line(l@);
    }
    push_heading_line(&mut out, &l, Ghost(lines));
    proof { lines = lines.push(l@); }
    push_heading_line(&mut out, &blank, Ghost(lines));
    proof { lines = lines.push(blank@); }
    let mut l: Vec<char> = Vec::new();
    push_str(&mut l, "--- 아래 한 줄이 share 데이터 ---");
    proof {
        lemma_not_share_line(l@);
    }
    push_heading_line(&mut out, &l, Ghost(lines));
    proof { lines = lines.push(l@); }
    let line = share.to_string();
    let lc = chars_of(line.as_str());
    let ghost start = out@;
    push_chars(&mut out, &lc);
    out.push('\n');
    proof {
        lemma_share_text_clean(*share);
        assert(out@ =~= start + lc@ + seq!['\n']);
        lemma_append_line(start, lines, lc@);
        lemma_first_share_push(lines, lc@);
        lemma_first_share_push(lines.push(lc@), Seq::<char>::empty());
        assert(seq![lc@].drop_first() =~= Seq::<Seq<char>>::empty());
    }
    string_from_chars(&out)
}

/// A share's text has no newline, no surrounding whitespace, and starts with `qs1-`.
proof fn lemma_share_text_clean(s: EncodedShare)
    ensures
        newline_free(share_text(s)),
        trim(share_text(s)) == share_text(s),
        is_share_line(share_text(s)),
{
    let t = share_text(s);
    crate::text::lemma_dec_chars_digits(s.threshold);
    crate::text::lemma_dec_chars_digits(s.total);
    assert(forall|i: int| 0 <= i < t.len() ==> !is_ws(#[trigger] t[i]) && t[i] != '\n') by {
        assert forall|i: int| 0 <= i < t.len() implies !is_ws(#[trigger] t[i]) && t[i] != '\n' by {
            crate::shamir::lemma_share_text_char(s, i);
        }
    }
    assert(trim_start(t) == t);
    assert(trim_end(t) == t);
    assert(t.subrange(0, 4) =~= seq!['q', 's', '1', '-']);
}

/// The first line of `content` whose trimmed text starts with `qs1-`,
/// trimmed.
pub open spec fn find_share_line_spec(content: Seq<char>) -> Option<Seq<char>> {
    first_share_line(split_on(content, '\n'))
}

/// The first of `lines` whose trimmed text starts with `qs1-`, trimmed.
pub open spec fn first_share_line(lines: Seq<Seq<char>>) -> Option<Seq<char>>
    decreases lines.len(),
{
    if lines.len() == 0 {
        None
    } else {
        let t = trim(lines[0]);
        if t.len() >= 4 && t.subrange(0, 4) == seq!['q', 's', '1', '-'] {
            Some(t)
        } else {
            first_share_line(lines.drop_first())
        }
    }
}

/// Finds the share line in the text of a share file.
pub fn find_share_line(content: &str) -> (res: Option<String>)
    ensures
        res is None <==> find_share_line_spec(content@) is None,
        res matches Some(l) ==> Some(l@) == find_share_line_spec(content@),
{
    let cs = chars_of(content);
    let lines = crate::text::split_chars(&cs, '\n');
    let ghost all = crate::text::char_views(lines@);
    let mut i: usize = 0;
    assert(all.subrange(0, all.len() as int) =~= all);
    while i < lines.len()
        invariant
            i <= lines@.len(),
            all == crate::text::char_views(lines@),
            all == split_on(content@, '\n'),
            first_share_line(all) == first_share_line(all.subrange(i as int, all.len() as int)),
        decreases lines@.len() - i,
    {
        let t = trim_chars(&lines[i]);
        proof {
            let rest = all.subrange(i as int, all.len() as int);
            assert(rest[0] == lines@[i as int]@);
            assert(rest.drop_first() =~= all.subrange(i + 1, all.len() as int));
        }
        let starts = t.len() >= 4 && t[0] == 'q' && t[1] == 's' && t[2] == '1' && t[3] == '-';
        proof {
            if t@.len() >= 4 {
                assert(starts <==> t@.subrange(0, 4) =~= seq!['q', 's', '1', '-']);
            }
        }
        if starts {
            return Some(string_from_chars(&t));
        }
        i = i + 1;
    }
    None
}

/// The first password recipient of a header, copied.
pub fn first_password_recipient(recipients: &[Recipient]) -> (res: Option<PasswordRecipient>)
    ensures
        res is None <==> forall|i: int| 0 <= i < recipients@.len() ==> !(recipients@[i] is Password),
{
    let mut i: usize = 0;
    while i < recipients.len()
        invariant
            i <= recipients@.len(),
            forall|j: int| 0 <= j < i ==> !(recipients@[j] is Password),
        decreases recipients@.len() - i,
    {
        if let Recipient::Password(p) = &recipients[i] {
            return Some(p.clone());
        }
        i = i + 1;
    }
    None
}

/// Whether `r` is a public-key recipient that the identity opens to `key`.
pub open spec fn pubkey_opens(identity: Identity, r: Recipient, key: Seq<u8>) -> bool {
    r matches Recipient::Pubkey(pr) && pubkey_recipient_key(identity, pr) == Some(key)
}

/// Tries each public-key recipient in order with the identity and returns the
/// first file key recovered; otherwise the last failure, or `None` when there
/// is no public-key recipient.
pub fn unwrap_any_pubkey(identity: &Identity, recipients: &[Recipient]) -> (res: Result<FileKey, Option<IdentityError>>)
    requires
        identity.wf(),
    ensures
        res is Ok ==> exists|i: int|
            0 <= i < recipients@.len() && #[trigger] pubkey_opens(*identity, recipients@[i], res->Ok_0@),
        res matches Err(None) <==> forall|i: int| 0 <= i < recipients@.len() ==> !(recipients@[i] is Pubkey),
{
    let mut last: Option<IdentityError> = None;
    let mut i: usize = 0;
    while i < recipients.len()
        invariant
            i <= recipients@.len(),
            identity.wf(),
            last is None <==> forall|j: int| 0 <= j < i ==> !(recipients@[j] is Pubkey),
        decreases recipients@.len() - i,
    {
        if let Recipient::Pubkey(pr) = &recipients[i] {
            match unwrap_pubkey(identity, pr) {
                Ok(k) => {
                    assert(Some(k@) == pubkey_recipient_key(*identity, *pr));
                    assert(pubkey_opens(*identity, recipients@[i as int], k@));
                    let r: Result<FileKey, Option<IdentityError>> = Ok(k);
                    assert(r->Ok_0@ == k@);
                    assert(exists|j: int| 0 <= j < recipients@.len() && #[trigger] pubkey_opens(*identity, recipients@[j], r->Ok_0@));
                    return r;
                },
                Err(e) => {
                    last = Some(e);
                },
            }
        }
        i = i + 1;
    }
    Err(last)
}

/// `true` or `false`.
pub open spec fn bool_text(b: bool) -> Seq<char> {
    if b {
        "true"@
    } else {
        "false"@
    }
}

/// A label as shown: the label sanitized, or `unnamed`.
pub open spec fn shown_label(label: Option<String>) -> Seq<char> {
    sanitized(
        match label {
            Some(l) => l@,
            None => "unnamed"@,
        },
    )
}

/// The line that describes a recipient in the summary of a file.
pub open spec fn recipient_description(r: Recipient) -> Seq<char> {
    match r {
        Recipient::Password(p) => "password (Argon2id m="@ + dec_nat(p.argon2_m_kib as nat) + "KiB t="@ + dec_nat(
            p.argon2_t as nat,
        ) + " p="@ + dec_nat(p.argon2_p as nat) + ", XChaCha20-Poly1305)"@,
        Recipient::Fido2(f) => "fido2 (hmac-secret, rp="@ + sanitized(f.rp_id@) + ", label="@ + shown_label(f.label)
            + ", uv="@ + bool_text(f.user_verification_required) + ")"@,
        Recipient::Bip39(b) => "bip39 paper ("@ + dec_nat(b.word_count as nat) + " words, "@ + sanitized(
            b.language@,
        ) + ", label="@ + shown_label(b.label) + ")"@,
        Recipient::Timelock(_) => "timelock (drand)"@,
        Recipient::Pubkey(_) => "pubkey (X25519+MLKEM)"@,
        Recipient::ShamirCommitment(_) => "shamir (M-of-N)"@,
    }
}

/// The position of a recipient's kind among the kinds of recipient.
pub open spec fn recipient_kind_index(r: Recipient) -> nat {
    match r {
        Recipient::Password(_) => 0,
        Recipient::Fido2(_) => 1,
        Recipient::Bip39(_) => 2,
        Recipient::Timelock(_) => 3,
        Recipient::Pubkey(_) => 4,
        Recipient::ShamirCommitment(_) => 5,
    }
}

/// Each recipient kind has a description of its own: the public-key,
/// time-lock and Shamir recipients are shown by their fixed names, the
/// others by text that starts with their kind, and recipients of two
/// different kinds never get the same description.
pub proof fn lemma_recipient_descriptions_distinct(r1: Recipient, r2: Recipient)
    ensures
        r1 is Pubkey ==> recipient_description(r1) == "pubkey (X25519+MLKEM)"@,
        r1 is Timelock ==> recipient_description(r1) == "timelock (drand)"@,
        r1 is ShamirCommitment ==> recipient_description(r1) == "shamir (M-of-N)"@,
        r1 is Password ==> recipient_description(r1).take(9) == "password "@,
        r1 is Fido2 ==> recipient_description(r1).take(6) == "fido2 "@,
        r1 is Bip39 ==> recipient_description(r1).take(12) == "bip39 paper "@,
        recipient_kind_index(r1) != recipient_kind_index(r2) ==> recipient_description(r1) != recipient_description(r2),
{
    reveal_strlit("pubkey (X25519+MLKEM)");
    reveal_strlit("timelock (drand)");
    reveal_strlit("shamir (M-of-N)");
    reveal_strlit("password (Argon2id m=");
    reveal_strlit("password ");
    reveal_strlit("fido2 (hmac-secret, rp=");
    reveal_strlit("fido2 ");
    reveal_strlit("bip39 paper (");
    reveal_strlit("bip39 paper ");
    lemma_description_head(r1);
    lemma_description_head(r2);
}

/// The first two characters of a description, which tell the kinds apart.
proof fn lemma_description_head(r: Recipient)
    ensures
        recipient_description(r).len() >= 12,
        (recipient_description(r)[0], recipient_description(r)[1]) == match r {
            Recipient::Password(_) => ('p', 'a'),
            Recipient::Fido2(_) => ('f', 'i'),
            Recipient::Bip39(_) => ('b', 'i'),
            Recipient::Timelock(_) => ('t', 'i'),
            Recipient::Pubkey(_) => ('p', 'u'),
            Recipient::ShamirCommitment(_) => ('s', 'h'),
        },
        r is Password ==> recipient_description(r).take(9) == "password "@,
        r is Fido2 ==> recipient_description(r).take(6) == "fido2 "@,
        r is Bip39 ==> recipient_description(r).take(12) == "bip39 paper "@,
{
    reveal_strlit("pubkey (X25519+MLKEM)");
    reveal_strlit("timelock (drand)");
    reveal_strlit("shamir (M-of-N)");
    reveal_strlit("password (Argon2id m=");
    reveal_strlit("password ");
    reveal_strlit("fido2 (hmac-secret, rp=");
    reveal_strlit("fido2 ");
    reveal_strlit("bip39 paper (");
    reveal_strlit("bip39 paper ");
    let d = recipient_description(r);
    match r {
        Recipient::Password(_) => {
            assert(d.take(9) =~= "password "@);
        },
        Recipient::Fido2(_) => {
            assert(d.take(6) =~= "fido2 "@);
        },
        Recipient::Bip39(_) => {
            assert(d.take(12) =~= "bip39 paper "@);
        },
        _ => {},
    }
}

/// The label of a recipient as shown, sanitized.
fn label_shown(label: &Option<String>) -> (res: String)
    ensures
        res@ == shown_label(*label),
{
    match label {
        Some(l) => sanitize_for_terminal(l.as_str()),
        None => sanitize_for_terminal("unnamed"),
    }
}

/// Describes a recipient for the summary of a file, with labels and names
/// sanitized for the terminal.
pub fn describe_recipient(r: &Recipient) -> (res: String)
    ensures
        res@ == recipient_description(*r),
{
    let mut out: Vec<char> = Vec::new();
    match r {
        Recipient::Password(p) => {
            push_str(&mut out, "password (Argon2id m=");
            push_dec_u64(&mut out, p.argon2_m_kib as u64);
            push_str(&mut out, "KiB t=");
            push_dec_u64(&mut out, p.argon2_t as u64);
            push_str(&mut out, " p=");
            push_dec_u64(&mut out, p.argon2_p as u64);
            push_str(&mut out, ", XChaCha20-Poly1305)");
        },
        Recipient::Fido2(f) => {
            push_str(&mut out, "fido2 (hmac-secret, rp=");
            let rp = sanitize_for_terminal(f.rp_id.as_str());
            push_str(&mut out, rp.as_str());
            push_str(&mut out, ", label=");
            let l = label_shown(&f.label);
            push_str(&mut out, l.as_str());
            push_str(&mut out, ", uv=");
            if f.user_verification_required {
                push_str(&mut out, "true");
            } else {
                push_str(&mut out, "false");
            }
            push_str(&mut out, ")");
        },
        Recipient::Bip39(b) => {
            push_str(&mut out, "bip39 paper (");
            push_dec_u64(&mut out, b.word_count as u64);
            push_str(&mut out, " words, ");
            let lang = sanitize_for_terminal(b.language.as_str());
            push_str(&mut out, lang.as_str());
            push_str(&mut out, ", label=");
            let l = label_shown(&b.label);
            push_str(&mut out, l.as_str());
            push_str(&mut out, ")");
        },
        Recipient::Timelock(_) => {
            push_str(&mut out, "timelock (drand)");
        },
        Recipient::Pubkey(_) => {
            push_str(&mut out, "pubkey (X25519+MLKEM)");
        },
        Recipient::ShamirCommitment(_) => {
            push_str(&mut out, "shamir (M-of-N)");
        },
    }
    assert(out@ =~= recipient_description(*r));
    string_from_chars(&out)
}

/// Whether a name may name a FIDO2 credential: not empty, without `/` or `\\`.
pub open spec fn credential_name_ok(name: Seq<char>) -> bool {
    name.len() > 0 && forall|i: int| 0 <= i < name.len() ==> name[i] != '/' && name[i] != '\\'
}

/// Whether a name may name a FIDO2 credential.
pub fn valid_credential_name(name: &str) -> (res: bool)
    ensures
        res == credential_name_ok(name@),
{
    let cs = chars_of(name);
    if cs.len() == 0 {
        return false;
    }
    let mut i: usize = 0;
    while i < cs.len()
        invariant
            i <= cs@.len(),
            cs@ == name@,
            forall|j: int| 0 <= j < i ==> cs@[j] != '/' && cs@[j] != '\\',
        decreases cs@.len() - i,
    {
        if cs[i] == '/' || cs[i] == '\\' {
            return false;
        }
        i = i + 1;
    }
    true
}

/// The start of a credential id shown in a list: its first 16 characters
/// (all of it when shorter).
pub fn credential_id_short(id_hex: &str) -> (res: String)
    ensures
        res@ == id_hex@.take(if id_hex@.len() < 16 { id_hex@.len() as int } else { 16 }),
{
    let cs = chars_of(id_hex);
    let n: usize = if cs.len() < 16 {
        cs.len()
    } else {
        16
    };
    let mut out: Vec<char> = Vec::new();
    let mut i: usize = 0;
    while i < n
        invariant
            i <= n <= cs@.len(),
            out@ == cs@.take(i as int),
        decreases n - i,
    {
        out.push(cs[i]);
        i = i + 1;
        assert(out@ =~= cs@.take(i as int));
    }
    string_from_chars(&out)
}

/// The stem of the file name of a path, or `fallback` when it has no file name.
pub open spec fn stem_or(p: Seq<char>, fallback: Seq<char>) -> Seq<char> {
    match file_name(p) {
        Some(n) => split_ext(n).0,
        None => fallback,
    }
}

/// The stem of the file name of a path, or `fallback`, computed.
fn stem_or_exec(p: &str, fallback: &str) -> (res: Vec<char>)
    ensures
        res@ == stem_or(p@, fallback@),
{
    let cs = chars_of(p);
    let (_dir, name) = split_path(&cs);
    if is_file_name_exec(&name) {
        let (stem, _ext) = split_ext_exec(&name);
        stem
    } else {
        chars_of(fallback)
    }
}

/// The default output of migrating `input`: its stem (or `migrated`)
/// followed by `.migrated.qs`, in the same directory.
pub fn migrate_output_for(input: &str) -> (res: String)
    ensures
        res@ == dir_part(input@) + stem_or(input@, "migrated"@) + ".migrated.qs"@,
{
    let cs = chars_of(input);
    let (dir, _name) = split_path(&cs);
    let stem = stem_or_exec(input, "migrated");
    let mut out: Vec<char> = Vec::new();
    push_chars(&mut out, &dir);
    push_chars(&mut out, &stem);
    push_str(&mut out, ".migrated.qs");
    string_from_chars(&out)
}

/// The default folder that an archive is extracted to: the archive's stem
/// (or `extracted`), relative to the current folder.
pub fn extract_dir_for(input: &str) -> (res: String)
    ensures
        res@ == stem_or(input@, "extracted"@),
{
    let stem = stem_or_exec(input, "extracted");
    string_from_chars(&stem)
}

/// Whether bytes start with the qsafe magic.
pub open spec fn starts_with_magic(bytes: Seq<u8>) -> bool {
    bytes.len() >= 8 && bytes.take(8) == crate::format::MAGIC@
}

/// Whether bytes start with the qsafe magic, computed.
pub fn has_qsafe_magic(bytes: &[u8]) -> (res: bool)
    ensures
        res == starts_with_magic(bytes@),
{
    if bytes.len() < 8 {
        return false;
    }
    let magic = crate::format::MAGIC;
    let mut i: usize = 0;
    while i < 8
        invariant
            i <= 8 <= bytes@.len(),
            magic@ == crate::format::MAGIC@,
            forall|j: int| 0 <= j < i ==> bytes@[j] == magic@[j],
        decreases 8 - i,
    {
        if bytes[i] != magic[i] {
            assert(bytes@.take(8)[i as int] != magic@[i as int]);
            return false;
        }
        i = i + 1;
    }
    assert(bytes@.take(8) =~= magic@);
    true
}

/// The one-line summary of a qsafe file's header: its number of recipients,
/// original size and cipher suite.
pub fn header_summary(recipients: usize, original_size: u64, suite: crate::format::CipherSuite) -> (res: String)
    ensures
        res@ == dec_nat(recipients as nat) + " recipients · "@ + dec_nat(original_size as nat) + " bytes original · suite="@
            + crate::launch::suite_text(suite),
{
    let mut out: Vec<char> = Vec::new();
    push_dec_usize(&mut out, recipients);
    push_str(&mut out, " recipients · ");
    push_dec_u64(&mut out, original_size);
    push_str(&mut out, " bytes original · suite=");
    push_str(&mut out, crate::launch::suite_name(suite));
    string_from_chars(&out)
}

/// A secret to split must not be empty.
pub fn check_split_secret(secret: &[u8]) -> (res: Result<(), String>)
    ensures
        res is Ok <==> secret@.len() > 0,
        res matches Err(m) ==> m@ == "입력 파일이 비어있음"@,
{
    if secret.len() == 0 {
        return Err("입력 파일이 비어있음".to_string());
    }
    Ok(())
}

/// Combining needs at least two share files.
pub fn check_share_count(count: usize) -> (res: Result<(), String>)
    ensures
        res is Ok <==> count >= 2,
        res matches Err(m) ==> m@ == "최소 2개 share 필요"@,
{
    if count < 2 {
        return Err("최소 2개 share 필요".to_string());
    }
    Ok(())
}

} // verus!
