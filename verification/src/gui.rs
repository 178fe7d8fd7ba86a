//! Decisions of the desktop application: start-up arguments, version
//! comparison and the update check, derived paths and tokens, mnemonic
//! checks, identity summaries, the guard against deleting system folders and
//! the one before a temporary preview folder is removed.
use vstd::prelude::*;

use crate::cli::parse_u64_spec;
use crate::listing::{lowercase, to_lowercase};
use crate::paths::{dir_part, file_name, is_file_name_exec, push_chars, split_ext, split_ext_exec, split_path};
use crate::primitives::{chars_of, string_from_chars};
use crate::text::{char_views, dec_nat, push_dec_u64, push_dec_usize, push_str, split_chars, split_on, trim, trim_chars};

verus! {

/// What the application was started with: an action (`pack`, `unpack`,
/// `info`, or empty) and the first path argument.
#[derive(Debug, Clone)]
pub struct StartupArgs {
    pub action: String,
    pub path: String,
}

/// Whether `s` starts with `p`.
pub open spec fn starts_with(s: Seq<char>, p: Seq<char>) -> bool {
    s.len() >= p.len() && s.subrange(0, p.len() as int) == p
}

/// `--action=`.
pub open spec fn action_prefix() -> Seq<char> {
    seq!['-', '-', 'a', 'c', 't', 'i', 'o', 'n', '=']
}

/// The start-up arguments after the arguments in `args`: each `--action=X`
/// sets the action; the first argument that does not start with `--` is the
/// path.
pub open spec fn startup_state(args: Seq<Seq<char>>) -> (Seq<char>, Seq<char>)
    decreases args.len(),
{
    if args.len() == 0 {
        (Seq::empty(), Seq::empty())
    } else {
        let (action, path) = startup_state(args.drop_last());
        let s = args.last();
        if starts_with(s, action_prefix()) {
            (s.subrange(9, s.len() as int), path)
        } else if !starts_with(s, seq!['-', '-']) && path.len() == 0 {
            (action, s)
        } else {
            (action, path)
        }
    }
}

/// Whether `s` starts with `p`, computed.
fn starts_with_exec(s: &Vec<char>, p: &Vec<char>) -> (res: bool)
    ensures
        res == starts_with(s@, p@),
{
    if s.len() < p.len() {
        return false;
    }
    let mut i: usize = 0;
    while i < p.len()
        invariant
            i <= p@.len() <= s@.len(),
            forall|j: int| 0 <= j < i ==> s@[j] == p@[j],
        decreases p@.len() - i,
    {
        if s[i] != p[i] {
            assert(s@.subrange(0, p@.len() as int)[i as int] != p@[i as int]);
            return false;
        }
        i = i + 1;
    }
    assert(s@.subrange(0, p@.len() as int) =~= p@);
    true
}

/// The character sequences of strings.
pub open spec fn arg_views(v: Seq<String>) -> Seq<Seq<char>> {
    Seq::new(v.len(), |i: int| v[i]@)
}

impl StartupArgs {
    /// Reads the start-up arguments (without the program name). The path is
    /// taken as given; the application makes it absolute.
    pub fn parse(args: &Vec<String>) -> (res: StartupArgs)
        ensures
            (res.action@, res.path@) == startup_state(arg_views(args@)),
    {
        let mut prefix: Vec<char> = Vec::new();
        push_str(&mut prefix, "--action=");
        let mut dashes: Vec<char> = Vec::new();
        push_str(&mut dashes, "--");
        proof {
            reveal_strlit("--action=");
            reveal_strlit("--");
            assert(prefix@ =~= action_prefix());
            assert(dashes@ =~= seq!['-', '-']);
        }
        let mut action: Vec<char> = Vec::new();
        let mut path: Vec<char> = Vec::new();
        let mut i: usize = 0;
        assert(arg_views(args@).subrange(0, 0) =~= Seq::<Seq<char>>::empty());
        while i < args.len()
            invariant
                i <= args@.len(),
                prefix@ == action_prefix(),
                dashes@ == seq!['-', '-'],
                (action@, path@) == startup_state(arg_views(args@).subrange(0, i as int)),
            decreases args@.len() - i,
        {
            let s = chars_of(args[i].as_str());
            proof {
                let v = arg_views(args@).subrange(0, i + 1);
                assert(v.drop_last() =~= arg_views(args@).subrange(0, i as int));
                assert(v.last() == s@);
            }
            if starts_with_exec(&s, &prefix) {
                let mut a: Vec<char> = Vec::new();
                let mut k: usize = 9;
                while k < s.len()
                    invariant
                        9 <= k <= s@.len(),
                        a@ == s@.subrange(9, k as int),
                    decreases s@.len() - k,
                {
                    a.push(s[k]);
                    k = k + 1;
                }
                action = a;
            } else if !starts_with_exec(&s, &dashes) && path.len() == 0 {
                path = s;
            }
            i = i + 1;
        }
        assert(arg_views(args@).subrange(0, args@.len() as int) =~= arg_views(args@));
        StartupArgs { action: string_from_chars(&action), path: string_from_chars(&path) }
    }
}

/// `s` without leading `v` characters.
pub open spec fn strip_v(s: Seq<char>) -> Seq<char>
    decreases s.len(),
{
    if s.len() > 0 && s[0] == 'v' {
        strip_v(s.drop_first())
    } else {
        s
    }
}

/// The longest prefix of ASCII digits.
pub open spec fn leading_digits(s: Seq<char>) -> Seq<char>
    decreases s.len(),
{
    if s.len() > 0 && '0' <= s[0] && s[0] <= '9' {
        seq![s[0]] + leading_digits(s.drop_first())
    } else {
        Seq::empty()
    }
}

/// The value of a version part: its leading digits as a `u64`, 0 when there
/// are none or the value does not fit.
pub open spec fn part_value(p: Seq<char>) -> u64 {
    match parse_u64_spec(leading_digits(p)) {
        Some(v) => v,
        None => 0,
    }
}

/// Component `i` (0 to 2) of a version `vA.B.C` or `A.B.C`; a missing one is 0.
pub open spec fn version_component(s: Seq<char>, i: int) -> u64 {
    let parts = split_on(strip_v(s), '.');
    if i < parts.len() {
        part_value(parts[i])
    } else {
        0
    }
}

/// Whether `current` is at least `latest`, comparing the three components in
/// order.
pub open spec fn at_least(current: Seq<char>, latest: Seq<char>) -> bool {
    if version_component(current, 0) != version_component(latest, 0) {
        version_component(current, 0) > version_component(latest, 0)
    } else if version_component(current, 1) != version_component(latest, 1) {
        version_component(current, 1) > version_component(latest, 1)
    } else {
        version_component(current, 2) >= version_component(latest, 2)
    }
}

/// Version order is a total preorder: a version is at least itself, of two
/// versions one is at least the other, and "at least" is transitive.
pub proof fn lemma_version_order(a: Seq<char>, b: Seq<char>, c: Seq<char>)
    ensures
        at_least(a, a),
        at_least(a, b) || at_least(b, a),
        at_least(a, b) && at_least(b, c) ==> at_least(a, c),
{
}

/// The leading digits of `s`, computed.
fn leading_digits_exec(s: &Vec<char>) -> (res: Vec<char>)
    ensures
        res@ == leading_digits(s@),
{
    let mut k: usize = 0;
    while k < s.len() && '0' <= s[k] && s[k] <= '9'
        invariant
            k <= s@.len(),
            forall|j: int| 0 <= j < k ==> '0' <= #[trigger] s@[j] && s@[j] <= '9',
        decreases s@.len() - k,
    {
        k = k + 1;
    }
    proof {
        lemma_leading_digits(s@, k as int);
    }
    vstd::slice::slice_to_vec(vstd::slice::slice_subrange(s.as_slice(), 0, k))
}

/// `leading_digits` stops at the first non-digit.
proof fn lemma_leading_digits(s: Seq<char>, k: int)
    requires
        0 <= k <= s.len(),
        forall|j: int| 0 <= j < k ==> '0' <= #[trigger] s[j] && s[j] <= '9',
        k < s.len() ==> !('0' <= s[k] && s[k] <= '9'),
    ensures
        leading_digits(s) == s.subrange(0, k),
    decreases k,
{
    if k > 0 {
        lemma_leading_digits(s.drop_first(), k - 1);
        assert(seq![s[0]] + s.drop_first().subrange(0, k - 1) =~= s.subrange(0, k));
    } else {
        assert(s.subrange(0, 0) =~= Seq::<char>::empty());
    }
}

/// The value of a digit string (digits only) as `u64`, 0 when empty or too large.
fn digits_u64(ds: &Vec<char>) -> (res: u64)
    requires
        forall|j: int| 0 <= j < ds@.len() ==> '0' <= #[trigger] ds@[j] && ds@[j] <= '9',
    ensures
        res == match parse_u64_spec(ds@) {
            Some(v) => v,
            None => 0u64,
        },
{
    assert(ds@.subrange(0, ds@.len() as int) =~= ds@);
    match crate::cli::parse_u64(ds, 0) {
        Some(v) => v,
        None => 0,
    }
}

/// The three components of a version, computed.
fn version_numbers(s: &str) -> (res: Vec<u64>)
    ensures
        res@.len() == 3,
        forall|i: int| 0 <= i < 3 ==> #[trigger] res@[i] == version_component(s@, i),
{
    let cs = chars_of(s);
    let mut k: usize = 0;
    assert(cs@.subrange(0, cs@.len() as int) =~= cs@);
    while k < cs.len() && cs[k] == 'v'
        invariant
            k <= cs@.len(),
            strip_v(cs@) == strip_v(cs@.subrange(k as int, cs@.len() as int)),
        decreases cs@.len() - k,
    {
        assert(cs@.subrange(k as int, cs@.len() as int).drop_first() =~= cs@.subrange(k + 1, cs@.len() as int));
        k = k + 1;
    }
    let rest = vstd::slice::slice_to_vec(vstd::slice::slice_subrange(cs.as_slice(), k, cs.len()));
    assert(strip_v(rest@) == rest@);
    let parts = split_chars(&rest, '.');
    let ghost pv = char_views(parts@);
    let mut out: Vec<u64> = Vec::new();
    let mut i: usize = 0;
    while i < 3
        invariant
            i <= 3,
            pv == char_views(parts@),
            pv == split_on(strip_v(s@), '.'),
            out@.len() == i,
            forall|j: int| 0 <= j < i ==> #[trigger] out@[j] == version_component(s@, j),
        decreases 3 - i,
    {
        if i < parts.len() {
            let d = leading_digits_exec(&parts[i]);
            proof {
                assert(pv[i as int] == parts@[i as int]@);
                lemma_leading_all_digits(parts@[i as int]@);
            }
            out.push(digits_u64(&d));
        } else {
            out.push(0);
        }
        i = i + 1;
    }
    out
}

/// The leading digits of a sequence are digits.
proof fn lemma_leading_all_digits(s: Seq<char>)
    ensures
        forall|j: int| 0 <= j < leading_digits(s).len() ==> '0' <= #[trigger] leading_digits(s)[j] && leading_digits(
            s,
        )[j] <= '9',
    decreases s.len(),
{
    if s.len() > 0 && '0' <= s[0] && s[0] <= '9' {
        lemma_leading_all_digits(s.drop_first());
        assert forall|j: int| 0 <= j < leading_digits(s).len() implies '0' <= #[trigger] leading_digits(s)[j]
            && leading_digits(s)[j] <= '9' by {
            if j > 0 {
                assert(leading_digits(s)[j] == leading_digits(s.drop_first())[j - 1]);
            }
        }
    }
}

/// Compares two versions (`vA.B.C` or `A.B.C`): whether `current` is at least
/// `latest`, that is, up to date.
pub fn version_at_least(current: &str, latest: &str) -> (res: bool)
    ensures
        res == at_least(current@, latest@),
{
    let c = version_numbers(current);
    let l = version_numbers(latest);
    assert(c@[0] == version_component(current@, 0) && c@[1] == version_component(current@, 1) && c@[2]
        == version_component(current@, 2));
    assert(l@[0] == version_component(latest@, 0) && l@[1] == version_component(latest@, 1) && l@[2]
        == version_component(latest@, 2));
    let mut i: usize = 0;
    while i < 3
        invariant
            i <= 3,
            c@.len() == 3,
            l@.len() == 3,
            c@[0] == version_component(current@, 0) && c@[1] == version_component(current@, 1) && c@[2]
                == version_component(current@, 2),
            l@[0] == version_component(latest@, 0) && l@[1] == version_component(latest@, 1) && l@[2]
                == version_component(latest@, 2),
            i >= 1 ==> c@[0] == l@[0],
            i >= 2 ==> c@[1] == l@[1],
            i >= 3 ==> c@[2] == l@[2],
        decreases 3 - i,
    {
        if c[i] > l[i] {
            return true;
        }
        if c[i] < l[i] {
            return false;
        }
        i = i + 1;
    }
    true
}

/// The public-key path next to a secret identity file: the file's stem (or
/// `identity`) followed by `.pub.json`, in the same directory.
pub open spec fn pub_path_of(secret_path: Seq<char>) -> Seq<char> {
    dir_part(secret_path) + (match file_name(secret_path) {
        Some(n) => split_ext(n).0,
        None => seq!['i', 'd', 'e', 'n', 't', 'i', 't', 'y'],
    }) + seq!['.', 'p', 'u', 'b', '.', 'j', 's', 'o', 'n']
}

/// Derives the public-key path of a secret identity file.
pub fn derive_pub_path(secret_path: &str) -> (res: String)
    ensures
        res@ == pub_path_of(secret_path@),
{
    let cs = chars_of(secret_path);
    let (dir, name) = split_path(&cs);
    let mut out: Vec<char> = Vec::new();
    push_chars(&mut out, &dir);
    if is_file_name_exec(&name) {
        let (stem, _ext) = split_ext_exec(&name);
        push_chars(&mut out, &stem);
    } else {
        push_str(&mut out, "identity");
    }
    push_str(&mut out, ".pub.json");
    proof {
        reveal_strlit("identity");
        reveal_strlit(".pub.json");
        assert(out@ =~= pub_path_of(secret_path@));
    }
    string_from_chars(&out)
}

/// The confirmation token of a disk: its id, a colon, its size in decimal.
pub fn confirm_token_for(disk_id: &str, size_bytes: u64) -> (res: String)
    ensures
        res@ == disk_id@ + seq![':'] + dec_nat(size_bytes as nat),
{
    let mut out: Vec<char> = Vec::new();
    push_str(&mut out, disk_id);
    out.push(':');
    push_dec_u64(&mut out, size_bytes);
    string_from_chars(&out)
}

/// The file name of a path, or the path itself when it has none.
pub fn basename_of(path: &str) -> (res: String)
    ensures
        res@ == (match file_name(path@) {
            Some(n) => n,
            None => path@,
        }),
{
    let cs = chars_of(path);
    let (_dir, name) = split_path(&cs);
    if is_file_name_exec(&name) {
        string_from_chars(&name)
    } else {
        string_from_chars(&cs)
    }
}

/// A generated mnemonic for the application to show.
#[derive(Debug)]
pub struct MnemonicResult {
    pub words: Vec<String>,
    pub word_count: usize,
    pub language: &'static str,
}

/// Generates a mnemonic of 12, 15, 18, 21 or 24 words; another count is an
/// error.
pub fn mnemonic_generate(word_count: u8) -> (res: Result<MnemonicResult, String>)
    ensures
        res is Ok <==> crate::paper::valid_word_count(word_count as int),
        res matches Ok(m) ==> m.words@.len() == word_count && m.word_count == word_count && m.language@ == "english"@,
        res matches Err(e) ==> e@ == "단어 개수는 12, 15, 18, 21, 24 중 하나여야 합니다."@,
{
    match crate::paper::GeneratedMnemonic::random(word_count) {
        Ok(m) => {
            let words = m.words();
            let n = words.len();
            Ok(MnemonicResult { words, word_count: n, language: "english" })
        },
        Err(_) => Err("단어 개수는 12, 15, 18, 21, 24 중 하나여야 합니다.".to_string()),
    }
}

/// Checks mnemonic words: an empty text is an error, words that do not parse
/// (word list and checksum) are an error; otherwise `true`.
pub fn mnemonic_verify(words: &str) -> (res: Result<bool, String>)
    ensures
        trim(words@).len() == 0 ==> (res matches Err(m) && m@ == "단어를 입력해 주세요."@),
        trim(words@).len() > 0 ==> (res is Ok <==> crate::paper::bip39_phrase(trim(words@)) is Some),
        trim(words@).len() > 0 ==> (res matches Err(m) ==> "검증 실패: "@.is_prefix_of(m@)),
        res matches Ok(b) ==> b,
{
    let cs = chars_of(words);
    let t = trim_chars(&cs);
    if t.len() == 0 {
        return Err("단어를 입력해 주세요.".to_string());
    }
    let text = string_from_chars(&t);
    match crate::paper::bip39_parse(text.as_str()) {
        Ok(_) => Ok(true),
        Err(e) => {
            let mut msg: Vec<char> = Vec::new();
            push_str(&mut msg, "검증 실패: ");
            push_str(&mut msg, e.as_str());
            Err(string_from_chars(&msg))
        },
    }
}

/// The path as the delete guard compares it: in lower case
/// (`str::to_lowercase`), `\\` read as `/`.
pub open spec fn guard_form(path: Seq<char>) -> Seq<char> {
    let l = lowercase(path);
    Seq::new(l.len(), |i: int| if l[i] == '\\' { '/' } else { l[i] })
}

/// The number of pieces of `pieces` that name a component (neither empty nor `.`).
pub open spec fn named_pieces(pieces: Seq<Seq<char>>) -> nat
    decreases pieces.len(),
{
    if pieces.len() == 0 {
        0
    } else {
        named_pieces(pieces.drop_last()) + (if pieces.last().len() > 0 && pieces.last() != seq!['.'] {
            1nat
        } else {
            0nat
        })
    }
}

/// The number of components of a path (`Path::components`): the root, a
/// leading `.`, and each named piece between separators.
pub open spec fn component_count(path: Seq<char>) -> nat {
    let pieces = split_on(path, '/');
    let rooted = path.len() > 0 && path[0] == '/';
    (if rooted { 1nat } else { 0nat }) + (if !rooted && pieces[0] == seq!['.'] { 1nat } else { 0nat })
        + named_pieces(pieces)
}

/// Whether `s` ends with `d`.
pub open spec fn ends_with(s: Seq<char>, d: Seq<char>) -> bool {
    s.len() >= d.len() && s.subrange(s.len() - d.len(), s.len() as int) == d
}

/// Whether `s` is the folder `d` itself, with or without a trailing `/`.
pub open spec fn names_folder(s: Seq<char>, d: Seq<char>) -> bool {
    ends_with(s, d) || ends_with(s, d.push('/'))
}

/// Whether the guard form of a path names one of the system folders.
pub open spec fn is_system_folder(s: Seq<char>) -> bool {
    ||| names_folder(s, "/windows"@)
    ||| names_folder(s, "/program files"@)
    ||| names_folder(s, "/program files (x86)"@)
    ||| names_folder(s, "/programdata"@)
    ||| names_folder(s, "/system32"@)
    ||| names_folder(s, "/system"@)
    ||| names_folder(s, "/usr"@)
    ||| names_folder(s, "/etc"@)
    ||| names_folder(s, "/bin"@)
    ||| names_folder(s, "/sbin"@)
    ||| names_folder(s, "/boot"@)
    ||| names_folder(s, "/var"@)
    ||| names_folder(s, "/lib"@)
}

/// Whether a path has more than one component.
fn has_several_components(path: &Vec<char>) -> (res: bool)
    ensures
        res == (component_count(path@) > 1),
{
    let pieces = split_chars(path, '/');
    let ghost ps = char_views(pieces@);
    proof {
        crate::text::lemma_split_nonempty(path@, '/');
    }
    let mut named: usize = 0;
    let mut i: usize = 0;
    assert(ps.subrange(0, 0) =~= Seq::<Seq<char>>::empty());
    while i < pieces.len()
        invariant
            i <= pieces@.len(),
            ps == char_views(pieces@),
            ps.len() == pieces@.len(),
            named <= 2,
            named == (if named_pieces(ps.subrange(0, i as int)) < 2 {
                named_pieces(ps.subrange(0, i as int))
            } else {
                2
            }),
        decreases pieces@.len() - i,
    {
        let p = &pieces[i];
        let is_dot = p.len() == 1 && p[0] == '.';
        proof {
            assert(ps.subrange(0, i + 1).drop_last() =~= ps.subrange(0, i as int));
            assert(ps.subrange(0, i + 1).last() == p@);
            if p@.len() == 1 {
                assert(is_dot <==> p@ =~= seq!['.']);
            } else {
                assert(p@ != seq!['.']);
            }
        }
        if p.len() > 0 && !is_dot && named < 2 {
            named = named + 1;
        }
        i = i + 1;
    }
    assert(ps.subrange(0, ps.len() as int) =~= ps);
    let rooted = path.len() > 0 && path[0] == '/';
    let first = &pieces[0];
    let lead_dot = !rooted && first.len() == 1 && first[0] == '.';
    proof {
        assert(ps[0] == first@);
        if first@.len() == 1 {
            assert(lead_dot <==> (!rooted && first@ =~= seq!['.']));
        } else {
            assert(first@ != seq!['.']);
        }
    }
    let mut n: usize = named;
    if rooted {
        n = n + 1;
    }
    if lead_dot {
        n = n + 1;
    }
    n > 1
}

/// Whether `s` ends with `d`, computed.
fn ends_with_exec(s: &Vec<char>, d: &str) -> (res: bool)
    ensures
        res == ends_with(s@, d@),
{
    let dc = chars_of(d);
    if s.len() < dc.len() {
        return false;
    }
    let off = s.len() - dc.len();
    let mut k: usize = off;
    while k < s.len()
        invariant
            off <= k <= s@.len(),
            off + dc@.len() == s@.len(),
            dc@ == d@,
            forall|j: int| off <= j < k ==> s@[j] == dc@[j - off],
        decreases s@.len() - k,
    {
        if s[k] != dc[k - off] {
            assert(s@.subrange(off as int, s@.len() as int)[k - off] != d@[k - off]);
            return false;
        }
        k = k + 1;
    }
    assert(s@.subrange(off as int, s@.len() as int) =~= d@);
    true
}

/// Whether `s` names the folder `d`, computed.
fn names_folder_exec(s: &Vec<char>, d: &str) -> (res: bool)
    ensures
        res == names_folder(s@, d@),
{
    if ends_with_exec(s, d) {
        return true;
    }
    let mut dc = chars_of(d);
    dc.push('/');
    let ds = string_from_chars(&dc);
    ends_with_exec(s, ds.as_str())
}

/// Refuses to delete a path with at most one component (a root, a bare
/// name) or a system folder; the check on the path text that comes before
/// anything is removed.
pub fn delete_guard(path: &str) -> (res: Result<(), String>)
    ensures
        res is Ok <==> component_count(path@) > 1 && !is_system_folder(guard_form(path@)),
        component_count(path@) <= 1 ==> (res matches Err(m) && m@ == "드라이브 루트 또는 시스템 최상위는 삭제할 수 없습니다."@),
        component_count(path@) > 1 && is_system_folder(guard_form(path@)) ==> (res matches Err(m) && m@
            == "시스템 폴더는 삭제할 수 없습니다: "@ + path@),
{
    let cs = chars_of(path);
    if !has_several_components(&cs) {
        return Err("드라이브 루트 또는 시스템 최상위는 삭제할 수 없습니다.".to_string());
    }
    let lowered = to_lowercase(path);
    let lc = chars_of(lowered.as_str());
    let mut lower: Vec<char> = Vec::new();
    let mut i: usize = 0;
    while i < lc.len()
        invariant
            i <= lc@.len(),
            lc@ == lowercase(path@),
            lower@ == guard_form(path@).subrange(0, i as int),
        decreases lc@.len() - i,
    {
        let c = lc[i];
        let l = if c == '\\' {
            '/'
        } else {
            c
        };
        lower.push(l);
        i = i + 1;
        assert(lower@ =~= guard_form(path@).subrange(0, i as int));
    }
    assert(lower@ =~= guard_form(path@));
    let system = names_folder_exec(&lower, "/windows") || names_folder_exec(&lower, "/program files")
        || names_folder_exec(&lower, "/program files (x86)") || names_folder_exec(&lower, "/programdata")
        || names_folder_exec(&lower, "/system32") || names_folder_exec(&lower, "/system")
        || names_folder_exec(&lower, "/usr") || names_folder_exec(&lower, "/etc")
        || names_folder_exec(&lower, "/bin") || names_folder_exec(&lower, "/sbin")
        || names_folder_exec(&lower, "/boot") || names_folder_exec(&lower, "/var")
        || names_folder_exec(&lower, "/lib");
    if system {
        let mut msg: Vec<char> = Vec::new();
        push_str(&mut msg, "시스템 폴더는 삭제할 수 없습니다: ");
        push_str(&mut msg, path);
        return Err(string_from_chars(&msg));
    }
    Ok(())
}

/// The number of bytes a character takes in UTF-8.
pub open spec fn utf8_width(c: char) -> nat {
    if (c as u32) < 0x80 {
        1
    } else if (c as u32) < 0x800 {
        2
    } else if (c as u32) < 0x10000 {
        3
    } else {
        4
    }
}

/// The number of bytes a text takes in UTF-8.
pub open spec fn utf8_len(s: Seq<char>) -> nat
    decreases s.len(),
{
    if s.len() == 0 {
        0
    } else {
        utf8_len(s.drop_last()) + utf8_width(s.last())
    }
}

/// A text without its trailing `/` and `\` characters.
pub open spec fn trim_end_separators(s: Seq<char>) -> Seq<char>
    decreases s.len(),
{
    if s.len() > 0 && (s.last() == '/' || s.last() == '\\') {
        trim_end_separators(s.drop_last())
    } else {
        s
    }
}

/// Whether a Windows path is a top-level folder such as `c:/`: at most three
/// bytes once its trailing separators are dropped.
pub open spec fn windows_top_level(path: Seq<char>) -> bool {
    utf8_len(trim_end_separators(path)) <= 3
}

/// `delete_guard`, and on Windows also a refusal of a top-level folder (at
/// most three bytes without its trailing separators, such as `c:/`).
pub fn delete_guard_on(path: &str, windows: bool) -> (res: Result<(), String>)
    ensures
        res is Ok <==> component_count(path@) > 1 && !is_system_folder(guard_form(path@)) && !(windows
            && windows_top_level(path@)),
        component_count(path@) <= 1 ==> (res matches Err(m) && m@ == "드라이브 루트 또는 시스템 최상위는 삭제할 수 없습니다."@),
        component_count(path@) > 1 && is_system_folder(guard_form(path@)) ==> (res matches Err(m) && m@
            == "시스템 폴더는 삭제할 수 없습니다: "@ + path@),
        component_count(path@) > 1 && !is_system_folder(guard_form(path@)) && windows && windows_top_level(path@)
            ==> (res matches Err(m) && m@ == "시스템 최상위 폴더는 삭제할 수 없습니다."@),
{
    match delete_guard(path) {
        Ok(()) => {},
        Err(e) => return Err(e),
    }
    if windows && is_windows_top_level(path) {
        return Err("시스템 최상위 폴더는 삭제할 수 없습니다.".to_string());
    }
    Ok(())
}

/// Whether a path is a Windows top-level folder (see `windows_top_level`).
fn is_windows_top_level(path: &str) -> (res: bool)
    ensures
        res == windows_top_level(path@),
{
    let cs = chars_of(path);
    let mut k: usize = cs.len();
    assert(cs@.subrange(0, cs@.len() as int) =~= cs@);
    while k > 0 && (cs[k - 1] == '/' || cs[k - 1] == '\\')
        invariant
            k <= cs@.len(),
            trim_end_separators(cs@) == trim_end_separators(cs@.subrange(0, k as int)),
        decreases k,
    {
        assert(cs@.subrange(0, k - 1) =~= cs@.subrange(0, k as int).drop_last());
        k = k - 1;
    }
    assert(trim_end_separators(cs@.subrange(0, k as int)) == cs@.subrange(0, k as int));
    let ghost t = cs@.subrange(0, k as int);
    let mut width: usize = 0;
    let mut i: usize = 0;
    while i < k
        invariant
            i <= k,
            k <= cs@.len(),
            t == cs@.subrange(0, k as int),
            width == if utf8_len(t.subrange(0, i as int)) < 4 { utf8_len(t.subrange(0, i as int)) } else { 4 },
        decreases k - i,
    {
        let code = cs[i] as u32;
        let w: usize = if code < 0x80 {
            1
        } else if code < 0x800 {
            2
        } else if code < 0x10000 {
            3
        } else {
            4
        };
        assert(t.subrange(0, i + 1).drop_last() =~= t.subrange(0, i as int));
        width = if width + w < 4 {
            width + w
        } else {
            4
        };
        i = i + 1;
    }
    assert(t.subrange(0, k as int) =~= t);
    width <= 3
}

/// Where `pack_to_zip` writes: the output asked for, else the input with
/// `.zip` appended.
pub fn zip_target(input: &str, output: Option<&str>) -> (res: String)
    ensures
        res@ == match output {
            Some(o) => o@,
            None => input@ + ".zip"@,
        },
{
    match output {
        Some(o) => o.to_string(),
        None => {
            let mut cs: Vec<char> = Vec::new();
            push_str(&mut cs, input);
            push_str(&mut cs, ".zip");
            string_from_chars(&cs)
        },
    }
}

/// Whether `pack_to_zip` may write its target: not when it exists and
/// overwriting was not asked for.
pub fn zip_overwrite_check(target: &str, target_exists: bool, force: bool) -> (res: Result<(), String>)
    ensures
        res is Ok <==> (!target_exists || force),
        res matches Err(m) ==> m@ == "파일이 이미 있어요: "@ + target@,
{
    if target_exists && !force {
        let mut cs: Vec<char> = Vec::new();
        push_str(&mut cs, "파일이 이미 있어요: ");
        push_str(&mut cs, target);
        return Err(string_from_chars(&cs));
    }
    Ok(())
}

/// The named pieces of `pieces`: neither empty nor `.`.
pub open spec fn named_seq(pieces: Seq<Seq<char>>) -> Seq<Seq<char>>
    decreases pieces.len(),
{
    if pieces.len() == 0 {
        pieces
    } else if pieces.last().len() > 0 && pieces.last() != seq!['.'] {
        named_seq(pieces.drop_last()).push(pieces.last())
    } else {
        named_seq(pieces.drop_last())
    }
}

/// The components of a path (`Path::components`): the root as `/`, a leading
/// `.` of a relative path, then each named piece between separators.
pub open spec fn path_components(path: Seq<char>) -> Seq<Seq<char>> {
    let pieces = split_on(path, '/');
    let rooted = path.len() > 0 && path[0] == '/';
    let head: Seq<Seq<char>> = if rooted {
        seq![seq!['/']]
    } else if pieces[0] == seq!['.'] {
        seq![seq!['.']]
    } else {
        Seq::empty()
    };
    head + named_seq(pieces)
}

/// Whether `base`'s components begin `path`'s (`Path::starts_with`).
pub open spec fn path_starts_with(path: Seq<char>, base: Seq<char>) -> bool {
    path_components(base).is_prefix_of(path_components(path))
}

/// The file name of a path as `Path::file_name` gives it: its last named
/// piece, unless that is `..`.
pub open spec fn component_file_name(path: Seq<char>) -> Option<Seq<char>> {
    let named = named_seq(split_on(path, '/'));
    if named.len() > 0 && named.last() != seq!['.', '.'] {
        Some(named.last())
    } else {
        None
    }
}

/// The named pieces of a path, computed.
fn named_of(path: &Vec<char>) -> (res: Vec<Vec<char>>)
    ensures
        char_views(res@) == named_seq(split_on(path@, '/')),
{
    let pieces = split_chars(path, '/');
    let ghost ps = char_views(pieces@);
    let mut out: Vec<Vec<char>> = Vec::new();
    let mut i: usize = 0;
    assert(ps.take(0) =~= Seq::<Seq<char>>::empty());
    while i < pieces.len()
        invariant
            i <= pieces@.len(),
            ps == char_views(pieces@),
            char_views(out@) == named_seq(ps.take(i as int)),
        decreases pieces@.len() - i,
    {
        let p = &pieces[i];
        let is_dot = p.len() == 1 && p[0] == '.';
        proof {
            assert(ps.take(i + 1).drop_last() =~= ps.take(i as int));
            assert(ps.take(i + 1).last() == p@);
            if p@.len() == 1 {
                assert(is_dot <==> p@ =~= seq!['.']);
            } else {
                assert(p@ != seq!['.']);
            }
        }
        if p.len() > 0 && !is_dot {
            let ghost before = char_views(out@);
            let copy = vstd::slice::slice_to_vec(p.as_slice());
            out.push(copy);
            assert(char_views(out@) =~= before.push(p@));
        }
        i = i + 1;
    }
    assert(ps.take(ps.len() as int) =~= ps);
    out
}

/// The components of a path, computed.
pub(crate) fn components_of(path: &Vec<char>) -> (res: Vec<Vec<char>>)
    ensures
        char_views(res@) == path_components(path@),
{
    let pieces = split_chars(path, '/');
    let ghost ps = char_views(pieces@);
    proof {
        crate::text::lemma_split_nonempty(path@, '/');
    }
    let rooted = path.len() > 0 && path[0] == '/';
    let first = &pieces[0];
    let lead_dot = first.len() == 1 && first[0] == '.';
    proof {
        assert(ps[0] == first@);
        if first@.len() == 1 {
            assert(lead_dot <==> first@ =~= seq!['.']);
        } else {
            assert(first@ != seq!['.']);
        }
    }
    let mut out: Vec<Vec<char>> = Vec::new();
    if rooted {
        let mut root: Vec<char> = Vec::new();
        root.push('/');
        out.push(root);
    } else if lead_dot {
        let mut dot: Vec<char> = Vec::new();
        dot.push('.');
        out.push(dot);
    }
    let ghost head = char_views(out@);
    assert(head =~= (if rooted {
        seq![seq!['/']]
    } else if ps[0] == seq!['.'] {
        seq![seq!['.']]
    } else {
        Seq::<Seq<char>>::empty()
    }));
    let named = named_of(path);
    let mut i: usize = 0;
    assert(char_views(named@).take(0) =~= Seq::<Seq<char>>::empty());
    assert(head + Seq::<Seq<char>>::empty() =~= head);
    while i < named.len()
        invariant
            i <= named@.len(),
            char_views(out@) == head + char_views(named@).take(i as int),
        decreases named@.len() - i,
    {
        let ghost before = char_views(out@);
        let copy = vstd::slice::slice_to_vec(named[i].as_slice());
        out.push(copy);
        assert(char_views(out@) =~= before.push(named@[i as int]@));
        assert(head + char_views(named@).take(i + 1) =~= (head + char_views(named@).take(i as int)).push(named@[i as int]@));
        i = i + 1;
    }
    assert(char_views(named@).take(named@.len() as int) =~= char_views(named@));
    out
}

/// Whether the components of `base` begin those of `path`, computed.
fn path_starts_with_exec(path: &Vec<char>, base: &Vec<char>) -> (res: bool)
    ensures
        res == path_starts_with(path@, base@),
{
    let pc = components_of(path);
    let bc = components_of(base);
    if bc.len() > pc.len() {
        return false;
    }
    let mut i: usize = 0;
    while i < bc.len()
        invariant
            i <= bc@.len() <= pc@.len(),
            char_views(pc@) == path_components(path@),
            char_views(bc@) == path_components(base@),
            forall|j: int| 0 <= j < i ==> bc@[j]@ == pc@[j]@,
        decreases bc@.len() - i,
    {
        if !crate::text::chars_equal(&bc[i], &pc[i]) {
            proof {
                assert(char_views(pc@).subrange(0, bc@.len() as int)[i as int] != char_views(bc@)[i as int]);
            }
            return false;
        }
        i = i + 1;
    }
    assert(char_views(bc@) =~= char_views(pc@).subrange(0, bc@.len() as int));
    true
}

/// Whether `s` begins with `p`.
pub open spec fn begins_with(s: Seq<char>, p: Seq<char>) -> bool {
    s.len() >= p.len() && s.take(p.len() as int) == p
}

/// The guard before a temporary extraction folder is removed: the folder
/// (canonical) must lie under the temporary root (canonical) and its name
/// must begin with `qsafe-info-`.
pub fn temp_cleanup_guard(dir: &str, tmp_root: &str) -> (res: Result<(), String>)
    ensures
        !path_starts_with(dir@, tmp_root@) ==> (res matches Err(m) && m@ == "안전 가드: "@ + dir@ + " 가 temp_dir ("@
            + tmp_root@ + ") 안에 없음"@),
        path_starts_with(dir@, tmp_root@) ==> {
            let name = match component_file_name(dir@) {
                Some(n) => n,
                None => Seq::empty(),
            };
            &&& res is Ok <==> begins_with(name, "qsafe-info-"@)
            &&& res is Err ==> (res matches Err(m) && m@ == "안전 가드: "@ + name + " 가 qsafe-info-* 패턴 아님"@)
        },
{
    let dc = chars_of(dir);
    let rc = chars_of(tmp_root);
    if !path_starts_with_exec(&dc, &rc) {
        let mut msg: Vec<char> = Vec::new();
        push_str(&mut msg, "안전 가드: ");
        push_str(&mut msg, dir);
        push_str(&mut msg, " 가 temp_dir (");
        push_str(&mut msg, tmp_root);
        push_str(&mut msg, ") 안에 없음");
        return Err(string_from_chars(&msg));
    }
    let named = named_of(&dc);
    let mut name: Vec<char> = Vec::new();
    let n = named.len();
    if n > 0 {
        let last = &named[n - 1];
        let dotdot = last.len() == 2 && last[0] == '.' && last[1] == '.';
        proof {
            assert(char_views(named@).last() == last@);
            if last@.len() == 2 {
                assert(dotdot <==> last@ =~= seq!['.', '.']);
            } else {
                assert(last@ != seq!['.', '.']);
            }
        }
        if !dotdot {
            name = vstd::slice::slice_to_vec(last.as_slice());
        }
    }
    assert(name@ == (match component_file_name(dc@) {
        Some(x) => x,
        None => Seq::<char>::empty(),
    }));
    let prefix = chars_of("qsafe-info-");
    if name.len() >= prefix.len() && crate::iso::matches_at(&name, &prefix, 0) {
        assert(name@.subrange(0, prefix@.len() as int) =~= name@.take(prefix@.len() as int));
        Ok(())
    } else {
        proof {
            if begins_with(name@, "qsafe-info-"@) {
                assert(name@.subrange(0, prefix@.len() as int) =~= name@.take(prefix@.len() as int));
            }
        }
        let mut msg: Vec<char> = Vec::new();
        push_str(&mut msg, "안전 가드: ");
        push_chars(&mut msg, &name);
        push_str(&mut msg, " 가 qsafe-info-* 패턴 아님");
        Err(string_from_chars(&msg))
    }
}

/// What the application shows of an identity file.
#[derive(Debug)]
pub struct IdentitySummary {
    pub fingerprint: String,
    pub x25519_pk_len: usize,
    pub mlkem768_pk_len: usize,
    pub path: String,
    pub public_path: Option<String>,
}

/// The summary of an identity with public keys `public`, read from or written
/// to `path` (with its public keys written to `public_path`, where they were).
pub fn identity_summary(public: &crate::identity::IdentityPublic, path: String, public_path: Option<String>) -> (res:
    IdentitySummary)
    ensures
        res.fingerprint@ == crate::identity::fingerprint_text(public.x25519_pk@, public.mlkem768_pk@),
        res.x25519_pk_len == public.x25519_pk@.len(),
        res.mlkem768_pk_len == public.mlkem768_pk@.len(),
        res.path@ == path@,
        res.public_path == public_path,
{
    IdentitySummary {
        fingerprint: public.fingerprint(),
        x25519_pk_len: public.x25519_pk.len(),
        mlkem768_pk_len: public.mlkem768_pk.len(),
        path,
        public_path,
    }
}

/// The releases page shown when a release names none.
pub const RELEASES_URL: &'static str = "https://github.com/heedong719/qsafe/releases";

/// The outcome of asking for the latest release.
#[derive(Debug)]
pub struct UpdateCheck {
    pub current: String,
    pub latest: String,
    pub up_to_date: bool,
    pub release_url: String,
}

/// Compares the running version with the latest release's tag: up to date
/// when the current version is at least the latest. The release page is the
/// one the release names, else the releases page.
pub fn update_check(current: String, latest: String, release_url: Option<String>) -> (res: UpdateCheck)
    ensures
        res.current@ == current@,
        res.latest@ == latest@,
        res.up_to_date == at_least(current@, latest@),
        res.release_url@ == (match release_url {
            Some(u) => u@,
            None => RELEASES_URL@,
        }),
{
    let up_to_date = version_at_least(current.as_str(), latest.as_str());
    let release_url = match release_url {
        Some(u) => u,
        None => RELEASES_URL.to_string(),
    };
    UpdateCheck { current, latest, up_to_date, release_url }
}

/// What the application says of itself.
#[derive(Debug)]
pub struct AboutInfo {
    pub version: &'static str,
    pub cipher_suite: &'static str,
    pub features: Vec<&'static str>,
    pub default_dir: String,
}

/// The application's description: its version, cipher suite, features and
/// the folder it saves to by default.
pub fn about_info(version: &'static str, default_dir: String) -> (res: AboutInfo)
    ensures
        res.version@ == version@,
        res.cipher_suite@ == "XChaCha20-Poly1305 + BLAKE3 + Argon2id"@,
        res.features@.len() == 6,
        res.features@[0]@ == "패스워드 (Argon2id)"@,
        res.features@[1]@ == "FIDO2 하드웨어 키"@,
        res.features@[2]@ == "BIP39 종이 백업"@,
        res.features@[3]@ == "Shamir 분산 백업"@,
        res.features@[4]@ == "X25519 + ML-KEM-768 (양자 안전 하이브리드)"@,
        res.features@[5]@ == "외부 아카이브 (RAR/ZIP/7Z/TAR/GZ/XZ/BZ2/LZ4/ZSTD/Brotli)"@,
        res.default_dir@ == default_dir@,
{
    let mut features: Vec<&'static str> = Vec::new();
    features.push("패스워드 (Argon2id)");
    features.push("FIDO2 하드웨어 키");
    features.push("BIP39 종이 백업");
    features.push("Shamir 분산 백업");
    features.push("X25519 + ML-KEM-768 (양자 안전 하이브리드)");
    features.push("외부 아카이브 (RAR/ZIP/7Z/TAR/GZ/XZ/BZ2/LZ4/ZSTD/Brotli)");
    AboutInfo { version, cipher_suite: "XChaCha20-Poly1305 + BLAKE3 + Argon2id", features, default_dir }
}

} // verus!
