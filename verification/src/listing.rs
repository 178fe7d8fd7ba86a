//! The file browser of the desktop application: which entries are shown,
//! how they are marked, and their order (folders first, then by name
//! without regard to case, entries of equal rank in the order they came).
use vstd::prelude::*;

use crate::primitives::chars_of;

verus! {

/// The lower-case form of a text that `str::to_lowercase` gives (Unicode
/// lower case).
pub uninterp spec fn lowercase(s: Seq<char>) -> Seq<char>;

/// The text in lower case (`str::to_lowercase`); the result depends on the
/// text alone.
#[verifier::external_body]
pub(crate) fn to_lowercase(s: &str) -> (res: String)
    ensures
        res@ == lowercase(s@),
{
    s.to_lowercase()
}

/// An entry of a folder listing.
#[derive(Debug)]
pub struct DirEntry {
    pub name: String,
    pub path: String,
    pub is_dir: bool,
    pub size: u64,
    pub modified_unix: i64,
    pub is_qsafe: bool,
    pub is_archive: bool,
}

/// Whether `s` ends with `t`.
pub open spec fn ends_with(s: Seq<char>, t: Seq<char>) -> bool {
    s.len() >= t.len() && s.skip(s.len() - t.len()) == t
}

/// Whether a lower-case name ends with the suffix of an archive format.
pub open spec fn archive_suffix(l: Seq<char>) -> bool {
    ||| ends_with(l, ".zip"@)
    ||| ends_with(l, ".7z"@)
    ||| ends_with(l, ".rar"@)
    ||| ends_with(l, ".tar"@)
    ||| ends_with(l, ".tgz"@)
    ||| ends_with(l, ".tar.gz"@)
    ||| ends_with(l, ".gz"@)
    ||| ends_with(l, ".xz"@)
    ||| ends_with(l, ".bz2"@)
    ||| ends_with(l, ".lz4"@)
    ||| ends_with(l, ".zst"@)
    ||| ends_with(l, ".br"@)
}

/// Whether a listing hides an entry: its name starts with `.`.
pub open spec fn hidden(name: Seq<char>) -> bool {
    name.len() > 0 && name[0] == '.'
}

/// Whether a listing hides an entry with this name.
pub fn is_hidden(name: &str) -> (res: bool)
    ensures
        res == hidden(name@),
{
    let cs = chars_of(name);
    cs.len() > 0 && cs[0] == '.'
}

/// Whether `s` ends with `t`, computed.
pub(crate) fn ends_with_exec(s: &Vec<char>, t: &str) -> (res: bool)
    ensures
        res == ends_with(s@, t@),
{
    let tc = chars_of(t);
    if s.len() < tc.len() {
        return false;
    }
    let off = s.len() - tc.len();
    let mut tail: Vec<char> = Vec::new();
    let mut k: usize = off;
    while k < s.len()
        invariant
            off <= k <= s@.len(),
            tail@ == s@.subrange(off as int, k as int),
        decreases s@.len() - k,
    {
        tail.push(s[k]);
        k = k + 1;
        assert(tail@ =~= s@.subrange(off as int, k as int));
    }
    assert(tail@ =~= s@.skip(off as int));
    crate::text::chars_equal(&tail, &tc)
}

/// How an entry is marked: a `.qs` file, and an archive (files only); both
/// without regard to case.
pub fn entry_marks(name: &str, is_dir: bool) -> (res: (bool, bool))
    ensures
        res.0 == ends_with(lowercase(name@), ".qs"@),
        res.1 == (!is_dir && archive_suffix(lowercase(name@))),
{
    let lower = to_lowercase(name);
    let l = chars_of(lower.as_str());
    let is_qsafe = ends_with_exec(&l, ".qs");
    let is_archive = !is_dir && (ends_with_exec(&l, ".zip") || ends_with_exec(&l, ".7z") || ends_with_exec(
        &l,
        ".rar",
    ) || ends_with_exec(&l, ".tar") || ends_with_exec(&l, ".tgz") || ends_with_exec(&l, ".tar.gz")
        || ends_with_exec(&l, ".gz") || ends_with_exec(&l, ".xz") || ends_with_exec(&l, ".bz2") || ends_with_exec(
        &l,
        ".lz4",
    ) || ends_with_exec(&l, ".zst") || ends_with_exec(&l, ".br"));
    (is_qsafe, is_archive)
}

/// Whether `a` comes before `b` in character order (`str` comparison).
pub open spec fn lex_lt(a: Seq<char>, b: Seq<char>) -> bool
    decreases a.len(),
{
    if a.len() == 0 {
        b.len() > 0
    } else if b.len() == 0 {
        false
    } else if a[0] != b[0] {
        a[0] < b[0]
    } else {
        lex_lt(a.drop_first(), b.drop_first())
    }
}

/// Any two texts are equal or one comes first.
pub proof fn lemma_lex_total(a: Seq<char>, b: Seq<char>)
    ensures
        lex_lt(a, b) || lex_lt(b, a) || a == b,
    decreases a.len(),
{
    if a.len() > 0 && b.len() > 0 && a[0] == b[0] {
        lemma_lex_total(a.drop_first(), b.drop_first());
        if a.drop_first() == b.drop_first() {
            assert(a =~= seq![a[0]] + a.drop_first());
            assert(b =~= seq![b[0]] + b.drop_first());
        }
    } else if a.len() == 0 && b.len() == 0 {
        assert(a =~= b);
    }
}

/// Character order is transitive.
pub proof fn lemma_lex_trans(a: Seq<char>, b: Seq<char>, c: Seq<char>)
    requires
        lex_lt(a, b),
        lex_lt(b, c),
    ensures
        lex_lt(a, c),
    decreases a.len(),
{
    if a.len() > 0 && b.len() > 0 && c.len() > 0 && a[0] == b[0] && b[0] == c[0] {
        lemma_lex_trans(a.drop_first(), b.drop_first(), c.drop_first());
    }
}

/// Whether entry `a` is listed before `b`: folders first, then by lower-case
/// name.
pub open spec fn listed_before(a: DirEntry, b: DirEntry) -> bool {
    (a.is_dir && !b.is_dir) || (a.is_dir == b.is_dir && lex_lt(lowercase(a.name@), lowercase(b.name@)))
}

/// Whether two entries have the same rank (both folders or both files, same
/// lower-case name).
pub open spec fn same_rank(a: DirEntry, b: DirEntry) -> bool {
    a.is_dir == b.is_dir && lowercase(a.name@) == lowercase(b.name@)
}

/// Whether `order` lists `entries` stably sorted: each entry of `sorted` is
/// `entries[order[i]]`, no entry is taken twice, and each pair is in listing
/// order, or of equal rank and in the order they came.
pub open spec fn stably_sorted(entries: Seq<DirEntry>, sorted: Seq<DirEntry>, order: Seq<int>) -> bool {
    &&& order.len() == entries.len() == sorted.len()
    &&& forall|i: int| 0 <= i < order.len() ==> 0 <= #[trigger] order[i] < entries.len()
    &&& forall|i: int, j: int| 0 <= i < j < order.len() ==> order[i] != order[j]
    &&& forall|i: int| 0 <= i < sorted.len() ==> #[trigger] sorted[i] == entries[order[i]]
    &&& forall|i: int, j: int|
        0 <= i < j < sorted.len() ==> listed_before(sorted[i], sorted[j]) || (same_rank(sorted[i], sorted[j])
            && order[i] < order[j])
}

/// Whether `a` is listed before `b`, computed.
fn listed_before_exec(a: &DirEntry, b: &DirEntry) -> (res: bool)
    ensures
        res == listed_before(*a, *b),
{
    if a.is_dir != b.is_dir {
        return a.is_dir;
    }
    let la = to_lowercase(a.name.as_str());
    let lb = to_lowercase(b.name.as_str());
    let x = chars_of(la.as_str());
    let y = chars_of(lb.as_str());
    lex_less(&x, &y)
}

/// Whether `a` comes before `b` in character order, computed.
pub(crate) fn lex_less(a: &Vec<char>, b: &Vec<char>) -> (res: bool)
    ensures
        res == lex_lt(a@, b@),
{
    let mut i: usize = 0;
    assert(a@.skip(0) =~= a@ && b@.skip(0) =~= b@);
    while i < a.len() && i < b.len() && a[i] == b[i]
        invariant
            i <= a@.len(),
            i <= b@.len(),
            lex_lt(a@, b@) == lex_lt(a@.skip(i as int), b@.skip(i as int)),
        decreases a@.len() - i,
    {
        assert(a@.skip(i as int).drop_first() =~= a@.skip(i + 1));
        assert(b@.skip(i as int).drop_first() =~= b@.skip(i + 1));
        i = i + 1;
    }
    if i == a.len() {
        i < b.len()
    } else if i == b.len() {
        false
    } else {
        a[i] < b[i]
    }
}

/// Sorts a listing: folders first, then by lower-case name; entries of equal
/// rank keep the order they came in (a stable sort, as `sort_by` is).
pub fn sort_entries(entries: Vec<DirEntry>) -> (res: Vec<DirEntry>)
    ensures
        exists|order: Seq<int>| stably_sorted(entries@, res@, order),
{
    let ghost all = entries@;
    let n = entries.len();
    let mut src = entries;
    let mut out: Vec<DirEntry> = Vec::new();
    let ghost mut order: Seq<int> = Seq::empty();
    let mut k: usize = 0;
    while src.len() > 0
        invariant
            src@ == all.skip(k as int),
            n == all.len(),
            k <= all.len(),
            order.len() == k == out@.len(),
            forall|i: int| 0 <= i < order.len() ==> 0 <= #[trigger] order[i] < k,
            forall|i: int, j: int| 0 <= i < j < order.len() ==> order[i] != order[j],
            forall|i: int| 0 <= i < out@.len() ==> #[trigger] out@[i] == all[order[i]],
            forall|i: int, j: int|
                0 <= i < j < out@.len() ==> listed_before(out@[i], out@[j]) || (same_rank(out@[i], out@[j])
                    && order[i] < order[j]),
        decreases src@.len(),
    {
        assert(all.skip(k as int)[0] == all[k as int]);
        let e = src.remove(0);
        assert(src@ =~= all.skip(k + 1));
        let mut pos: usize = 0;
        while pos < out.len() && !listed_before_exec(&e, &out[pos])
            invariant
                pos <= out@.len(),
                forall|i: int| 0 <= i < pos ==> !listed_before(e, #[trigger] out@[i]),
            decreases out@.len() - pos,
        {
            pos = pos + 1;
        }
        proof {
            lemma_insert_keeps_order(out@, order, e, k as int, pos as int);
        }
        out.insert(pos, e);
        proof {
            order = order.insert(pos as int, k as int);
        }
        k = k + 1;
    }
    proof {
        assert(all.skip(k as int).len() == 0);
        assert(stably_sorted(all, out@, order));
    }
    out
}

/// Inserting an entry before the first entry it is listed before keeps a
/// listing stably sorted.
proof fn lemma_insert_keeps_order(out: Seq<DirEntry>, order: Seq<int>, e: DirEntry, k: int, pos: int)
    requires
        0 <= pos <= out.len() == order.len(),
        forall|i: int| 0 <= i < order.len() ==> 0 <= #[trigger] order[i] < k,
        forall|i: int, j: int|
            0 <= i < j < out.len() ==> listed_before(out[i], out[j]) || (same_rank(out[i], out[j]) && order[i]
                < order[j]),
        forall|i: int| 0 <= i < pos ==> !listed_before(e, #[trigger] out[i]),
        pos < out.len() ==> listed_before(e, out[pos]),
    ensures
        ({
            let o2 = out.insert(pos, e);
            let r2 = order.insert(pos, k);
            forall|i: int, j: int|
                0 <= i < j < o2.len() ==> listed_before(o2[i], o2[j]) || (same_rank(o2[i], o2[j]) && r2[i] < r2[j])
        }),
{
    let o2 = out.insert(pos, e);
    let r2 = order.insert(pos, k);
    assert forall|i: int, j: int| 0 <= i < j < o2.len() implies listed_before(o2[i], o2[j]) || (same_rank(
        o2[i],
        o2[j],
    ) && r2[i] < r2[j]) by {
        if j < pos {
            assert(o2[i] == out[i] && o2[j] == out[j] && r2[i] == order[i] && r2[j] == order[j]);
        } else if j == pos {
            assert(o2[i] == out[i] && o2[j] == e && r2[i] == order[i] && r2[j] == k);
            lemma_rank_total(out[i], e);
        } else if i == pos {
            assert(o2[i] == e && o2[j] == out[j - 1]);
            if j - 1 > pos {
                assert(listed_before(out[pos], out[j - 1]) || same_rank(out[pos], out[j - 1]));
                lemma_before_then(e, out[pos], out[j - 1]);
            }
        } else if i < pos {
            assert(o2[i] == out[i] && o2[j] == out[j - 1] && r2[i] == order[i] && r2[j] == order[j - 1]);
        } else {
            assert(o2[i] == out[i - 1] && o2[j] == out[j - 1] && r2[i] == order[i - 1] && r2[j] == order[j - 1]);
        }
    }
}

/// Two entries are in listing order one way or the other, or of equal rank.
proof fn lemma_rank_total(a: DirEntry, b: DirEntry)
    ensures
        listed_before(a, b) || listed_before(b, a) || same_rank(a, b),
{
    lemma_lex_total(lowercase(a.name@), lowercase(b.name@));
}

/// An entry listed before `b` is listed before what follows `b` or ranks
/// with it.
proof fn lemma_before_then(a: DirEntry, b: DirEntry, c: DirEntry)
    requires
        listed_before(a, b),
        listed_before(b, c) || same_rank(b, c),
    ensures
        listed_before(a, c),
{
    if a.is_dir == b.is_dir && b.is_dir == c.is_dir && listed_before(b, c) {
        lemma_lex_trans(lowercase(a.name@), lowercase(b.name@), lowercase(c.name@));
    }
}

/// A folder listing as the file browser shows it.
#[derive(Debug)]
pub struct DirListing {
    pub current_path: String,
    pub parent_path: Option<String>,
    pub entries: Vec<DirEntry>,
}

/// The listing of the folder at `current_path` (whose parent, where it has
/// one, is `parent_path`) with the entries read from it, in listing order.
pub fn dir_listing(current_path: String, parent_path: Option<String>, entries: Vec<DirEntry>) -> (res: DirListing)
    ensures
        res.current_path@ == current_path@,
        res.parent_path == parent_path,
        exists|order: Seq<int>| stably_sorted(entries@, res.entries@, order),
{
    let sorted = sort_entries(entries);
    let ghost order = choose|order: Seq<int>| stably_sorted(entries@, sorted@, order);
    let res = DirListing { current_path, parent_path, entries: sorted };
    assert(stably_sorted(entries@, res.entries@, order));
    res
}

} // verus!
