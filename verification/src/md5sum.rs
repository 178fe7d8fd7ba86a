//! MD5 digests as the desktop application records them beside what it packs
//! and compares after unpacking: of a file's bytes, and of a folder, over its
//! files in path order with their paths relative to the folder's parent.
use vstd::prelude::*;

use crate::primitives::{md5, md5_digest};
use crate::bytes::append_bytes;
use crate::gui::{components_of, path_components};
use crate::listing::{lemma_lex_total, lemma_lex_trans, lex_less, lex_lt};
use crate::text::{char_views, chars_equal, hex_chars, push_hex};
use crate::primitives::{chars_of, string_from_chars};
use vstd::utf8::{encode_utf8, encode_scalar};

verus! {

/// The MD5 of a file's bytes, in lower-case hexadecimal.
pub fn file_md5_hex(data: &[u8]) -> (res: String)
    ensures
        res@ == hex_chars(md5_digest(data@)),
{
    let d = md5(data);
    let mut out: Vec<char> = Vec::new();
    push_hex(&mut out, d.as_slice());
    assert(out@ =~= hex_chars(md5_digest(data@)));
    string_from_chars(&out)
}

/// Whether a path starts at the root.
pub open spec fn rooted(p: Seq<char>) -> bool {
    p.len() > 0 && p[0] == '/'
}

/// Whether a relative path starts with the component `.`.
pub open spec fn leading_cur_dir(p: Seq<char>) -> bool {
    !rooted(p) && p.len() > 0 && p[0] == '.' && (p.len() == 1 || p[1] == '/')
}

/// Where the named part of a path begins: after the root or the leading `.`.
pub open spec fn body_start(p: Seq<char>) -> int {
    (if rooted(p) { 1int } else { 0int }) + (if leading_cur_dir(p) { 1int } else { 0int })
}

/// The index of the last `/` of `p` in `[start, n)`, if any.
pub open spec fn last_sep(p: Seq<char>, start: int, n: int) -> Option<int>
    decreases n - start,
{
    if n <= start {
        None
    } else if p[n - 1] == '/' {
        Some(n - 1)
    } else {
        last_sep(p, start, n - 1)
    }
}

/// Where the last piece of `p.take(n)` begins.
pub open spec fn back_piece_start(p: Seq<char>, n: int) -> int {
    match last_sep(p, body_start(p), n) {
        Some(j) => j + 1,
        None => body_start(p),
    }
}

/// What is left of `p.take(n)` once its last piece (and the separator before
/// it) is cut.
pub open spec fn back_cut(p: Seq<char>, n: int) -> int {
    match last_sep(p, body_start(p), n) {
        Some(j) => j,
        None => body_start(p),
    }
}

/// Whether a piece between separators is a component (neither empty nor `.`).
pub open spec fn is_component(piece: Seq<char>) -> bool {
    piece.len() > 0 && piece != seq!['.']
}

/// `p.take(n)` without trailing pieces that are no components (as
/// `Components::as_path` trims).
pub open spec fn trim_back(p: Seq<char>, n: int) -> int
    decreases n,
{
    if body_start(p) < n <= p.len() && 0 <= back_cut(p, n) < n && !is_component(
        p.subrange(back_piece_start(p, n), n),
    ) {
        trim_back(p, back_cut(p, n))
    } else {
        n
    }
}

/// The length of the parent of a path (`Path::parent`), a prefix of it; none
/// for a root or an empty path.
pub open spec fn parent_len(p: Seq<char>) -> Option<int> {
    let n0 = trim_back(p, p.len() as int);
    if n0 > body_start(p) {
        Some(trim_back(p, back_cut(p, n0)))
    } else if rooted(p) {
        None
    } else if leading_cur_dir(p) {
        Some(0)
    } else {
        None
    }
}

/// The last separator lies in its range.
proof fn lemma_last_sep(p: Seq<char>, start: int, n: int)
    ensures
        last_sep(p, start, n) matches Some(j) ==> start <= j < n && p[j] == '/',
        last_sep(p, start, n) is None ==> forall|j: int| start <= j < n ==> p[j] != '/',
    decreases n - start,
{
    if n > start && p[n - 1] != '/' {
        lemma_last_sep(p, start, n - 1);
    }
}

/// Where the named part of a path begins, computed.
fn body_start_exec(p: &Vec<char>) -> (res: usize)
    ensures
        res == body_start(p@),
        res <= p@.len(),
{
    let rooted = p.len() > 0 && p[0] == '/';
    let cur = !rooted && p.len() > 0 && p[0] == '.' && (p.len() == 1 || p[1] == '/');
    (if rooted { 1 } else { 0 }) + (if cur { 1 } else { 0 })
}

/// The last separator of `p` in `[start, n)`, computed.
fn last_sep_exec(p: &Vec<char>, start: usize, n: usize) -> (res: Option<usize>)
    requires
        n <= p@.len(),
    ensures
        res matches Some(j) ==> last_sep(p@, start as int, n as int) == Some(j as int),
        res is None ==> last_sep(p@, start as int, n as int) is None,
{
    let mut k = n;
    while k > start && p[k - 1] != '/'
        invariant
            k <= n <= p@.len(),
            last_sep(p@, start as int, n as int) == last_sep(p@, start as int, k as int),
        decreases k,
    {
        k = k - 1;
    }
    if k > start {
        Some(k - 1)
    } else {
        None
    }
}

/// Whether `p[from..to)` is a component, computed.
fn is_component_exec(p: &Vec<char>, from: usize, to: usize) -> (res: bool)
    requires
        from <= to <= p@.len(),
    ensures
        res == is_component(p@.subrange(from as int, to as int)),
{
    let len = to - from;
    let dot = len == 1 && p[from] == '.';
    proof {
        let piece = p@.subrange(from as int, to as int);
        if len == 1 {
            assert(piece[0] == p@[from as int]);
            assert(dot <==> piece =~= seq!['.']);
        } else {
            assert(piece.len() != 1);
        }
    }
    len > 0 && !dot
}

/// `p.take(n)` without trailing pieces that are no components, computed.
fn trim_back_exec(p: &Vec<char>, n: usize) -> (res: usize)
    requires
        n <= p@.len(),
    ensures
        res == trim_back(p@, n as int),
        res <= n,
{
    let start = body_start_exec(p);
    let mut k = n;
    while k > start
        invariant
            start == body_start(p@),
            k <= n <= p@.len(),
            trim_back(p@, n as int) == trim_back(p@, k as int),
        decreases k,
    {
        let sep = last_sep_exec(p, start, k);
        proof {
            lemma_last_sep(p@, start as int, k as int);
        }
        let (piece_start, cut) = match sep {
            Some(j) => (j + 1, j),
            None => (start, start),
        };
        if is_component_exec(p, piece_start, k) {
            return k;
        }
        k = cut;
    }
    k
}

/// The length of the parent of a path, computed.
fn parent_len_exec(p: &Vec<char>) -> (res: Option<usize>)
    ensures
        match parent_len(p@) {
            Some(k) => res == Some(k as usize) && 0 <= k < p@.len(),
            None => res is None,
        },
{
    let start = body_start_exec(p);
    let n0 = trim_back_exec(p, p.len());
    if n0 > start {
        let sep = last_sep_exec(p, start, n0);
        proof {
            lemma_last_sep(p@, start as int, n0 as int);
        }
        let cut = match sep {
            Some(j) => j,
            None => start,
        };
        let k = trim_back_exec(p, cut);
        return Some(k);
    }
    let rooted = p.len() > 0 && p[0] == '/';
    let cur = !rooted && p.len() > 0 && p[0] == '.' && (p.len() == 1 || p[1] == '/');
    if rooted {
        None
    } else if cur {
        Some(0)
    } else {
        None
    }
}

/// The encoding of two texts one after the other is the two encodings.
pub proof fn lemma_encode_concat(a: Seq<char>, b: Seq<char>)
    ensures
        encode_utf8(a + b) == encode_utf8(a) + encode_utf8(b),
    decreases a.len(),
{
    if a.len() == 0 {
        assert(a + b =~= b);
        assert(encode_utf8(a) + encode_utf8(b) =~= encode_utf8(b));
    } else {
        assert((a + b)[0] == a[0]);
        assert((a + b).drop_first() =~= a.drop_first() + b);
        lemma_encode_concat(a.drop_first(), b);
        assert(encode_utf8(a + b) =~= encode_scalar(a[0] as u32) + (encode_utf8(a.drop_first()) + encode_utf8(b)));
    }
}

/// Every character takes at least one byte.
pub proof fn lemma_encode_len(a: Seq<char>)
    ensures
        encode_utf8(a).len() >= a.len(),
    decreases a.len(),
{
    if a.len() > 0 {
        lemma_encode_len(a.drop_first());
        assert(encode_scalar(a[0] as u32).len() >= 1);
    }
}

/// The number of bytes of the parent of `dir` (`Path::parent`), if it has one.
pub open spec fn parent_bytes(dir: Seq<char>) -> Option<int> {
    match parent_len(dir) {
        Some(k) => Some(encode_utf8(dir.take(k)).len() as int),
        None => None,
    }
}

/// The number of bytes of the parent of `dir`, computed. The parent is
/// shorter than `dir`.
pub fn parent_byte_len(dir: &str) -> (res: Option<usize>)
    ensures
        res is None <==> parent_bytes(dir@) is None,
        res matches Some(x) ==> parent_bytes(dir@) == Some(x as int) && x < encode_utf8(dir@).len(),
{
    let cs = chars_of(dir);
    match parent_len_exec(&cs) {
        Some(k) => {
            let head_chars = vstd::slice::slice_to_vec(vstd::slice::slice_subrange(cs.as_slice(), 0, k));
            assert(head_chars@ =~= dir@.take(k as int));
            let head = string_from_chars(&head_chars);
            let bytes = head.as_str().as_bytes();
            let l = bytes.len();
            proof {
                assert(dir@ =~= dir@.take(k as int) + dir@.skip(k as int));
                lemma_encode_concat(dir@.take(k as int), dir@.skip(k as int));
                lemma_encode_len(dir@.skip(k as int));
            }
            Some(l)
        },
        None => None,
    }
}

/// The rank of a component in `Path` order: the root, `.`, `..`, then names.
pub open spec fn comp_rank(c: Seq<char>) -> int {
    if c == seq!['/'] {
        1
    } else if c == seq!['.'] {
        2
    } else if c == seq!['.', '.'] {
        3
    } else {
        4
    }
}

/// Whether component `a` comes before `b`: by rank, then names by character.
pub open spec fn comp_lt(a: Seq<char>, b: Seq<char>) -> bool {
    comp_rank(a) < comp_rank(b) || (comp_rank(a) == comp_rank(b) && lex_lt(a, b))
}

/// Whether component list `a` comes before `b`, one component after the
/// other, a proper prefix first.
pub open spec fn comps_lt(a: Seq<Seq<char>>, b: Seq<Seq<char>>) -> bool
    decreases a.len(),
{
    if a.len() == 0 {
        b.len() > 0
    } else if b.len() == 0 {
        false
    } else if a[0] != b[0] {
        comp_lt(a[0], b[0])
    } else {
        comps_lt(a.drop_first(), b.drop_first())
    }
}

/// Whether path `a` comes before `b` in `Path` order.
pub open spec fn path_before(a: Seq<char>, b: Seq<char>) -> bool {
    comps_lt(path_components(a), path_components(b))
}

/// Character order is irreflexive.
proof fn lemma_lex_irrefl(a: Seq<char>)
    ensures
        !lex_lt(a, a),
    decreases a.len(),
{
    if a.len() > 0 {
        lemma_lex_irrefl(a.drop_first());
    }
}

/// Any two component lists are equal or one comes first, never both.
proof fn lemma_comps_total(a: Seq<Seq<char>>, b: Seq<Seq<char>>)
    ensures
        comps_lt(a, b) || comps_lt(b, a) || a == b,
        !(comps_lt(a, b) && comps_lt(b, a)),
        !comps_lt(a, a),
    decreases a.len(),
{
    if a.len() > 0 && b.len() > 0 {
        if a[0] == b[0] {
            lemma_comps_total(a.drop_first(), b.drop_first());
            if a.drop_first() == b.drop_first() {
                assert(a =~= seq![a[0]] + a.drop_first());
                assert(b =~= seq![b[0]] + b.drop_first());
            }
        } else {
            lemma_lex_total(a[0], b[0]);
            if lex_lt(a[0], b[0]) && lex_lt(b[0], a[0]) {
                lemma_lex_trans(a[0], b[0], a[0]);
                lemma_lex_irrefl(a[0]);
            }
        }
    } else if a.len() == 0 && b.len() == 0 {
        assert(a =~= b);
    }
    if a.len() > 0 {
        lemma_comps_total(a.drop_first(), a.drop_first());
    }
}

/// Component-list order is transitive.
proof fn lemma_comps_trans(a: Seq<Seq<char>>, b: Seq<Seq<char>>, c: Seq<Seq<char>>)
    requires
        comps_lt(a, b),
        comps_lt(b, c),
    ensures
        comps_lt(a, c),
    decreases a.len(),
{
    if a.len() > 0 && b.len() > 0 && c.len() > 0 {
        if a[0] == b[0] && b[0] == c[0] {
            lemma_comps_trans(a.drop_first(), b.drop_first(), c.drop_first());
        } else if a[0] != b[0] && b[0] != c[0] {
            if comp_rank(a[0]) == comp_rank(b[0]) && comp_rank(b[0]) == comp_rank(c[0]) {
                lemma_lex_trans(a[0], b[0], c[0]);
                if a[0] == c[0] {
                    lemma_lex_trans(a[0], b[0], a[0]);
                    lemma_lex_irrefl(a[0]);
                }
            } else if a[0] == c[0] {
                if comp_rank(a[0]) == comp_rank(b[0]) {
                    lemma_lex_trans(a[0], b[0], a[0]);
                    lemma_lex_irrefl(a[0]);
                }
            }
        }
    }
}

/// The rank of a component, computed.
fn comp_rank_exec(c: &Vec<char>) -> (res: u8)
    ensures
        res == comp_rank(c@),
{
    if c.len() == 1 && c[0] == '/' {
        assert(c@ =~= seq!['/']);
        1
    } else if c.len() == 1 && c[0] == '.' {
        assert(c@ =~= seq!['.']);
        assert(c@ != seq!['/']);
        2
    } else if c.len() == 2 && c[0] == '.' && c[1] == '.' {
        assert(c@ =~= seq!['.', '.']);
        3
    } else {
        proof {
            if c@.len() == 1 {
                assert(c@ != seq!['/'] && c@ != seq!['.']) by {
                    if c@ == seq!['/'] {
                        assert(c@[0] == '/');
                    }
                    if c@ == seq!['.'] {
                        assert(c@[0] == '.');
                    }
                }
            }
            if c@.len() == 2 {
                assert(c@ != seq!['.', '.']) by {
                    if c@ == seq!['.', '.'] {
                        assert(c@[0] == '.' && c@[1] == '.');
                    }
                }
            }
        }
        4
    }
}

/// Whether component list `a` comes before `b`, computed.
fn comps_lt_exec(a: &Vec<Vec<char>>, b: &Vec<Vec<char>>) -> (res: bool)
    ensures
        res == comps_lt(char_views(a@), char_views(b@)),
{
    let ghost av = char_views(a@);
    let ghost bv = char_views(b@);
    let mut i: usize = 0;
    assert(av.skip(0) =~= av && bv.skip(0) =~= bv);
    while i < a.len() && i < b.len() && chars_equal(&a[i], &b[i])
        invariant
            i <= a@.len(),
            i <= b@.len(),
            av == char_views(a@),
            bv == char_views(b@),
            comps_lt(av, bv) == comps_lt(av.skip(i as int), bv.skip(i as int)),
        decreases a@.len() - i,
    {
        assert(av.skip(i as int)[0] == a@[i as int]@);
        assert(bv.skip(i as int)[0] == b@[i as int]@);
        assert(av.skip(i as int).drop_first() =~= av.skip(i + 1));
        assert(bv.skip(i as int).drop_first() =~= bv.skip(i + 1));
        i = i + 1;
    }
    if i == a.len() {
        i < b.len()
    } else if i == b.len() {
        false
    } else {
        assert(av.skip(i as int)[0] == a@[i as int]@);
        assert(bv.skip(i as int)[0] == b@[i as int]@);
        let ra = comp_rank_exec(&a[i]);
        let rb = comp_rank_exec(&b[i]);
        ra < rb || (ra == rb && lex_less(&a[i], &b[i]))
    }
}

/// Whether `order` lists the indices of `paths` in `Path` order, paths with
/// the same components in the order they were given (a stable sort).
pub open spec fn path_sorted(paths: Seq<Seq<char>>, order: Seq<usize>) -> bool {
    &&& order.len() == paths.len()
    &&& forall|i: int| 0 <= i < order.len() ==> #[trigger] order[i] < paths.len()
    &&& forall|i: int, j: int| 0 <= i < j < order.len() ==> order[i] != order[j]
    &&& forall|i: int, j: int|
        0 <= i < j < order.len() ==> path_before(#[trigger] paths[order[i] as int], #[trigger] paths[order[j] as int])
            || (path_components(paths[order[i] as int]) == path_components(paths[order[j] as int]) && order[i]
            < order[j])
}

/// Inserting index `k` before the first index whose path it comes before
/// keeps the indices stably sorted.
proof fn lemma_insert_index(keys: Seq<Seq<Seq<char>>>, out: Seq<usize>, k: usize, pos: int)
    requires
        0 <= pos <= out.len(),
        k < keys.len(),
        forall|i: int| 0 <= i < out.len() ==> #[trigger] out[i] < k,
        forall|i: int, j: int|
            0 <= i < j < out.len() ==> comps_lt(#[trigger] keys[out[i] as int], #[trigger] keys[out[j] as int])
                || (keys[out[i] as int] == keys[out[j] as int] && out[i] < out[j]),
        forall|i: int| 0 <= i < pos ==> !comps_lt(keys[k as int], #[trigger] keys[out[i] as int]),
        pos < out.len() ==> comps_lt(keys[k as int], keys[out[pos] as int]),
    ensures
        ({
            let o2 = out.insert(pos, k);
            forall|i: int, j: int|
                0 <= i < j < o2.len() ==> comps_lt(#[trigger] keys[o2[i] as int], #[trigger] keys[o2[j] as int])
                    || (keys[o2[i] as int] == keys[o2[j] as int] && o2[i] < o2[j])
        }),
{
    let o2 = out.insert(pos, k);
    assert forall|i: int, j: int| 0 <= i < j < o2.len() implies comps_lt(
        #[trigger] keys[o2[i] as int],
        #[trigger] keys[o2[j] as int],
    ) || (keys[o2[i] as int] == keys[o2[j] as int] && o2[i] < o2[j]) by {
        if j < pos {
            assert(o2[i] == out[i] && o2[j] == out[j]);
        } else if j == pos {
            assert(o2[i] == out[i] && o2[j] == k);
            lemma_comps_total(keys[out[i] as int], keys[k as int]);
        } else if i == pos {
            assert(o2[i] == k && o2[j] == out[j - 1]);
            if j - 1 > pos {
                let a = keys[out[pos] as int];
                let c = keys[out[j - 1] as int];
                assert(comps_lt(a, c) || a == c);
                if comps_lt(a, c) {
                    lemma_comps_trans(keys[k as int], a, c);
                }
            }
        } else if i < pos {
            assert(o2[i] == out[i] && o2[j] == out[j - 1]);
        } else {
            assert(o2[i] == out[i - 1] && o2[j] == out[j - 1]);
        }
    }
}

/// The indices of `paths` in `Path` order (stable).
fn sort_paths(paths: &Vec<Vec<char>>) -> (res: Vec<usize>)
    ensures
        path_sorted(char_views(paths@), res@),
{
    let n = paths.len();
    let ghost pv = char_views(paths@);
    let mut keys: Vec<Vec<Vec<char>>> = Vec::new();
    let mut m: usize = 0;
    while m < n
        invariant
            m <= n == paths@.len(),
            pv == char_views(paths@),
            keys@.len() == m,
            forall|i: int| 0 <= i < m ==> char_views(#[trigger] keys@[i]@) == path_components(pv[i]),
        decreases n - m,
    {
        keys.push(components_of(&paths[m]));
        m = m + 1;
    }
    let ghost kv = Seq::new(n as nat, |i: int| path_components(pv[i]));
    let mut out: Vec<usize> = Vec::new();
    let mut k: usize = 0;
    while k < n
        invariant
            k <= n == paths@.len() == keys@.len(),
            pv == char_views(paths@),
            kv.len() == n,
            forall|i: int| 0 <= i < n ==> #[trigger] kv[i] == path_components(pv[i]),
            forall|i: int| 0 <= i < n ==> char_views(#[trigger] keys@[i]@) == kv[i],
            out@.len() == k,
            forall|i: int| 0 <= i < out@.len() ==> #[trigger] out@[i] < k,
            forall|i: int, j: int| 0 <= i < j < out@.len() ==> out@[i] != out@[j],
            forall|i: int, j: int|
                0 <= i < j < out@.len() ==> comps_lt(#[trigger] kv[out@[i] as int], #[trigger] kv[out@[j] as int])
                    || (kv[out@[i] as int] == kv[out@[j] as int] && out@[i] < out@[j]),
        decreases n - k,
    {
        let mut pos: usize = 0;
        while pos < out.len() && !comps_lt_exec(&keys[k], &keys[out[pos]])
            invariant
                pos <= out@.len(),
                k < n == keys@.len(),
                forall|i: int| 0 <= i < out@.len() ==> #[trigger] out@[i] < k,
                forall|i: int| 0 <= i < n ==> char_views(#[trigger] keys@[i]@) == kv[i],
                forall|i: int| 0 <= i < pos ==> !comps_lt(kv[k as int], #[trigger] kv[out@[i] as int]),
            decreases out@.len() - pos,
        {
            pos = pos + 1;
        }
        proof {
            lemma_insert_index(kv, out@, k, pos as int);
        }
        let ghost before = out@;
        out.insert(pos, k);
        assert(out@ == before.insert(pos as int, k));
        assert forall|i: int, j: int| 0 <= i < j < out@.len() implies out@[i] != out@[j] by {
            if i < pos && j < pos {
                assert(out@[i] == before[i] && out@[j] == before[j]);
            } else if i < pos && j == pos {
                assert(out@[i] == before[i]);
            } else if i < pos {
                assert(out@[i] == before[i] && out@[j] == before[j - 1]);
            } else if i == pos {
                assert(out@[j] == before[j - 1]);
            } else {
                assert(out@[i] == before[i - 1] && out@[j] == before[j - 1]);
            }
        }
        assert forall|i: int| 0 <= i < out@.len() implies #[trigger] out@[i] < k + 1 by {
            if i < pos {
                assert(out@[i] == before[i]);
            } else if i > pos {
                assert(out@[i] == before[i - 1]);
            }
        }
        k = k + 1;
    }
    proof {
        assert forall|i: int, j: int| 0 <= i < j < out@.len() implies path_before(
            #[trigger] pv[out@[i] as int],
            #[trigger] pv[out@[j] as int],
        ) || (path_components(pv[out@[i] as int]) == path_components(pv[out@[j] as int]) && out@[i] < out@[j]) by {
            assert(kv[out@[i] as int] == path_components(pv[out@[i] as int]));
            assert(kv[out@[j] as int] == path_components(pv[out@[j] as int]));
        }
    }
    out
}

/// A file of a folder whose digest is taken: its path, as the walk of the
/// folder found it, and its bytes.
#[derive(Debug, Clone)]
pub struct FolderFile {
    pub path: String,
    pub data: Vec<u8>,
}

/// The paths of the files.
pub open spec fn file_paths(files: Seq<FolderFile>) -> Seq<Seq<char>> {
    Seq::new(files.len(), |i: int| files[i].path@)
}

/// The bytes that name a file in a folder's digest: its path's UTF-8 bytes
/// without as many leading bytes as the folder's parent has, plus one for the
/// separator (the whole path when it is not longer than that).
pub open spec fn rel_bytes(dir: Seq<char>, path: Seq<char>) -> Seq<u8> {
    let b = encode_utf8(path);
    match parent_bytes(dir) {
        Some(l) => if l + 1 < b.len() {
            b.skip(l + 1)
        } else {
            b
        },
        None => b,
    }
}

/// Whether the name of every file can be cut where the folder's parent ends
/// (a character boundary), as the digest cuts it.
pub open spec fn cuts_on_boundaries(dir: Seq<char>, files: Seq<FolderFile>) -> bool {
    forall|i: int|
        0 <= i < files.len() ==> match parent_bytes(dir) {
            Some(l) => l + 1 < encode_utf8(#[trigger] files[i].path@).len() ==> vstd::utf8::is_char_boundary(
                encode_utf8(files[i].path@),
                l + 1,
            ),
            None => true,
        }
}

/// What a folder's digest is taken of: for each file in `order`, its name, a
/// line feed, its bytes and a line feed.
pub open spec fn folder_stream(dir: Seq<char>, files: Seq<FolderFile>, order: Seq<usize>) -> Seq<u8>
    decreases order.len(),
{
    if order.len() == 0 {
        Seq::empty()
    } else {
        let f = files[order.last() as int];
        folder_stream(dir, files, order.drop_last()) + rel_bytes(dir, f.path@) + seq![10u8] + f.data@ + seq![10u8]
    }
}

/// The MD5 of a folder `dir` with the files a walk of it found, in
/// lower-case hexadecimal: the digest of its files in `Path` order, each
/// named by its path relative to the folder's parent.
pub fn folder_md5_hex(dir: &str, files: &Vec<FolderFile>) -> (res: String)
    requires
        cuts_on_boundaries(dir@, files@),
    ensures
        exists|order: Seq<usize>|
            path_sorted(file_paths(files@), order) && res@ == hex_chars(
                md5_digest(folder_stream(dir@, files@, order)),
            ),
{
    let mut paths: Vec<Vec<char>> = Vec::new();
    let mut m: usize = 0;
    while m < files.len()
        invariant
            m <= files@.len(),
            paths@.len() == m,
            forall|i: int| 0 <= i < m ==> #[trigger] paths@[i]@ == files@[i].path@,
        decreases files@.len() - m,
    {
        paths.push(chars_of(files[m].path.as_str()));
        m = m + 1;
    }
    assert(char_views(paths@) =~= file_paths(files@));
    let order = sort_paths(&paths);
    let parent = parent_byte_len(dir);
    let mut stream: Vec<u8> = Vec::new();
    let mut k: usize = 0;
    assert(order@.take(0) =~= Seq::<usize>::empty());
    while k < order.len()
        invariant
            k <= order@.len(),
            path_sorted(file_paths(files@), order@),
            cuts_on_boundaries(dir@, files@),
            parent is None <==> parent_bytes(dir@) is None,
            parent matches Some(x) ==> parent_bytes(dir@) == Some(x as int),
            stream@ == folder_stream(dir@, files@, order@.take(k as int)),
        decreases order@.len() - k,
    {
        let idx = order[k];
        assert(order@[k as int] < files@.len());
        let f = &files[idx];
        let bytes = f.path.as_str().as_bytes();
        let ghost before = stream@;
        let ghost b = encode_utf8(f.path@);
        assert(bytes@ == b);
        match parent {
            Some(l) => {
                if bytes.len() > 0 && l < bytes.len() - 1 {
                    let rel = vstd::slice::slice_subrange(bytes, l + 1, bytes.len());
                    assert(rel@ =~= b.skip(l + 1));
                    append_bytes(&mut stream, rel);
                } else {
                    append_bytes(&mut stream, bytes);
                }
            },
            None => {
                append_bytes(&mut stream, bytes);
            },
        }
        assert(stream@ == before + rel_bytes(dir@, f.path@));
        stream.push(10u8);
        append_bytes(&mut stream, f.data.as_slice());
        stream.push(10u8);
        proof {
            assert(order@.take(k + 1).drop_last() =~= order@.take(k as int));
            assert(order@.take(k + 1).last() == idx);
            assert(stream@ =~= folder_stream(dir@, files@, order@.take(k + 1)));
        }
        k = k + 1;
    }
    assert(order@.take(order@.len() as int) =~= order@);
    let d = md5(stream.as_slice());
    let mut out: Vec<char> = Vec::new();
    push_hex(&mut out, d.as_slice());
    string_from_chars(&out)
}

/// A sequence of `n` distinct indices below `n` holds every index below `n`.
proof fn lemma_indices_cover(q: Seq<usize>, n: nat, k: usize)
    requires
        q.len() == n,
        forall|i: int| 0 <= i < q.len() ==> #[trigger] q[i] < n,
        forall|i: int, j: int| 0 <= i < j < q.len() ==> q[i] != q[j],
        k < n,
    ensures
        exists|i: int| 0 <= i < q.len() && q[i] == k,
{
    let s = q.map_values(|v: usize| v as int);
    assert(s.no_duplicates()) by {
        assert forall|i: int, j: int| 0 <= i < s.len() && 0 <= j < s.len() && i != j implies s[i] != s[j] by {
            if i < j {
                assert(q[i] != q[j]);
            } else {
                assert(q[j] != q[i]);
            }
        }
    }
    s.unique_seq_to_set();
    let range = vstd::set_lib::set_int_range(0, n as int);
    vstd::set_lib::lemma_int_range(0, n as int);
    assert(s.to_set().subset_of(range));
    if !s.to_set().contains(k as int) {
        assert(s.to_set().subset_of(range.remove(k as int)));
        vstd::set_lib::lemma_len_subset(s.to_set(), range.remove(k as int));
        assert(false);
    }
    let i = choose|i: int| 0 <= i < s.len() && s[i] == k as int;
    assert(q[i] == k);
}

/// Two lists of the same files, the second a rearrangement of the first
/// (`files2[i]` is `files1[perm[i]]`), sorted by path.
pub open spec fn same_files_sorted(
    files1: Seq<FolderFile>,
    files2: Seq<FolderFile>,
    perm: Seq<usize>,
    o1: Seq<usize>,
    o2: Seq<usize>,
) -> bool {
    &&& files2.len() == files1.len() == perm.len()
    &&& forall|i: int| 0 <= i < perm.len() ==> #[trigger] perm[i] < files1.len()
    &&& forall|i: int, j: int| 0 <= i < j < perm.len() ==> perm[i] != perm[j]
    &&& forall|i: int| 0 <= i < files2.len() ==> #[trigger] files2[i] == files1[perm[i] as int]
    &&& path_sorted(file_paths(files1), o1)
    &&& path_sorted(file_paths(files2), o2)
}

/// Whether no two files have paths with the same components.
pub open spec fn distinct_paths(files: Seq<FolderFile>) -> bool {
    forall|i: int, j: int|
        0 <= i < j < files.len() ==> path_components(#[trigger] files[i].path@) != path_components(
            #[trigger] files[j].path@,
        )
}

/// Sorted by path, both lists give the same files position by position.
proof fn lemma_sorted_positions_agree(
    files1: Seq<FolderFile>,
    files2: Seq<FolderFile>,
    perm: Seq<usize>,
    o1: Seq<usize>,
    o2: Seq<usize>,
    k: int,
)
    requires
        same_files_sorted(files1, files2, perm, o1, o2),
        distinct_paths(files1),
        0 <= k <= o1.len(),
    ensures
        forall|i: int| 0 <= i < k ==> #[trigger] o1[i] == perm[o2[i] as int],
    decreases k,
{
    if k > 0 {
        lemma_sorted_positions_agree(files1, files2, perm, o1, o2, k - 1);
        let n = files1.len();
        let i = k - 1;
        let s2 = Seq::new(n, |p: int| perm[o2[p] as int]);
        assert forall|p: int| 0 <= p < n implies #[trigger] s2[p] < n by {
            assert(o2[p] < files2.len());
        }
        assert forall|p: int, q: int| 0 <= p < q < n implies s2[p] != s2[q] by {
            assert(o2[p] != o2[q]);
            if o2[p] < o2[q] {
                assert(perm[o2[p] as int] != perm[o2[q] as int]);
            } else {
                assert(perm[o2[q] as int] != perm[o2[p] as int]);
            }
        }
        if o1[i] != s2[i] {
            assert(o1[i] < n);
            lemma_indices_cover(s2, n, o1[i]);
            let j = choose|j: int| 0 <= j < s2.len() && s2[j] == o1[i];
            lemma_indices_cover(o1, n, s2[i]);
            let jp = choose|j: int| 0 <= j < o1.len() && o1[j] == s2[i];
            assert(j >= i) by {
                if j < i {
                    assert(o1[j] == perm[o2[j] as int]);
                    assert(o1[j] != o1[i]);
                }
            }
            assert(jp >= i) by {
                if jp < i {
                    assert(o1[jp] == perm[o2[jp] as int]);
                    assert(s2[jp] != s2[i]);
                }
            }
            assert(j != i && jp != i);
            // In the first list, the file at `i` comes before the one at `jp`.
            let a = o1[i];
            let b = o1[jp];
            assert(path_before(file_paths(files1)[a as int], file_paths(files1)[b as int]) || (path_components(
                file_paths(files1)[a as int],
            ) == path_components(file_paths(files1)[b as int]) && a < b));
            assert(a != b);
            if a < b {
                assert(path_components(files1[a as int].path@) != path_components(files1[b as int].path@));
            } else {
                assert(path_components(files1[b as int].path@) != path_components(files1[a as int].path@));
            }
            // In the second list, the file at `i` comes before the one at `j`.
            let c = o2[i];
            let d = o2[j];
            assert(path_before(file_paths(files2)[c as int], file_paths(files2)[d as int]) || (path_components(
                file_paths(files2)[c as int],
            ) == path_components(file_paths(files2)[d as int]) && c < d));
            assert(files2[c as int] == files1[s2[i] as int]);
            assert(files2[d as int] == files1[s2[j] as int]);
            assert(s2[i] == b && s2[j] == a);
            lemma_comps_total(path_components(files1[a as int].path@), path_components(files1[b as int].path@));
            assert(false);
        }
    }
}

/// The digest stream over the first `k` positions agrees when the files agree
/// position by position.
proof fn lemma_stream_agree(
    dir: Seq<char>,
    files1: Seq<FolderFile>,
    files2: Seq<FolderFile>,
    o1: Seq<usize>,
    o2: Seq<usize>,
    k: int,
)
    requires
        o1.len() == o2.len(),
        0 <= k <= o1.len(),
        forall|i: int| 0 <= i < o1.len() ==> #[trigger] files1[o1[i] as int] == files2[o2[i] as int],
    ensures
        folder_stream(dir, files1, o1.take(k)) == folder_stream(dir, files2, o2.take(k)),
    decreases k,
{
    if k > 0 {
        lemma_stream_agree(dir, files1, files2, o1, o2, k - 1);
        assert(o1.take(k).drop_last() =~= o1.take(k - 1));
        assert(o2.take(k).drop_last() =~= o2.take(k - 1));
        assert(o1.take(k).last() == o1[k - 1]);
        assert(o2.take(k).last() == o2[k - 1]);
    }
}

/// Where no two paths have the same components, a folder's digest does not
/// depend on the order in which its files were found: the same files in
/// another order, each list sorted by path, give the same stream (and so the
/// same digest).
pub proof fn lemma_folder_digest_order_free(
    dir: Seq<char>,
    files1: Seq<FolderFile>,
    files2: Seq<FolderFile>,
    perm: Seq<usize>,
    o1: Seq<usize>,
    o2: Seq<usize>,
)
    requires
        same_files_sorted(files1, files2, perm, o1, o2),
        distinct_paths(files1),
    ensures
        folder_stream(dir, files1, o1) == folder_stream(dir, files2, o2),
        hex_chars(md5_digest(folder_stream(dir, files1, o1))) == hex_chars(md5_digest(folder_stream(dir, files2, o2))),
{
    lemma_sorted_positions_agree(files1, files2, perm, o1, o2, o1.len() as int);
    assert forall|i: int| 0 <= i < o1.len() implies #[trigger] files1[o1[i] as int] == files2[o2[i] as int] by {
        assert(o1[i] == perm[o2[i] as int]);
        assert(o2[i] < files2.len());
    }
    lemma_stream_agree(dir, files1, files2, o1, o2, o1.len() as int);
    assert(o1.take(o1.len() as int) =~= o1);
    assert(o2.take(o2.len() as int) =~= o2);
}

} // verus!
