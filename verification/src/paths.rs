//! `/`-separated path text: the last component, its stem and extension, and
//! the directory part before it.
//!
//! Trailing separators are ignored, and a last component that is empty, `.`
//! or `..` counts as no file name.
use vstd::prelude::*;

verus! {

/// `p` without trailing `/` (a lone `/` stays).
pub open spec fn strip_trailing(p: Seq<char>) -> Seq<char>
    decreases p.len(),
{
    if p.len() > 1 && p.last() == '/' {
        strip_trailing(p.drop_last())
    } else {
        p
    }
}

/// The index just after the last `/` of `p` (0 when there is none).
pub open spec fn name_start(p: Seq<char>) -> int
    decreases p.len(),
{
    if p.len() == 0 {
        0
    } else if p.last() == '/' {
        p.len() as int
    } else {
        name_start(p.drop_last())
    }
}

/// The last component of `p`, after trailing separators are dropped.
pub open spec fn last_component(p: Seq<char>) -> Seq<char> {
    let t = strip_trailing(p);
    t.subrange(name_start(t), t.len() as int)
}

/// The text before the last component (with its separator).
pub open spec fn dir_part(p: Seq<char>) -> Seq<char> {
    let t = strip_trailing(p);
    t.subrange(0, name_start(t))
}

/// Whether a last component is a file name.
pub open spec fn is_file_name(c: Seq<char>) -> bool {
    c.len() > 0 && c != seq!['.'] && c != seq!['.', '.']
}

/// The file name of a path, if it has one.
pub open spec fn file_name(p: Seq<char>) -> Option<Seq<char>> {
    if is_file_name(last_component(p)) {
        Some(last_component(p))
    } else {
        None
    }
}

/// The index of the last `.` of `s`, if any.
pub open spec fn last_dot(s: Seq<char>) -> Option<int>
    decreases s.len(),
{
    if s.len() == 0 {
        None
    } else if s.last() == '.' {
        Some(s.len() - 1)
    } else {
        last_dot(s.drop_last())
    }
}

/// The stem and extension of a file name: split at the last `.`, unless that
/// `.` starts the name (then the whole name is the stem).
pub open spec fn split_ext(name: Seq<char>) -> (Seq<char>, Option<Seq<char>>) {
    match last_dot(name) {
        Some(i) => if i == 0 {
            (name, None)
        } else {
            (name.subrange(0, i), Some(name.subrange(i + 1, name.len() as int)))
        },
        None => (name, None),
    }
}

/// `name_start` is the index after the last `/`.
proof fn lemma_name_start(p: Seq<char>)
    ensures
        0 <= name_start(p) <= p.len(),
    decreases p.len(),
{
    if p.len() > 0 && p.last() != '/' {
        lemma_name_start(p.drop_last());
    }
}

/// Removes trailing separators.
fn strip_trailing_exec(p: &Vec<char>) -> (res: usize)
    ensures
        res <= p@.len(),
        p@.subrange(0, res as int) == strip_trailing(p@),
{
    let mut n = p.len();
    assert(p@.subrange(0, n as int) =~= p@);
    while n > 1 && p[n - 1] == '/'
        invariant
            n <= p@.len(),
            strip_trailing(p@.subrange(0, n as int)) == strip_trailing(p@),
        decreases n,
    {
        assert(p@.subrange(0, n as int).drop_last() =~= p@.subrange(0, n - 1));
        n = n - 1;
    }
    n
}

/// The split of a path into its directory part and last component.
pub fn split_path(p: &Vec<char>) -> (res: (Vec<char>, Vec<char>))
    ensures
        res.0@ == dir_part(p@),
        res.1@ == last_component(p@),
{
    let n = strip_trailing_exec(p);
    let ghost t = p@.subrange(0, n as int);
    assert(t.subrange(0, n as int) =~= t);
    proof {
        lemma_name_start(t);
    }
    let mut k = n;
    while k > 0 && p[k - 1] != '/'
        invariant
            k <= n <= p@.len(),
            t == p@.subrange(0, n as int),
            name_start(t) == name_start(t.subrange(0, k as int)),
            name_start(t.subrange(0, k as int)) <= k,
        decreases k,
    {
        assert(t.subrange(0, k as int).drop_last() =~= t.subrange(0, k - 1));
        proof {
            lemma_name_start(t.subrange(0, k - 1));
        }
        k = k - 1;
    }
    assert(name_start(t.subrange(0, k as int)) == k as int);
    let mut dir: Vec<char> = Vec::new();
    let mut i: usize = 0;
    while i < k
        invariant
            i <= k <= n <= p@.len(),
            dir@ == p@.subrange(0, i as int),
        decreases k - i,
    {
        dir.push(p[i]);
        i = i + 1;
    }
    let mut name: Vec<char> = Vec::new();
    let mut j: usize = k;
    while j < n
        invariant
            k <= j <= n <= p@.len(),
            name@ == p@.subrange(k as int, j as int),
        decreases n - j,
    {
        name.push(p[j]);
        j = j + 1;
    }
    assert(dir@ =~= t.subrange(0, k as int));
    assert(name@ =~= t.subrange(k as int, n as int));
    (dir, name)
}

/// Whether a last component is a file name, computed.
pub fn is_file_name_exec(c: &Vec<char>) -> (res: bool)
    ensures
        res == is_file_name(c@),
{
    let dot = c.len() == 1 && c[0] == '.';
    let dotdot = c.len() == 2 && c[0] == '.' && c[1] == '.';
    proof {
        if c@.len() == 1 {
            assert(dot <==> c@ =~= seq!['.']);
        }
        if c@.len() == 2 {
            assert(dotdot <==> c@ =~= seq!['.', '.']);
        }
    }
    c.len() > 0 && !dot && !dotdot
}

/// The stem and extension of a file name.
pub fn split_ext_exec(name: &Vec<char>) -> (res: (Vec<char>, Option<Vec<char>>))
    ensures
        res.0@ == split_ext(name@).0,
        res.1 is Some <==> split_ext(name@).1 is Some,
        res.1 matches Some(e) ==> e@ == split_ext(name@).1->0,
{
    let mut k = name.len();
    assert(name@.subrange(0, name@.len() as int) =~= name@);
    while k > 0 && name[k - 1] != '.'
        invariant
            k <= name@.len(),
            last_dot(name@) == last_dot(name@.subrange(0, k as int)),
        decreases k,
    {
        assert(name@.subrange(0, k as int).drop_last() =~= name@.subrange(0, k - 1));
        k = k - 1;
    }
    assert(name@.subrange(0, name@.len() as int) =~= name@);
    if k <= 1 {
        let whole = vstd::slice::slice_to_vec(name.as_slice());
        return (whole, None);
    }
    let i = k - 1;
    let stem = vstd::slice::slice_to_vec(vstd::slice::slice_subrange(name.as_slice(), 0, i));
    let ext = vstd::slice::slice_to_vec(vstd::slice::slice_subrange(name.as_slice(), i + 1, name.len()));
    (stem, Some(ext))
}

/// Appends `s` to `out`.
pub fn push_chars(out: &mut Vec<char>, s: &Vec<char>)
    ensures
        final(out)@ == old(out)@ + s@,
{
    let ghost start = out@;
    let mut i: usize = 0;
    while i < s.len()
        invariant
            i <= s@.len(),
            out@ == start + s@.subrange(0, i as int),
        decreases s@.len() - i,
    {
        out.push(s[i]);
        i = i + 1;
        assert(out@ =~= start + s@.subrange(0, i as int));
    }
    assert(s@.subrange(0, s@.len() as int) =~= s@);
}

} // verus!
