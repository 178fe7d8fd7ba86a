//! Archive entry paths that stay inside the output directory, and the
//! decompression-ratio check.
//!
//! Entry names are split into components at `/` and at `\` (the Windows
//! separator, so that an archive made on Windows is read the same way
//! everywhere); empty and `.` components are dropped, and an absolute name, a
//! name with a drive prefix (`C:`) or a `..` component is refused.
use vstd::prelude::*;

use crate::error::FormatError;
use crate::primitives::{chars_of, string_from_chars};
use crate::text::{char_views, split_chars, split_on};
use crate::paths::{file_name, is_file_name_exec, push_chars, split_ext, split_ext_exec, split_path};

verus! {

/// An entry name with every `\\` turned into `/`.
pub open spec fn slash_form(name: Seq<char>) -> Seq<char> {
    name.map_values(|c: char| if c == '\\' { '/' } else { c })
}

/// The components of an entry name that are kept: not empty, not `.`.
pub open spec fn kept_components(name: Seq<char>) -> Seq<Seq<char>> {
    split_on(slash_form(name), '/').filter(|c: Seq<char>| c.len() > 0 && c != seq!['.'])
}

/// Whether an entry name starts with a drive prefix: an ASCII letter and `:`.
pub open spec fn has_drive_prefix(name: Seq<char>) -> bool {
    name.len() >= 2 && name[1] == ':' && (('a' <= name[0] && name[0] <= 'z') || ('A' <= name[0] && name[0] <= 'Z'))
}

/// Whether an entry name would leave the output directory: empty, absolute
/// (starting with `/` or `\\`), with a drive prefix, or with a `..` component.
pub open spec fn is_traversal(name: Seq<char>) -> bool {
    name.len() == 0 || slash_form(name)[0] == '/' || has_drive_prefix(name) || split_on(slash_form(name), '/').contains(
        seq!['.', '.'],
    )
}

/// Components joined by `/`.
pub open spec fn join_components(cs: Seq<Seq<char>>) -> Seq<char>
    decreases cs.len(),
{
    if cs.len() == 0 {
        Seq::empty()
    } else if cs.len() == 1 {
        cs[0]
    } else {
        join_components(cs.drop_last()) + seq!['/'] + cs.last()
    }
}

/// `base` joined with a relative path, as `Path::join` does: a separator is
/// added unless `base` is empty or already ends with one.
pub open spec fn join_path(base: Seq<char>, rel: Seq<char>) -> Seq<char> {
    if base.len() == 0 {
        rel
    } else if base.last() == '/' {
        base + rel
    } else {
        base + seq!['/'] + rel
    }
}

/// Whether a component is `..`.
fn is_parent(c: &Vec<char>) -> (res: bool)
    ensures
        res <==> c@ == seq!['.', '.'],
{
    let r = c.len() == 2 && c[0] == '.' && c[1] == '.';
    proof {
        if c@.len() == 2 {
            assert(r <==> c@ =~= seq!['.', '.']);
        }
    }
    r
}

/// An entry path that is accepted stays under the output directory: the
/// result begins with `base`, and each component joined under it is a plain
/// name (not empty, not `.`, not `..`).
pub proof fn lemma_sanitized_stays_inside(entry_name: Seq<char>, base: Seq<char>)
    requires
        !is_traversal(entry_name),
    ensures
        join_path(base, join_components(kept_components(entry_name))).take(base.len() as int) == base,
        forall|i: int|
            0 <= i < kept_components(entry_name).len() ==> {
                let c = #[trigger] kept_components(entry_name)[i];
                c.len() > 0 && c != seq!['.'] && c != seq!['.', '.']
            },
{
    let pieces = split_on(slash_form(entry_name), '/');
    let pred = |c: Seq<char>| c.len() > 0 && c != seq!['.'];
    let kept = pieces.filter(pred);
    assert forall|i: int| 0 <= i < kept.len() implies {
        let c = #[trigger] kept[i];
        c.len() > 0 && c != seq!['.'] && c != seq!['.', '.']
    } by {
        pieces.lemma_filter_pred(pred, i);
        assert(kept.contains(kept[i]));
        pieces.lemma_filter_contains_rev(pred, kept[i]);
    }
    let rel = join_components(kept);
    let joined = join_path(base, rel);
    if base.len() == 0 {
        assert(joined.take(0) =~= base);
    } else if base.last() == '/' {
        assert(joined.take(base.len() as int) =~= base);
    } else {
        assert(joined.take(base.len() as int) =~= base);
    }
}

/// The path of an archive entry under `base`. An empty name, an absolute
/// name, a name with a drive prefix and a name with a `..` component (`/` and
/// `\\` both separate components) are `PathTraversal` (carrying the name, or
/// "(empty)"); otherwise the kept components are joined under `base` with `/`.
pub fn sanitize_archive_path(entry_name: &str, base: &str) -> (res: Result<String, FormatError>)
    ensures
        res is Err <==> is_traversal(entry_name@),
        res is Err ==> res matches Err(FormatError::PathTraversal(_)),
        res matches Ok(p) ==> p@ == join_path(base@, join_components(kept_components(entry_name@))),
{
    let raw = chars_of(entry_name);
    if raw.len() == 0 {
        return Err(FormatError::PathTraversal("(empty)".to_string()));
    }
    let r0 = raw[0];
    if raw.len() >= 2 && raw[1] == ':' && (('a' <= r0 && r0 <= 'z') || ('A' <= r0 && r0 <= 'Z')) {
        return Err(FormatError::PathTraversal(entry_name.to_string()));
    }
    let mut name: Vec<char> = Vec::new();
    let mut j: usize = 0;
    while j < raw.len()
        invariant
            j <= raw@.len(),
            name@ == slash_form(raw@.subrange(0, j as int)),
        decreases raw@.len() - j,
    {
        let c = raw[j];
        name.push(if c == '\\' { '/' } else { c });
        j = j + 1;
        assert(name@ =~= slash_form(raw@.subrange(0, j as int)));
    }
    assert(raw@.subrange(0, raw@.len() as int) =~= raw@);
    if name[0] == '/' {
        return Err(FormatError::PathTraversal(entry_name.to_string()));
    }
    let parts = split_chars(&name, '/');
    let ghost all = char_views(parts@);
    let mut kept: Vec<Vec<char>> = Vec::new();
    let mut i: usize = 0;
    proof {
        reveal(Seq::filter);
        assert(all.subrange(0, 0).filter(|c: Seq<char>| c.len() > 0 && c != seq!['.']) =~= Seq::<Seq<char>>::empty());
    }
    while i < parts.len()
        invariant
            i <= parts@.len(),
            all == char_views(parts@),
            all == split_on(name@, '/'),
            name@ == slash_form(entry_name@),
            !has_drive_prefix(entry_name@),
            char_views(kept@) == all.subrange(0, i as int).filter(|c: Seq<char>| c.len() > 0 && c != seq!['.']),
            forall|j: int| 0 <= j < i ==> all[j] != seq!['.', '.'],
        decreases parts@.len() - i,
    {
        let part = &parts[i];
        assert(all[i as int] == part@);
        if is_parent(part) {
            assert(all.contains(seq!['.', '.']));
            return Err(FormatError::PathTraversal(entry_name.to_string()));
        }
        let keep = part.len() > 0 && !(part.len() == 1 && part[0] == '.');
        proof {
            if part@.len() == 1 {
                assert(part@[0] == '.' ==> part@ =~= seq!['.']);
            }
            assert(keep <==> (part@.len() > 0 && part@ != seq!['.']));
        }
        if keep {
            let ghost before = char_views(kept@);
            kept.push(vstd::slice::slice_to_vec(part.as_slice()));
            assert(char_views(kept@) =~= before.push(part@));
        }
        proof {
            reveal(Seq::filter);
            assert(all.subrange(0, i + 1).drop_last() =~= all.subrange(0, i as int));
        }
        i = i + 1;
    }
    assert(all.subrange(0, parts@.len() as int) =~= all);
    assert(!all.contains(seq!['.', '.']));
    let mut rel: Vec<char> = Vec::new();
    let mut k: usize = 0;
    while k < kept.len()
        invariant
            k <= kept@.len(),
            rel@ == join_components(char_views(kept@).subrange(0, k as int)),
        decreases kept@.len() - k,
    {
        let ghost prev = char_views(kept@).subrange(0, k as int);
        if k > 0 {
            rel.push('/');
        }
        let piece = &kept[k];
        let mut t: usize = 0;
        let ghost mid = rel@;
        while t < piece.len()
            invariant
                t <= piece@.len(),
                rel@ == mid + piece@.subrange(0, t as int),
            decreases piece@.len() - t,
        {
            rel.push(piece[t]);
            t = t + 1;
            assert(rel@ =~= mid + piece@.subrange(0, t as int));
        }
        proof {
            let next = char_views(kept@).subrange(0, k + 1);
            assert(next.drop_last() =~= prev);
            assert(next.last() == piece@);
            assert(piece@.subrange(0, piece@.len() as int) =~= piece@);
            if k == 0 {
                assert(prev.len() == 0);
            }
        }
        k = k + 1;
    }
    assert(char_views(kept@).subrange(0, kept@.len() as int) =~= char_views(kept@));
    let base_chars = chars_of(base);
    let mut out: Vec<char> = Vec::new();
    let mut b: usize = 0;
    while b < base_chars.len()
        invariant
            b <= base_chars@.len(),
            out@ == base_chars@.subrange(0, b as int),
        decreases base_chars@.len() - b,
    {
        out.push(base_chars[b]);
        b = b + 1;
    }
    assert(base_chars@.subrange(0, base_chars@.len() as int) =~= base@);
    if base_chars.len() > 0 && base_chars[base_chars.len() - 1] != '/' {
        out.push('/');
    }
    let ghost head = out@;
    let mut r: usize = 0;
    while r < rel.len()
        invariant
            r <= rel@.len(),
            out@ == head + rel@.subrange(0, r as int),
        decreases rel@.len() - r,
    {
        out.push(rel[r]);
        r = r + 1;
        assert(out@ =~= head + rel@.subrange(0, r as int));
    }
    assert(rel@.subrange(0, rel@.len() as int) =~= rel@);
    assert(out@ =~= join_path(base@, join_components(kept_components(entry_name@))));
    Ok(string_from_chars(&out))
}

/// Refuses a decompression whose output is more than `max_ratio` times its
/// input, by the whole-number ratio (the quotient rounded down); an empty
/// input is always accepted.
pub fn check_bomb_ratio(input_size: u64, decompressed: u64, max_ratio: u64) -> (res: Result<(), FormatError>)
    ensures
        input_size == 0 ==> res is Ok,
        input_size > 0 ==> (res is Ok <==> decompressed / input_size <= max_ratio),
        res is Err ==> (res matches Err(FormatError::BombDetected { ratio: r, limit: l }) && r == decompressed
            / input_size && l == max_ratio),
{
    if input_size == 0 {
        return Ok(());
    }
    let ratio = decompressed / input_size;
    if ratio > max_ratio {
        return Err(FormatError::BombDetected { ratio, limit: max_ratio });
    }
    Ok(())
}

/// Where a single-file format (gzip, xz, zstd, bzip2, lz4, brotli) is
/// extracted: the input's stem under `base`; an input without a file name is
/// `InvalidInput`.
pub fn single_file_output(input: &str, base: &str) -> (res: Result<String, FormatError>)
    ensures
        file_name(input@) is None <==> res is Err,
        res is Err ==> (res matches Err(FormatError::InvalidInput(m)) && m@ == "input has no stem"@),
        res matches Ok(p) ==> p@ == join_path(base@, split_ext(file_name(input@)->0).0),
{
    let cs = chars_of(input);
    let (_dir, name) = split_path(&cs);
    if !is_file_name_exec(&name) {
        return Err(FormatError::InvalidInput("input has no stem".to_string()));
    }
    let (stem, _ext) = split_ext_exec(&name);
    let b = chars_of(base);
    let mut out: Vec<char> = Vec::new();
    push_chars(&mut out, &b);
    if b.len() > 0 && b[b.len() - 1] != '/' {
        out.push('/');
    }
    push_chars(&mut out, &stem);
    assert(out@ =~= join_path(base@, split_ext(file_name(input@)->0).0));
    Ok(string_from_chars(&out))
}

} // verus!
