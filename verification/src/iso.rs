//! Mounting disk images from the desktop application: which files may be
//! mounted, and what the platforms' mount tools print back (`udisksctl` on
//! Linux, `hdiutil` on macOS, PowerShell's `Mount-DiskImage` on Windows).
use vstd::prelude::*;

use crate::disks::{first_match, match_at, strip_end, without_cr};
use crate::paths::{file_name, is_file_name_exec, split_path};
use crate::listing::{ends_with, ends_with_exec, lowercase, to_lowercase};
use crate::primitives::{chars_of, string_from_chars};
use crate::text::{char_views, is_ws, is_whitespace, push_str, split_chars, split_on, trim, trim_chars};

verus! {

/// A mounted disk image.
#[derive(Debug)]
pub struct IsoMountResult {
    /// Where the volume was mounted: `/Volumes/Foo`, `/run/media/user/Foo`
    /// or `D:\`.
    pub mount_point: String,
    /// What unmounting it takes (a device, or the image path on Windows).
    pub handle: String,
    /// The volume's name.
    pub label: String,
}

/// Whether a path names an image that may be mounted: `.iso`, `.img` or
/// `.dmg`, without regard to case.
pub open spec fn mountable_image(path: Seq<char>) -> bool {
    let l = lowercase(path);
    ends_with(l, ".iso"@) || ends_with(l, ".img"@) || ends_with(l, ".dmg"@)
}

/// Checks that `path` names an image that may be mounted.
pub fn check_image_extension(path: &str) -> (res: Result<(), String>)
    ensures
        res is Ok <==> mountable_image(path@),
        res matches Err(m) ==> m@ == "지원하지 않는 확장자입니다 (.iso/.img/.dmg만): "@ + path@,
{
    let l = to_lowercase(path);
    let lc = chars_of(l.as_str());
    if ends_with_exec(&lc, ".iso") || ends_with_exec(&lc, ".img") || ends_with_exec(&lc, ".dmg") {
        Ok(())
    } else {
        let mut msg: Vec<char> = Vec::new();
        push_str(&mut msg, "지원하지 않는 확장자입니다 (.iso/.img/.dmg만): ");
        push_str(&mut msg, path);
        Err(string_from_chars(&msg))
    }
}

/// The characters of `s` before its first whitespace.
pub open spec fn leading_word(s: Seq<char>) -> Seq<char>
    decreases s.len(),
{
    if s.len() == 0 || is_ws(s[0]) {
        Seq::empty()
    } else {
        seq![s[0]] + leading_word(s.drop_first())
    }
}

/// Whether a whitespace-separated word of `s` starts at `i` and begins with
/// `/dev/loop`.
pub open spec fn loop_word_at(s: Seq<char>, i: int) -> bool {
    match_at(s, "/dev/loop"@, i) && (i == 0 || is_ws(s[i - 1]))
}

/// Whether `i` is where the first such word starts.
pub open spec fn first_loop_word(s: Seq<char>, i: int) -> bool {
    loop_word_at(s, i) && forall|j: int| 0 <= j < i ==> !#[trigger] loop_word_at(s, j)
}

/// The loop device that `udisksctl loop-setup` reports (`Mapped file … as
/// /dev/loop0.`): the first word that begins with `/dev/loop`, without
/// trailing dots.
pub open spec fn loop_device(s: Seq<char>) -> Option<Seq<char>> {
    if exists|i: int| first_loop_word(s, i) {
        let i = choose|i: int| first_loop_word(s, i);
        Some(strip_end(leading_word(s.skip(i)), '.'))
    } else {
        None
    }
}

/// Whether `pat` occurs in `s` at `i`, computed.
pub(crate) fn matches_at(s: &Vec<char>, pat: &Vec<char>, i: usize) -> (res: bool)
    ensures
        res == match_at(s@, pat@, i as int),
{
    if i > s.len() || s.len() - i < pat.len() {
        return false;
    }
    let mut k: usize = 0;
    while k < pat.len()
        invariant
            k <= pat@.len(),
            i + pat@.len() <= s.len(),
            forall|j: int| 0 <= j < k ==> s@[i + j] == pat@[j],
        decreases pat@.len() - k,
    {
        if s[i + k] != pat[k] {
            assert(s@.subrange(i as int, i + pat@.len())[k as int] != pat@[k as int]);
            return false;
        }
        k = k + 1;
    }
    assert(s@.subrange(i as int, i + pat@.len()) =~= pat@);
    true
}

/// `s` without trailing `c`, computed.
pub(crate) fn strip_end_chars(s: &Vec<char>, c: char) -> (res: Vec<char>)
    ensures
        res@ == strip_end(s@, c),
{
    let mut n = s.len();
    assert(s@.take(n as int) =~= s@);
    while n > 0 && s[n - 1] == c
        invariant
            n <= s@.len(),
            strip_end(s@, c) == strip_end(s@.take(n as int), c),
        decreases n,
    {
        assert(s@.take(n as int).drop_last() =~= s@.take(n - 1));
        n = n - 1;
    }
    let out = vstd::slice::slice_to_vec(vstd::slice::slice_subrange(s.as_slice(), 0, n));
    assert(out@ =~= s@.take(n as int));
    out
}

/// The word of `s` that starts at `i`, computed.
fn word_from(s: &Vec<char>, i: usize) -> (res: Vec<char>)
    requires
        i <= s@.len(),
    ensures
        res@ == leading_word(s@.skip(i as int)),
{
    let mut out: Vec<char> = Vec::new();
    let mut k = i;
    while k < s.len() && !is_whitespace(s[k])
        invariant
            i <= k <= s@.len(),
            leading_word(s@.skip(i as int)) == out@ + leading_word(s@.skip(k as int)),
        decreases s@.len() - k,
    {
        assert(s@.skip(k as int).drop_first() =~= s@.skip(k + 1));
        assert(s@.skip(k as int)[0] == s@[k as int]);
        let ghost before = out@;
        out.push(s[k]);
        assert(before + (seq![s@[k as int]] + leading_word(s@.skip(k + 1))) =~= out@ + leading_word(s@.skip(k + 1)));
        k = k + 1;
    }
    assert(out@ + Seq::<char>::empty() =~= out@);
    out
}

/// Reads the loop device from what `udisksctl loop-setup` printed.
pub fn loop_device_of(stdout: &str) -> (res: Result<String, String>)
    ensures
        match loop_device(stdout@) {
            Some(d) => res matches Ok(r) && r@ == d,
            None => res matches Err(m) && m@ == "loop 디바이스 파싱 실패:\n"@ + stdout@,
        },
{
    let cs = chars_of(stdout);
    let pat = chars_of("/dev/loop");
    let mut i: usize = 0;
    while i < cs.len()
        invariant
            i <= cs@.len(),
            cs@ == stdout@,
            pat@ == "/dev/loop"@,
            forall|j: int| 0 <= j < i ==> !#[trigger] loop_word_at(cs@, j),
        decreases cs@.len() - i,
    {
        if (i == 0 || is_whitespace(cs[i - 1])) && matches_at(&cs, &pat, i) {
            let w = word_from(&cs, i);
            let d = strip_end_chars(&w, '.');
            proof {
                assert(first_loop_word(cs@, i as int));
                let k = choose|k: int| first_loop_word(cs@, k);
                if k < i {
                    assert(!loop_word_at(cs@, k));
                } else if k > i {
                    assert(!loop_word_at(cs@, i as int));
                }
                assert(k == i);
                assert(loop_device(cs@) == Some(d@));
            }
            return Ok(string_from_chars(&d));
        }
        i = i + 1;
    }
    proof {
        assert forall|j: int| !first_loop_word(cs@, j) by {
            if 0 <= j && j >= cs@.len() {
                assert(!match_at(cs@, "/dev/loop"@, j)) by {
                    reveal_strlit("/dev/loop");
                }
            }
        }
    }
    let mut msg: Vec<char> = Vec::new();
    push_str(&mut msg, "loop 디바이스 파싱 실패:\n");
    push_str(&mut msg, stdout);
    Err(string_from_chars(&msg))
}

/// Where `pat` first occurs in `s`, computed.
pub(crate) fn find_first(s: &Vec<char>, pat: &Vec<char>) -> (res: Option<usize>)
    ensures
        res matches Some(i) ==> first_match(s@, pat@, i as int),
        res is None ==> forall|j: int| !#[trigger] match_at(s@, pat@, j),
{
    let mut i: usize = 0;
    while i < s.len()
        invariant
            i <= s@.len(),
            forall|j: int| 0 <= j < i ==> !#[trigger] match_at(s@, pat@, j),
        decreases s@.len() - i,
    {
        if matches_at(s, pat, i) {
            return Some(i);
        }
        i = i + 1;
    }
    if matches_at(s, pat, i) {
        return Some(i);
    }
    assert forall|j: int| !#[trigger] match_at(s@, pat@, j) by {
        if j > i {
            assert(!match_at(s@, pat@, j));
        }
    }
    None
}

/// The text after the first `pat` in `s`, if it occurs.
pub open spec fn after_first(s: Seq<char>, pat: Seq<char>) -> Option<Seq<char>> {
    if exists|i: int| first_match(s, pat, i) {
        let i = choose|i: int| first_match(s, pat, i);
        Some(s.skip(i + pat.len()))
    } else {
        None
    }
}

/// The text before the first `pat` in `s` (all of `s` when it does not
/// occur).
pub open spec fn before_first(s: Seq<char>, pat: Seq<char>) -> Seq<char> {
    if exists|i: int| first_match(s, pat, i) {
        let i = choose|i: int| first_match(s, pat, i);
        s.take(i)
    } else {
        s
    }
}

/// The first match is unique.
proof fn lemma_first_match_unique(s: Seq<char>, pat: Seq<char>, i: int, k: int)
    requires
        first_match(s, pat, i),
        first_match(s, pat, k),
    ensures
        i == k,
{
    if k < i {
        assert(!match_at(s, pat, k));
    } else if i < k {
        assert(!match_at(s, pat, i));
    }
}

/// The mount point that `udisksctl mount` reports (`Mounted /dev/loop0 at
/// /run/media/user/Foo.`): the second piece of its output split on ` at `,
/// trimmed and without trailing dots.
pub open spec fn mounted_at(s: Seq<char>) -> Option<Seq<char>> {
    match after_first(s, " at "@) {
        Some(r) => Some(strip_end(trim(before_first(r, " at "@)), '.')),
        None => None,
    }
}

/// `s` from `i` on, as a vector.
fn chars_from(s: &Vec<char>, i: usize) -> (res: Vec<char>)
    requires
        i <= s@.len(),
    ensures
        res@ == s@.skip(i as int),
{
    let out = vstd::slice::slice_to_vec(vstd::slice::slice_subrange(s.as_slice(), i, s.len()));
    assert(out@ =~= s@.skip(i as int));
    out
}

/// `s` before `i`, as a vector.
fn chars_before(s: &Vec<char>, i: usize) -> (res: Vec<char>)
    requires
        i <= s@.len(),
    ensures
        res@ == s@.take(i as int),
{
    let out = vstd::slice::slice_to_vec(vstd::slice::slice_subrange(s.as_slice(), 0, i));
    assert(out@ =~= s@.take(i as int));
    out
}

/// Reads the mount point from what `udisksctl mount` printed.
pub fn mount_point_of(stdout: &str) -> (res: Result<String, String>)
    ensures
        match mounted_at(stdout@) {
            Some(m) => res matches Ok(r) && r@ == m,
            None => res matches Err(e) && e@ == "mount 출력 파싱 실패:\n"@ + stdout@,
        },
{
    let cs = chars_of(stdout);
    let pat = chars_of(" at ");
    match find_first(&cs, &pat) {
        Some(i) => {
            proof {
                let k = choose|k: int| first_match(cs@, pat@, k);
                lemma_first_match_unique(cs@, pat@, i as int, k);
            }
            assert(i + pat@.len() <= cs.len());
            let rest = chars_from(&cs, i + pat.len());
            let piece = match find_first(&rest, &pat) {
                Some(j) => {
                    proof {
                        let k = choose|k: int| first_match(rest@, pat@, k);
                        lemma_first_match_unique(rest@, pat@, j as int, k);
                    }
                    chars_before(&rest, j)
                },
                None => {
                    assert(!exists|k: int| first_match(rest@, pat@, k));
                    rest
                },
            };
            let t = trim_chars(&piece);
            let m = strip_end_chars(&t, '.');
            Ok(string_from_chars(&m))
        },
        None => {
            assert(!exists|k: int| first_match(cs@, pat@, k));
            let mut msg: Vec<char> = Vec::new();
            push_str(&mut msg, "mount 출력 파싱 실패:\n");
            push_str(&mut msg, stdout);
            Err(string_from_chars(&msg))
        },
    }
}

/// The name of a mounted volume: the mount point's file name, or `ISO`.
pub open spec fn volume_label(mount_point: Seq<char>) -> Seq<char> {
    match file_name(mount_point) {
        Some(n) => n,
        None => "ISO"@,
    }
}

/// The name of a mounted volume, computed.
pub fn volume_label_of(mount_point: &str) -> (res: String)
    ensures
        res@ == volume_label(mount_point@),
{
    let cs = chars_of(mount_point);
    let (_dir, name) = split_path(&cs);
    if is_file_name_exec(&name) {
        string_from_chars(&name)
    } else {
        "ISO".to_string()
    }
}

/// What mounting an image with `udisksctl` gave: the loop device it was
/// mapped to, and the mount point that `udisksctl mount` printed.
pub fn udisks_mount_result(loop_dev: String, mount_stdout: &str) -> (res: Result<IsoMountResult, String>)
    ensures
        match mounted_at(mount_stdout@) {
            Some(m) => res matches Ok(r) && r.mount_point@ == m && r.handle@ == loop_dev@ && r.label@ == volume_label(m),
            None => res matches Err(e) && e@ == "mount 출력 파싱 실패:\n"@ + mount_stdout@,
        },
{
    match mount_point_of(mount_stdout) {
        Ok(mount_point) => {
            let label = volume_label_of(mount_point.as_str());
            Ok(IsoMountResult { mount_point, handle: loop_dev, label })
        },
        Err(e) => Err(e),
    }
}

/// The pieces of `ps` that are not empty, in order.
pub open spec fn nonempty_pieces(ps: Seq<Seq<char>>) -> Seq<Seq<char>>
    decreases ps.len(),
{
    if ps.len() == 0 {
        ps
    } else if ps.last().len() > 0 {
        nonempty_pieces(ps.drop_last()).push(ps.last())
    } else {
        nonempty_pieces(ps.drop_last())
    }
}

/// Whether `s` starts with `p`.
pub open spec fn starts_with(s: Seq<char>, p: Seq<char>) -> bool {
    s.len() >= p.len() && s.take(p.len() as int) == p
}

/// What a line that `hdiutil attach` printed says of a mounted volume: its
/// tab-separated fields (empty ones dropped), and where the last begins with
/// `/Volumes/`, that mount point and the device in the first field, trimmed.
pub open spec fn volume_line(line: Seq<char>) -> Option<(Seq<char>, Seq<char>)> {
    let parts = nonempty_pieces(split_on(line, '\t'));
    if parts.len() > 0 && starts_with(parts.last(), "/Volumes/"@) {
        Some((trim(parts.last()), trim(parts[0])))
    } else {
        None
    }
}

/// The mount point and device of the last line of `ls` that names a volume.
pub open spec fn last_volume(ls: Seq<Seq<char>>) -> Option<(Seq<char>, Seq<char>)>
    decreases ls.len(),
{
    if ls.len() == 0 {
        None
    } else {
        match volume_line(without_cr(ls.last())) {
            Some(v) => Some(v),
            None => last_volume(ls.drop_last()),
        }
    }
}

/// A line without its trailing carriage return, computed.
fn line_text(l: &Vec<char>) -> (res: Vec<char>)
    ensures
        res@ == without_cr(l@),
{
    if l.len() > 0 && l[l.len() - 1] == '\r' {
        chars_before(l, l.len() - 1)
    } else {
        chars_before(l, l.len())
    }
}

/// Whether `s` starts with `p`, computed.
fn starts_with_exec(s: &Vec<char>, p: &Vec<char>) -> (res: bool)
    ensures
        res == starts_with(s@, p@),
{
    let r = matches_at(s, p, 0);
    assert(s@.subrange(0, p@.len() as int) =~= s@.take(p@.len() as int));
    r
}

/// The mount point and device a line of `hdiutil attach` names, computed.
fn volume_line_of(line: &Vec<char>) -> (res: Option<(Vec<char>, Vec<char>)>)
    ensures
        match volume_line(line@) {
            Some((m, d)) => res matches Some((rm, rd)) && rm@ == m && rd@ == d,
            None => res is None,
        },
{
    let pieces = split_chars(line, '\t');
    let ghost ps = char_views(pieces@);
    let mut parts: Vec<Vec<char>> = Vec::new();
    let mut i: usize = 0;
    assert(ps.take(0) =~= Seq::<Seq<char>>::empty());
    while i < pieces.len()
        invariant
            i <= pieces@.len(),
            ps == char_views(pieces@),
            char_views(parts@) == nonempty_pieces(ps.take(i as int)),
        decreases pieces@.len() - i,
    {
        assert(ps.take(i + 1).drop_last() =~= ps.take(i as int));
        assert(ps.take(i + 1).last() == pieces@[i as int]@);
        if pieces[i].len() > 0 {
            let ghost before = char_views(parts@);
            let piece = chars_before(&pieces[i], pieces[i].len());
            assert(piece@ =~= pieces@[i as int]@);
            parts.push(piece);
            assert(char_views(parts@) =~= before.push(pieces@[i as int]@));
        }
        i = i + 1;
    }
    assert(ps.take(ps.len() as int) =~= ps);
    if parts.len() == 0 {
        return None;
    }
    let n = parts.len();
    assert(char_views(parts@).last() == parts@[n - 1]@);
    let vol = chars_of("/Volumes/");
    if !starts_with_exec(&parts[n - 1], &vol) {
        return None;
    }
    let m = trim_chars(&parts[n - 1]);
    let d = trim_chars(&parts[0]);
    assert(char_views(parts@)[0] == parts@[0]@);
    Some((m, d))
}

/// Reads the mount point and device from what `hdiutil attach` printed: those
/// of its last line that names a volume under `/Volumes/`.
pub fn hdiutil_volume(stdout: &str) -> (res: Result<(String, String), String>)
    ensures
        match last_volume(split_on(stdout@, '\n')) {
            Some((m, d)) => res matches Ok((rm, rd)) && rm@ == m && rd@ == d,
            None => res matches Err(e) && e@ == "hdiutil 출력 파싱 실패:\n"@ + stdout@,
        },
{
    let cs = chars_of(stdout);
    let lines = split_chars(&cs, '\n');
    let ghost ls = char_views(lines@);
    let mut k = lines.len();
    assert(ls.take(ls.len() as int) =~= ls);
    while k > 0
        invariant
            k <= lines@.len(),
            ls == char_views(lines@),
            ls == split_on(stdout@, '\n'),
            last_volume(ls) == last_volume(ls.take(k as int)),
        decreases k,
    {
        let t = line_text(&lines[k - 1]);
        assert(ls.take(k as int).last() == lines@[k - 1]@);
        assert(ls.take(k as int).drop_last() =~= ls.take(k - 1));
        match volume_line_of(&t) {
            Some((m, d)) => {
                return Ok((string_from_chars(&m), string_from_chars(&d)));
            },
            None => {},
        }
        k = k - 1;
    }
    let mut msg: Vec<char> = Vec::new();
    push_str(&mut msg, "hdiutil 출력 파싱 실패:\n");
    push_str(&mut msg, stdout);
    Err(string_from_chars(&msg))
}

/// What mounting an image with `hdiutil attach` gave.
pub fn hdiutil_mount_result(stdout: &str) -> (res: Result<IsoMountResult, String>)
    ensures
        match last_volume(split_on(stdout@, '\n')) {
            Some((m, d)) => res matches Ok(r) && r.mount_point@ == m && r.handle@ == d && r.label@ == volume_label(m),
            None => res matches Err(e) && e@ == "hdiutil 출력 파싱 실패:\n"@ + stdout@,
        },
{
    match hdiutil_volume(stdout) {
        Ok((mount_point, handle)) => {
            let label = volume_label_of(mount_point.as_str());
            Ok(IsoMountResult { mount_point, handle, label })
        },
        Err(e) => Err(e),
    }
}

/// `s` with each `'` doubled, as a PowerShell single-quoted string needs.
pub open spec fn ps_escape(s: Seq<char>) -> Seq<char>
    decreases s.len(),
{
    if s.len() == 0 {
        s
    } else {
        ps_escape(s.drop_last()) + (if s.last() == '\'' {
            seq!['\'', '\'']
        } else {
            seq![s.last()]
        })
    }
}

/// Appends `s` with each `'` doubled.
fn push_ps_escaped(out: &mut Vec<char>, s: &str)
    ensures
        final(out)@ == old(out)@ + ps_escape(s@),
{
    let cs = chars_of(s);
    let ghost start = out@;
    let mut i: usize = 0;
    assert(cs@.take(0) =~= Seq::<char>::empty());
    while i < cs.len()
        invariant
            i <= cs@.len(),
            cs@ == s@,
            out@ == start + ps_escape(cs@.take(i as int)),
        decreases cs@.len() - i,
    {
        assert(cs@.take(i + 1).drop_last() =~= cs@.take(i as int));
        assert(cs@.take(i + 1).last() == cs@[i as int]);
        let ghost before = out@;
        if cs[i] == '\'' {
            out.push('\'');
            out.push('\'');
        } else {
            out.push(cs[i]);
        }
        assert(out@ =~= start + ps_escape(cs@.take(i + 1)));
        i = i + 1;
    }
    assert(cs@.take(cs@.len() as int) =~= cs@);
}

/// The PowerShell script that mounts the image at `path` and prints its drive.
pub open spec fn mount_script(path: Seq<char>) -> Seq<char> {
    "$img = Mount-DiskImage -ImagePath '"@ + ps_escape(path) + "' -PassThru; $vol = Get-DiskImage -ImagePath '"@
        + ps_escape(path) + "' | Get-Volume; Write-Output ($vol.DriveLetter + ':\\')"@
}

/// The PowerShell script that mounts an image, computed.
pub fn mount_script_for(path: &str) -> (res: String)
    ensures
        res@ == mount_script(path@),
{
    let mut out: Vec<char> = Vec::new();
    push_str(&mut out, "$img = Mount-DiskImage -ImagePath '");
    push_ps_escaped(&mut out, path);
    push_str(&mut out, "' -PassThru; $vol = Get-DiskImage -ImagePath '");
    push_ps_escaped(&mut out, path);
    push_str(&mut out, "' | Get-Volume; Write-Output ($vol.DriveLetter + ':\\')");
    string_from_chars(&out)
}

/// The PowerShell script that unmounts the image at `path`.
pub open spec fn unmount_script(path: Seq<char>) -> Seq<char> {
    "Dismount-DiskImage -ImagePath '"@ + ps_escape(path) + "'"@
}

/// The PowerShell script that unmounts an image, computed.
pub fn unmount_script_for(path: &str) -> (res: String)
    ensures
        res@ == unmount_script(path@),
{
    let mut out: Vec<char> = Vec::new();
    push_str(&mut out, "Dismount-DiskImage -ImagePath '");
    push_ps_escaped(&mut out, path);
    push_str(&mut out, "'");
    string_from_chars(&out)
}

/// What mounting the image at `path` with `Mount-DiskImage` gave: the drive
/// the script printed, trimmed; the image path is what unmounting takes, and
/// the drive is the label. Nothing printed is an error.
pub fn drive_mount_result(path: &str, stdout: &str) -> (res: Result<IsoMountResult, String>)
    ensures
        trim(stdout@).len() > 0 ==> (res matches Ok(r) && r.mount_point@ == trim(stdout@) && r.handle@ == path@
            && r.label@ == trim(stdout@)),
        trim(stdout@).len() == 0 ==> (res matches Err(e) && e@ == "드라이브 letter를 얻지 못했습니다"@),
{
    let cs = chars_of(stdout);
    let t = trim_chars(&cs);
    if t.len() == 0 {
        return Err("드라이브 letter를 얻지 못했습니다".to_string());
    }
    Ok(IsoMountResult {
        mount_point: string_from_chars(&t),
        handle: path.to_string(),
        label: string_from_chars(&t),
    })
}

} // verus!
