//! Removable disks that an ISO image may be written to: reading the disk
//! lists that `lsblk -d -n -b -P` and `diskutil list external physical`
//! print, the disks Windows reports, the checks before a write, the check
//! repeated when the write starts, the device and arguments `dd` is run with,
//! and the byte counts that `dd` reports.
use vstd::prelude::*;

use crate::cli::{parse_u64, parse_u64_spec};
use crate::gui::confirm_token_for;
use crate::primitives::{chars_of, string_from_chars};
use crate::text::{chars_equal, char_views, dec_nat, is_whitespace, is_ws, push_dec_u64, push_str, split_chars, split_on, trim, trim_chars};

verus! {

/// A disk that may be written to.
#[derive(Debug, Clone)]
pub struct WritableDisk {
    /// The device path, such as `/dev/sdb`.
    pub id: String,
    /// The name shown: vendor and model, or the device name.
    pub label: String,
    pub size_bytes: u64,
    pub removable: bool,
    pub is_system: bool,
    pub mount_points: Vec<String>,
}

/// `s` without leading `c`.
pub open spec fn strip_start(s: Seq<char>, c: char) -> Seq<char>
    decreases s.len(),
{
    if s.len() > 0 && s[0] == c {
        strip_start(s.drop_first(), c)
    } else {
        s
    }
}

/// `s` without trailing `c`.
pub open spec fn strip_end(s: Seq<char>, c: char) -> Seq<char>
    decreases s.len(),
{
    if s.len() > 0 && s.last() == c {
        strip_end(s.drop_last(), c)
    } else {
        s
    }
}

/// `s` without the quotes around it (`str::trim_matches('"')`).
pub open spec fn unquote(s: Seq<char>) -> Seq<char> {
    strip_end(strip_start(s, '"'), '"')
}

/// The index of the first `c` in `s`, if any.
pub open spec fn first_index(s: Seq<char>, c: char) -> Option<int>
    decreases s.len(),
{
    if s.len() == 0 {
        None
    } else {
        match first_index(s.drop_last(), c) {
            Some(i) => Some(i),
            None => if s.last() == c {
                Some(s.len() - 1)
            } else {
                None
            },
        }
    }
}

/// The key and unquoted value of a `KEY="value"` piece; a piece without `=`
/// has none.
pub open spec fn key_value(piece: Seq<char>) -> Option<(Seq<char>, Seq<char>)> {
    match first_index(piece, '=') {
        Some(e) => Some((piece.take(e), unquote(piece.skip(e + 1)))),
        None => None,
    }
}

/// The value of `key` among `pieces`: that of the last piece with that key.
pub open spec fn lookup(pieces: Seq<Seq<char>>, key: Seq<char>) -> Option<Seq<char>>
    decreases pieces.len(),
{
    if pieces.len() == 0 {
        None
    } else {
        match key_value(pieces.last()) {
            Some(kv) => if kv.0 == key {
                Some(kv.1)
            } else {
                lookup(pieces.drop_last(), key)
            },
            None => lookup(pieces.drop_last(), key),
        }
    }
}

/// The value of `key` in a line, or the empty text.
pub open spec fn field(pieces: Seq<Seq<char>>, key: Seq<char>) -> Seq<char> {
    match lookup(pieces, key) {
        Some(v) => v,
        None => Seq::empty(),
    }
}

/// Whether a mount point is the system's: `/`, `/boot` or below `/boot/`.
pub open spec fn is_system_mount(mp: Seq<char>) -> bool {
    mp == "/"@ || mp == "/boot"@ || (mp.len() >= 6 && mp.take(6) == "/boot/"@)
}

/// What the application keeps of one line of `lsblk -P`: a removable disk
/// (`TYPE` is `disk`, `RM` is `1`) not mounted as the system, as its id
/// `/dev/NAME`, its label (vendor and model, or the name), its size (0 when
/// `SIZE` does not parse) and its mount point. The line is split on single
/// spaces, so a quoted value with a space keeps only its first word.
pub open spec fn lsblk_disk(line: Seq<char>) -> Option<(Seq<char>, Seq<char>, u64, Seq<char>)> {
    let ps = split_on(line, ' ');
    let name = field(ps, "NAME"@);
    let mp = field(ps, "MOUNTPOINT"@);
    let label = trim(field(ps, "VENDOR"@) + " "@ + field(ps, "MODEL"@));
    if field(ps, "TYPE"@) != "disk"@ || lookup(ps, "RM"@) != Some("1"@) || is_system_mount(mp) {
        None
    } else {
        Some(
            (
                "/dev/"@ + name,
                if label.len() == 0 {
                    name
                } else {
                    label
                },
                match lookup(ps, "SIZE"@) {
                    Some(s) => match parse_u64_spec(s) {
                        Some(v) => v,
                        None => 0,
                    },
                    None => 0,
                },
                mp,
            ),
        )
    }
}

/// Whether a disk is the one `lsblk_disk` describes.
pub open spec fn disk_matches(d: WritableDisk, v: (Seq<char>, Seq<char>, u64, Seq<char>)) -> bool {
    &&& d.id@ == v.0
    &&& d.label@ == v.1
    &&& d.size_bytes == v.2
    &&& d.removable
    &&& !d.is_system
    &&& (if v.3.len() == 0 {
        d.mount_points@.len() == 0
    } else {
        d.mount_points@.len() == 1 && d.mount_points@[0]@ == v.3
    })
}

/// Removes leading and trailing `"`.
fn unquote_exec(s: &Vec<char>) -> (res: Vec<char>)
    ensures
        res@ == unquote(s@),
{
    let n = s.len();
    let mut i: usize = 0;
    assert(s@.skip(0) =~= s@);
    while i < n && s[i] == '"'
        invariant
            i <= n == s@.len(),
            strip_start(s@, '"') == strip_start(s@.skip(i as int), '"'),
        decreases n - i,
    {
        assert(s@.skip(i as int).drop_first() =~= s@.skip(i + 1));
        i = i + 1;
    }
    assert(strip_start(s@.skip(i as int), '"') == s@.skip(i as int));
    let mut k: usize = n;
    while k > i && s[k - 1] == '"'
        invariant
            i <= k <= n == s@.len(),
            strip_end(s@.skip(i as int), '"') == strip_end(s@.subrange(i as int, k as int), '"'),
        decreases k,
    {
        assert(s@.subrange(i as int, k as int).drop_last() =~= s@.subrange(i as int, k - 1));
        k = k - 1;
    }
    assert(s@.subrange(i as int, n as int) =~= s@.skip(i as int));
    let ghost t = s@.subrange(i as int, k as int);
    assert(strip_end(t, '"') == t);
    let mut out: Vec<char> = Vec::new();
    let mut j: usize = i;
    while j < k
        invariant
            i <= j <= k <= n == s@.len(),
            out@ == s@.subrange(i as int, j as int),
        decreases k - j,
    {
        out.push(s[j]);
        j = j + 1;
        assert(out@ =~= s@.subrange(i as int, j as int));
    }
    out
}

/// The key and unquoted value of a piece, computed.
fn key_value_exec(piece: &Vec<char>) -> (res: Option<(Vec<char>, Vec<char>)>)
    ensures
        match key_value(piece@) {
            Some(kv) => res matches Some(r) && r.0@ == kv.0 && r.1@ == kv.1,
            None => res is None,
        },
{
    let mut e: usize = 0;
    while e < piece.len() && piece[e] != '='
        invariant
            e <= piece@.len(),
            forall|j: int| 0 <= j < e ==> piece@[j] != '=',
        decreases piece@.len() - e,
    {
        e = e + 1;
    }
    proof {
        lemma_first_index(piece@, '=', e as int);
    }
    if e == piece.len() {
        return None;
    }
    let mut key: Vec<char> = Vec::new();
    let mut i: usize = 0;
    while i < e
        invariant
            i <= e < piece@.len(),
            key@ == piece@.take(i as int),
        decreases e - i,
    {
        key.push(piece[i]);
        i = i + 1;
        assert(key@ =~= piece@.take(i as int));
    }
    let mut rest: Vec<char> = Vec::new();
    let mut j: usize = e + 1;
    while j < piece.len()
        invariant
            e + 1 <= j <= piece@.len(),
            rest@ == piece@.subrange(e + 1, j as int),
        decreases piece@.len() - j,
    {
        rest.push(piece[j]);
        j = j + 1;
        assert(rest@ =~= piece@.subrange(e + 1, j as int));
    }
    assert(rest@ =~= piece@.skip(e + 1));
    let value = unquote_exec(&rest);
    Some((key, value))
}

/// `first_index` is the first position of `c`.
proof fn lemma_first_index(s: Seq<char>, c: char, e: int)
    requires
        0 <= e <= s.len(),
        forall|j: int| 0 <= j < e ==> s[j] != c,
        e < s.len() ==> s[e] == c,
    ensures
        first_index(s, c) == (if e < s.len() {
            Some(e)
        } else {
            None::<int>
        }),
    decreases s.len(),
{
    if s.len() > 0 {
        if e < s.len() {
            if e < s.len() - 1 {
                lemma_first_index(s.drop_last(), c, e);
            } else {
                lemma_first_index(s.drop_last(), c, e);
            }
        } else {
            lemma_first_index(s.drop_last(), c, e - 1);
        }
    }
}

/// Whether a character vector is the text `b`.
fn chars_equal_str(a: &Vec<char>, b: &str) -> (res: bool)
    ensures
        res == (a@ == b@),
{
    let bc = chars_of(b);
    chars_equal(a, &bc)
}

/// The value of `key` among the pieces of a line, computed.
fn lookup_exec(pieces: &Vec<Vec<char>>, key: &str) -> (res: Option<Vec<char>>)
    ensures
        match lookup(char_views(pieces@), key@) {
            Some(v) => res matches Some(r) && r@ == v,
            None => res is None,
        },
{
    let ghost ps = char_views(pieces@);
    let mut found: Option<Vec<char>> = None;
    let mut i: usize = 0;
    assert(ps.take(0) =~= Seq::<Seq<char>>::empty());
    while i < pieces.len()
        invariant
            i <= pieces@.len(),
            ps == char_views(pieces@),
            match lookup(ps.take(i as int), key@) {
                Some(v) => found matches Some(r) && r@ == v,
                None => found is None,
            },
        decreases pieces@.len() - i,
    {
        proof {
            assert(ps.take(i + 1).drop_last() =~= ps.take(i as int));
            assert(ps.take(i + 1).last() == pieces@[i as int]@);
        }
        match key_value_exec(&pieces[i]) {
            Some((k, v)) => {
                if chars_equal_str(&k, key) {
                    found = Some(v);
                }
            },
            None => {},
        }
        i = i + 1;
    }
    assert(ps.take(ps.len() as int) =~= ps);
    found
}

/// The value of `key`, or the empty text, computed.
fn field_exec(pieces: &Vec<Vec<char>>, key: &str) -> (res: Vec<char>)
    ensures
        res@ == field(char_views(pieces@), key@),
{
    match lookup_exec(pieces, key) {
        Some(v) => v,
        None => Vec::new(),
    }
}

/// Reads one line of `lsblk -d -n -b -P -o NAME,SIZE,TYPE,RM,MOUNTPOINT,VENDOR,MODEL`:
/// a removable disk that is not mounted as the system, or `None`.
pub fn parse_lsblk_line(line: &str) -> (res: Option<WritableDisk>)
    ensures
        match lsblk_disk(line@) {
            Some(v) => res matches Some(d) && disk_matches(d, v),
            None => res is None,
        },
{
    let cs = chars_of(line);
    let pieces = split_chars(&cs, ' ');
    let typ = field_exec(&pieces, "TYPE");
    if !chars_equal_str(&typ, "disk") {
        return None;
    }
    let removable = match lookup_exec(&pieces, "RM") {
        Some(v) => chars_equal_str(&v, "1"),
        None => false,
    };
    if !removable {
        return None;
    }
    let name = field_exec(&pieces, "NAME");
    let mp = field_exec(&pieces, "MOUNTPOINT");
    let mut head: Vec<char> = Vec::new();
    let mut h: usize = 0;
    while h < 6 && h < mp.len()
        invariant
            h <= 6,
            h <= mp@.len(),
            head@ == mp@.take(h as int),
        decreases 6 - h,
    {
        head.push(mp[h]);
        h = h + 1;
        assert(head@ =~= mp@.take(h as int));
    }
    let boot_below = mp.len() >= 6 && chars_equal_str(&head, "/boot/");
    if chars_equal_str(&mp, "/") || chars_equal_str(&mp, "/boot") || boot_below {
        return None;
    }
    let size: u64 = match lookup_exec(&pieces, "SIZE") {
        Some(s) => {
            proof {
                assert(s@.subrange(0, s@.len() as int) =~= s@);
            }
            match parse_u64(&s, 0) {
                Some(v) => v,
                None => 0,
            }
        },
        None => 0,
    };
    let vendor = field_exec(&pieces, "VENDOR");
    let model = field_exec(&pieces, "MODEL");
    let mut both: Vec<char> = Vec::new();
    crate::paths::push_chars(&mut both, &vendor);
    push_str(&mut both, " ");
    crate::paths::push_chars(&mut both, &model);
    let label = trim_chars(&both);
    let mut id: Vec<char> = Vec::new();
    push_str(&mut id, "/dev/");
    crate::paths::push_chars(&mut id, &name);
    let shown = if label.len() == 0 {
        string_from_chars(&name)
    } else {
        string_from_chars(&label)
    };
    let mut mounts: Vec<String> = Vec::new();
    if mp.len() > 0 {
        mounts.push(string_from_chars(&mp));
    }
    proof {
        assert(char_views(pieces@) == split_on(line@, ' '));
    }
    Some(
        WritableDisk {
            id: string_from_chars(&id),
            label: shown,
            size_bytes: size,
            removable: true,
            is_system: false,
            mount_points: mounts,
        },
    )
}

/// A line without its trailing carriage return (`str::lines`).
pub open spec fn without_cr(l: Seq<char>) -> Seq<char> {
    if l.len() > 0 && l.last() == '\r' {
        l.drop_last()
    } else {
        l
    }
}

/// The disks of the lines `ls`, in order.
pub open spec fn lsblk_disks(ls: Seq<Seq<char>>) -> Seq<(Seq<char>, Seq<char>, u64, Seq<char>)>
    decreases ls.len(),
{
    if ls.len() == 0 {
        Seq::empty()
    } else {
        lsblk_disks(ls.drop_last()) + match lsblk_disk(without_cr(ls.last())) {
            Some(v) => seq![v],
            None => Seq::empty(),
        }
    }
}

/// Reads the disk list that `lsblk -P` printed: the disks of its lines, in
/// order.
pub fn parse_lsblk(output: &str) -> (res: Vec<WritableDisk>)
    ensures
        res@.len() == lsblk_disks(split_on(output@, '\n')).len(),
        forall|i: int| 0 <= i < res@.len() ==> disk_matches(#[trigger] res@[i], lsblk_disks(split_on(output@, '\n'))[i]),
{
    let cs = chars_of(output);
    let lines = split_chars(&cs, '\n');
    let ghost ls = char_views(lines@);
    let mut out: Vec<WritableDisk> = Vec::new();
    let mut i: usize = 0;
    assert(ls.take(0) =~= Seq::<Seq<char>>::empty());
    while i < lines.len()
        invariant
            i <= lines@.len(),
            ls == char_views(lines@),
            ls == split_on(output@, '\n'),
            out@.len() == lsblk_disks(ls.take(i as int)).len(),
            forall|k: int| 0 <= k < out@.len() ==> disk_matches(#[trigger] out@[k], lsblk_disks(ls.take(i as int))[k]),
        decreases lines@.len() - i,
    {
        let l = &lines[i];
        let mut t: Vec<char> = Vec::new();
        let end = if l.len() > 0 && l[l.len() - 1] == '\r' {
            l.len() - 1
        } else {
            l.len()
        };
        let mut k: usize = 0;
        while k < end
            invariant
                k <= end <= l@.len(),
                t@ == l@.take(k as int),
            decreases end - k,
        {
            t.push(l[k]);
            k = k + 1;
            assert(t@ =~= l@.take(k as int));
        }
        assert(ls[i as int] == l@);
        assert(t@ =~= without_cr(ls[i as int]));
        assert(ls.take(i + 1).drop_last() =~= ls.take(i as int));
        assert(ls.take(i + 1).last() == ls[i as int]);
        let ghost before = lsblk_disks(ls.take(i as int));
        let text = string_from_chars(&t);
        match parse_lsblk_line(text.as_str()) {
            Some(d) => {
                out.push(d);
                assert(lsblk_disks(ls.take(i + 1)) =~= before + seq![lsblk_disk(without_cr(ls[i as int]))->0]);
            },
            None => {
                assert(lsblk_disks(ls.take(i + 1)) =~= before);
            },
        }
        i = i + 1;
    }
    assert(ls.take(ls.len() as int) =~= ls);
    out
}

/// The confirmation token of a disk, as `confirm_token_for` makes it.
pub open spec fn token_of(d: WritableDisk) -> Seq<char> {
    d.id@ + seq![':'] + dec_nat(d.size_bytes as nat)
}

/// The index of the first disk with the id `id`, if any.
pub open spec fn first_disk(ds: Seq<WritableDisk>, id: Seq<char>) -> Option<int>
    decreases ds.len(),
{
    if ds.len() == 0 {
        None
    } else {
        match first_disk(ds.drop_last(), id) {
            Some(i) => Some(i),
            None => if ds.last().id@ == id {
                Some(ds.len() - 1)
            } else {
                None
            },
        }
    }
}

/// Whether two strings are equal, computed.
fn strings_eq(a: &str, b: &str) -> (res: bool)
    ensures
        res == (a@ == b@),
{
    let ac = chars_of(a);
    chars_equal_str(&ac, b)
}

/// Chooses the disk to write an ISO image to: the first listed disk with
/// the id, whose token (id and size) is the one confirmed and which is not a
/// system disk. Its index is returned.
pub fn choose_iso_disk(disks: &[WritableDisk], disk_id: &str, confirm_token: &str) -> (res: Result<usize, String>)
    ensures
        match first_disk(disks@, disk_id@) {
            None => res matches Err(m) && m@ == "디스크 "@ + disk_id@ + "가 더 이상 보이지 않습니다 (분리됨?)"@,
            Some(i) => if token_of(disks@[i]) != confirm_token@ {
                res matches Err(m) && m@ == "confirm_token 불일치 — 디스크가 바뀌었거나 안전 가드 실패. expected="@
                    + token_of(disks@[i]) + ", got="@ + confirm_token@
            } else if disks@[i].is_system {
                res matches Err(m) && m@ == "시스템/부팅 디스크에는 쓸 수 없습니다"@
            } else {
                res == Ok::<usize, String>(i as usize)
            },
        },
{
    let mut i: usize = 0;
    assert(disks@.take(0) =~= Seq::<WritableDisk>::empty());
    while i < disks.len()
        invariant
            i <= disks@.len(),
            first_disk(disks@.take(i as int), disk_id@) is None,
        decreases disks@.len() - i,
    {
        assert(disks@.take(i + 1).drop_last() =~= disks@.take(i as int));
        if strings_eq(disks[i].id.as_str(), disk_id) {
            proof {
                lemma_first_disk_prefix(disks@, disk_id@, i + 1);
            }
            let d = &disks[i];
            let expected = confirm_token_for(d.id.as_str(), d.size_bytes);
            if !strings_eq(expected.as_str(), confirm_token) {
                let mut msg: Vec<char> = Vec::new();
                push_str(&mut msg, "confirm_token 불일치 — 디스크가 바뀌었거나 안전 가드 실패. expected=");
                push_str(&mut msg, expected.as_str());
                push_str(&mut msg, ", got=");
                push_str(&mut msg, confirm_token);
                return Err(string_from_chars(&msg));
            }
            if d.is_system {
                return Err("시스템/부팅 디스크에는 쓸 수 없습니다".to_string());
            }
            return Ok(i);
        }
        i = i + 1;
    }
    assert(disks@.take(disks@.len() as int) =~= disks@);
    let mut msg: Vec<char> = Vec::new();
    push_str(&mut msg, "디스크 ");
    push_str(&mut msg, disk_id);
    push_str(&mut msg, "가 더 이상 보이지 않습니다 (분리됨?)");
    Err(string_from_chars(&msg))
}

/// A match in a prefix is the first match of the whole list.
proof fn lemma_first_disk_prefix(ds: Seq<WritableDisk>, id: Seq<char>, k: int)
    requires
        0 < k <= ds.len(),
        first_disk(ds.take(k - 1), id) is None,
        ds[k - 1].id@ == id,
    ensures
        first_disk(ds, id) == Some(k - 1),
    decreases ds.len(),
{
    assert(ds.take(k).drop_last() =~= ds.take(k - 1));
    assert(ds.take(k).last() == ds[k - 1]);
    if k < ds.len() {
        assert(ds.drop_last().take(k - 1) =~= ds.take(k - 1));
        lemma_first_disk_prefix(ds.drop_last(), id, k);
    } else {
        assert(ds.take(k) =~= ds);
    }
}

/// Checks that an ISO image of `iso_size` bytes fits on a disk of
/// `disk_size` bytes; an empty image is refused.
pub fn check_iso_size(iso_size: u64, disk_size: u64) -> (res: Result<(), String>)
    ensures
        iso_size == 0 ==> (res matches Err(m) && m@ == "ISO 파일이 비어 있습니다"@),
        iso_size > 0 && iso_size > disk_size ==> (res matches Err(m) && m@ == "ISO("@ + dec_nat(iso_size as nat)
            + " bytes)가 디스크("@ + dec_nat(disk_size as nat) + " bytes)보다 큽니다"@),
        0 < iso_size <= disk_size ==> res is Ok,
{
    if iso_size == 0 {
        return Err("ISO 파일이 비어 있습니다".to_string());
    }
    if iso_size > disk_size {
        let mut msg: Vec<char> = Vec::new();
        push_str(&mut msg, "ISO(");
        push_dec_u64(&mut msg, iso_size);
        push_str(&mut msg, " bytes)가 디스크(");
        push_dec_u64(&mut msg, disk_size);
        push_str(&mut msg, " bytes)보다 큽니다");
        return Err(string_from_chars(&msg));
    }
    Ok(())
}

/// Whether an ISO image of `iso_size` bytes may be written to the disk with
/// id `disk_id`: the first listed disk with that id carries the confirmed
/// token, is no system disk, and holds the non-empty image.
pub open spec fn iso_write_allowed(disks: Seq<WritableDisk>, disk_id: Seq<char>, confirm_token: Seq<char>, iso_size: u64) -> bool {
    match first_disk(disks, disk_id) {
        Some(i) => token_of(disks[i]) == confirm_token && !disks[i].is_system && 0 < iso_size <= disks[i].size_bytes,
        None => false,
    }
}

/// Decides an ISO write: the disk is chosen as `choose_iso_disk` does, then
/// the image size is checked as `check_iso_size` does. A write is accepted
/// only onto a listed, confirmed, non-system disk large enough for the
/// non-empty image, and then the index of that disk is returned.
pub fn accept_iso_write(disks: &[WritableDisk], disk_id: &str, confirm_token: &str, iso_size: u64) -> (res: Result<usize, String>)
    ensures
        res is Ok <==> iso_write_allowed(disks@, disk_id@, confirm_token@, iso_size),
        res matches Ok(i) ==> ({
            &&& i < disks@.len()
            &&& first_disk(disks@, disk_id@) == Some(i as int)
            &&& disks@[i as int].id@ == disk_id@
            &&& token_of(disks@[i as int]) == confirm_token@
            &&& !disks@[i as int].is_system
            &&& 0 < iso_size <= disks@[i as int].size_bytes
        }),
        first_disk(disks@, disk_id@) is None ==> (res matches Err(m) && m@ == "디스크 "@ + disk_id@
            + "가 더 이상 보이지 않습니다 (분리됨?)"@),
{
    let i = match choose_iso_disk(disks, disk_id, confirm_token) {
        Ok(i) => i,
        Err(e) => return Err(e),
    };
    proof {
        lemma_first_disk_found(disks@, disk_id@);
    }
    match check_iso_size(iso_size, disks[i].size_bytes) {
        Ok(()) => Ok(i),
        Err(e) => Err(e),
    }
}

/// Whether the disk is still listed when the write starts, with the same
/// token and not as a system disk.
pub fn disk_still_safe(disks: &[WritableDisk], disk_id: &str, expected_token: &str) -> (res: bool)
    ensures
        res <==> exists|i: int|
            0 <= i < disks@.len() && #[trigger] disks@[i].id@ == disk_id@ && token_of(disks@[i]) == expected_token@
                && !disks@[i].is_system,
{
    let mut i: usize = 0;
    while i < disks.len()
        invariant
            i <= disks@.len(),
            forall|j: int|
                0 <= j < i ==> !(#[trigger] disks@[j].id@ == disk_id@ && token_of(disks@[j]) == expected_token@
                    && !disks@[j].is_system),
        decreases disks@.len() - i,
    {
        let d = &disks[i];
        if strings_eq(d.id.as_str(), disk_id) && !d.is_system {
            let t = confirm_token_for(d.id.as_str(), d.size_bytes);
            if strings_eq(t.as_str(), expected_token) {
                return true;
            }
        }
        i = i + 1;
    }
    false
}

/// The first disk with an id has that id.
proof fn lemma_first_disk_found(ds: Seq<WritableDisk>, id: Seq<char>)
    ensures
        first_disk(ds, id) matches Some(i) ==> 0 <= i < ds.len() && ds[i].id@ == id,
    decreases ds.len(),
{
    if ds.len() > 0 {
        lemma_first_disk_found(ds.drop_last(), id);
    }
}

/// When the disk list has not changed since a disk was chosen with its
/// confirmed token, the check repeated when the write starts passes: the
/// disk is still listed with that token and not as a system disk.
pub proof fn lemma_chosen_disk_still_safe(disks: Seq<WritableDisk>, id: Seq<char>, token: Seq<char>)
    requires
        first_disk(disks, id) matches Some(i) && token_of(disks[i]) == token && !disks[i].is_system,
    ensures
        exists|j: int|
            0 <= j < disks.len() && #[trigger] disks[j].id@ == id && token_of(disks[j]) == token
                && !disks[j].is_system,
{
    lemma_first_disk_found(disks, id);
    let i = first_disk(disks, id)->0;
    assert(disks[i].id@ == id);
}

/// Whether `pat` occurs in `s` at `i`.
pub open spec fn match_at(s: Seq<char>, pat: Seq<char>, i: int) -> bool {
    0 <= i && i + pat.len() <= s.len() && s.subrange(i, i + pat.len()) == pat
}

/// Whether `i` is where `pat` first occurs in `s`.
pub open spec fn first_match(s: Seq<char>, pat: Seq<char>, i: int) -> bool {
    match_at(s, pat, i) && forall|j: int| 0 <= j < i ==> !#[trigger] match_at(s, pat, j)
}

/// The index just after the last whitespace of `t` (0 when there is none).
pub open spec fn word_start(t: Seq<char>) -> int
    decreases t.len(),
{
    if t.len() == 0 {
        0
    } else if is_ws(t.last()) {
        t.len() as int
    } else {
        word_start(t.drop_last())
    }
}

/// The last whitespace-separated word of `s`, if any.
pub open spec fn last_word(s: Seq<char>) -> Option<Seq<char>> {
    let t = crate::text::trim_end(s);
    if t.len() == 0 {
        None
    } else {
        Some(t.skip(word_start(t)))
    }
}

/// The byte count in a progress line of `dd`: the number just before the
/// first ` bytes`.
pub open spec fn dd_bytes(line: Seq<char>) -> Option<u64> {
    if exists|i: int| first_match(line, " bytes"@, i) {
        let i = choose|i: int| first_match(line, " bytes"@, i);
        match last_word(line.take(i)) {
            Some(w) => parse_u64_spec(w),
            None => None,
        }
    } else {
        None
    }
}

/// Reads the number of bytes written from a progress line of `dd`, such as
/// `1234567 bytes (1.2 MB, 1.2 MiB) copied`.
pub fn dd_bytes_written(line: &str) -> (res: Option<u64>)
    ensures
        res == dd_bytes(line@),
{
    let cs = chars_of(line);
    let pat = chars_of(" bytes");
    let ghost p = pat@;
    let mut i: usize = 0;
    let mut found = false;
    let len = cs.len();
    while !found && i < cs.len() && cs.len() - i >= pat.len()
        invariant
            len == cs@.len(),
            p == pat@,
            p == " bytes"@,
            i <= cs@.len(),
            forall|j: int| 0 <= j < i ==> !#[trigger] match_at(cs@, p, j),
            found ==> match_at(cs@, p, i as int),
        decreases cs@.len() - i + (if found { 0int } else { 1int }),
    {
        let mut k: usize = 0;
        let mut same = true;
        while same && k < pat.len()
            invariant
                k <= pat@.len(),
                len == cs@.len(),
                i + pat@.len() <= cs@.len(),
                same ==> forall|j: int| 0 <= j < k ==> cs@[i + j] == pat@[j],
                !same ==> cs@.subrange(i as int, i + pat@.len()) != pat@,
            decreases pat@.len() - k + (if same { 1int } else { 0int }),
        {
            if cs[i + k] != pat[k] {
                assert(cs@.subrange(i as int, i + pat@.len())[k as int] != pat@[k as int]);
                same = false;
            } else {
                k = k + 1;
            }
        }
        if same {
            assert(cs@.subrange(i as int, i + pat@.len()) =~= pat@);
            found = true;
        } else {
            i = i + 1;
        }
    }
    if !found {
        proof {
            reveal_strlit(" bytes");
            assert forall|j: int| !first_match(cs@, p, j) by {
                if 0 <= j && j >= i {
                    assert(!match_at(cs@, p, j));
                }
            }
        }
        return None;
    }
    proof {
        assert(first_match(cs@, p, i as int));
        let c = choose|c: int| first_match(cs@, p, c);
        if c < i {
            assert(!match_at(cs@, p, c));
        }
        if c > i {
            assert(!match_at(cs@, p, i as int));
        }
        assert(c == i);
    }
    let mut prefix: Vec<char> = Vec::new();
    let mut j: usize = 0;
    while j < i
        invariant
            j <= i <= cs@.len(),
            prefix@ == cs@.take(j as int),
        decreases i - j,
    {
        prefix.push(cs[j]);
        j = j + 1;
        assert(prefix@ =~= cs@.take(j as int));
    }
    match last_word_exec(&prefix) {
        Some(w) => {
            proof {
                assert(w@.subrange(0, w@.len() as int) =~= w@);
            }
            parse_u64(&w, 0)
        },
        None => None,
    }
}

/// The last whitespace-separated word of `s`, computed.
fn last_word_exec(s: &Vec<char>) -> (res: Option<Vec<char>>)
    ensures
        match last_word(s@) {
            Some(w) => res matches Some(r) && r@ == w,
            None => res is None,
        },
{
    let mut k: usize = s.len();
    assert(s@.take(k as int) =~= s@);
    while k > 0 && crate::text::is_whitespace(s[k - 1])
        invariant
            k <= s@.len(),
            crate::text::trim_end(s@) == crate::text::trim_end(s@.take(k as int)),
        decreases k,
    {
        assert(s@.take(k as int).drop_last() =~= s@.take(k - 1));
        k = k - 1;
    }
    let ghost t = s@.take(k as int);
    assert(crate::text::trim_end(t) == t);
    if k == 0 {
        return None;
    }
    assert(t.take(k as int) =~= t);
    let mut b: usize = k;
    while b > 0 && !crate::text::is_whitespace(s[b - 1])
        invariant
            b <= k <= s@.len(),
            t == s@.take(k as int),
            word_start(t) == word_start(t.take(b as int)),
        decreases b,
    {
        assert(t.take(b as int).drop_last() =~= t.take(b - 1));
        b = b - 1;
    }
    assert(word_start(t.take(b as int)) == b);
    let mut w: Vec<char> = Vec::new();
    let mut j: usize = b;
    while j < k
        invariant
            b <= j <= k <= s@.len(),
            w@ == s@.subrange(b as int, j as int),
        decreases k - j,
    {
        w.push(s[j]);
        j = j + 1;
        assert(w@ =~= s@.subrange(b as int, j as int));
    }
    assert(w@ =~= t.skip(b as int));
    Some(w)
}

/// The whitespace-separated words of `s` (`str::split_whitespace`).
pub open spec fn ws_words(s: Seq<char>) -> Seq<Seq<char>>
    decreases s.len(),
{
    if s.len() == 0 {
        Seq::empty()
    } else {
        let init = ws_words(s.drop_last());
        if is_ws(s.last()) {
            init
        } else if s.len() >= 2 && !is_ws(s[s.len() - 2]) && init.len() > 0 {
            init.update(init.len() - 1, init.last().push(s.last()))
        } else {
            init.push(seq![s.last()])
        }
    }
}

/// Splits `s` into its whitespace-separated words.
pub(crate) fn split_ws(s: &Vec<char>) -> (res: Vec<Vec<char>>)
    ensures
        char_views(res@) == ws_words(s@),
{
    let mut words: Vec<Vec<char>> = Vec::new();
    let mut cur: Vec<char> = Vec::new();
    let mut in_word = false;
    let mut i: usize = 0;
    assert(s@.take(0) =~= Seq::<char>::empty());
    while i < s.len()
        invariant
            i <= s@.len(),
            in_word ==> i > 0 && !is_ws(s@[i - 1]) && cur@.len() > 0,
            !in_word ==> (i == 0 || is_ws(s@[i - 1])) && cur@.len() == 0,
            ws_words(s@.take(i as int)) == char_views(words@) + (if in_word {
                seq![cur@]
            } else {
                Seq::<Seq<char>>::empty()
            }),
        decreases s@.len() - i,
    {
        let c = s[i];
        let ghost pre = s@.take(i as int);
        let ghost now = s@.take(i + 1);
        assert(now.drop_last() =~= pre);
        assert(now.last() == c);
        if is_whitespace(c) {
            if in_word {
                let ghost before = char_views(words@);
                let done = cur;
                words.push(done);
                cur = Vec::new();
                assert(char_views(words@) =~= before.push(done@));
                assert(before + seq![done@] =~= before.push(done@));
            }
            in_word = false;
            assert(ws_words(now) == ws_words(pre));
            assert(char_views(words@) + Seq::<Seq<char>>::empty() =~= char_views(words@));
        } else {
            if in_word {
                let ghost old_cur = cur@;
                cur.push(c);
                assert(now[now.len() - 2] == s@[i - 1]);
                assert(ws_words(pre).len() > 0);
                assert(ws_words(pre) =~= char_views(words@) + seq![old_cur]);
                assert(ws_words(now) =~= char_views(words@) + seq![cur@]);
            } else {
                cur.push(c);
                assert(cur@ =~= seq![c]);
                if i > 0 {
                    assert(now[now.len() - 2] == s@[i - 1]);
                }
                assert(ws_words(pre) =~= char_views(words@));
                assert(ws_words(now) =~= char_views(words@) + seq![cur@]);
            }
            in_word = true;
        }
        i = i + 1;
    }
    assert(s@.take(s@.len() as int) =~= s@);
    if in_word {
        let ghost before = char_views(words@);
        let done = cur;
        words.push(done);
        assert(char_views(words@) =~= before + seq![done@]);
    } else {
        assert(char_views(words@) + Seq::<Seq<char>>::empty() =~= char_views(words@));
    }
    words
}

/// An external disk that `diskutil list external physical` lists: its
/// device, the name shown, and the text of its size as the listing gives it
/// (the first column marked `*`, without the mark).
#[derive(Debug, Clone)]
pub struct DiskutilDisk {
    pub id: String,
    pub label: String,
    pub size_text: String,
}

/// Whether `s` begins with `p`.
pub open spec fn begins(s: Seq<char>, p: Seq<char>) -> bool {
    s.len() >= p.len() && s.take(p.len() as int) == p
}

/// The first column marked `*`, without its leading marks (empty when none).
pub open spec fn starred(cols: Seq<Seq<char>>) -> Seq<char>
    decreases cols.len(),
{
    if cols.len() == 0 {
        Seq::empty()
    } else if cols[0].len() > 0 && cols[0][0] == '*' {
        strip_start(cols[0], '*')
    } else {
        starred(cols.drop_first())
    }
}

/// What reading the listing has gathered: the disks done, the device being
/// read, its name and its size text.
pub type DiskutilState = (Seq<(Seq<char>, Seq<char>, Seq<char>)>, Option<Seq<char>>, Seq<char>, Seq<char>);

/// One line of the listing read: a `/dev/disk…` line closes the disk being
/// read and opens another (named by its first word); a `0:` or `1:` line with
/// at least four columns, while the disk has no name, gives its size text,
/// and a `0:` line names it `USB Disk`.
pub open spec fn diskutil_step(st: DiskutilState, line: Seq<char>) -> DiskutilState {
    let t = trim(line);
    if begins(t, "/dev/disk"@) {
        let w = ws_words(t);
        let id = if w.len() > 0 {
            w[0]
        } else {
            Seq::empty()
        };
        match st.1 {
            Some(prev) => (st.0.push((prev, st.2, st.3)), Some(id), Seq::empty(), Seq::empty()),
            None => (st.0, Some(id), st.2, st.3),
        }
    } else if begins(t, "0:"@) || begins(t, "1:"@) {
        let cols = ws_words(t);
        if cols.len() >= 4 && st.2.len() == 0 {
            (st.0, st.1, if cols[0] == "0:"@ {
                "USB Disk"@
            } else {
                st.2
            }, starred(cols))
        } else {
            st
        }
    } else {
        st
    }
}

/// The listing read line by line from the start.
pub open spec fn diskutil_run(lines: Seq<Seq<char>>) -> DiskutilState
    decreases lines.len(),
{
    if lines.len() == 0 {
        (Seq::empty(), None, Seq::empty(), Seq::empty())
    } else {
        diskutil_step(diskutil_run(lines.drop_last()), lines.last())
    }
}

/// The disks of a listing: those done, then the one being read at the end.
pub open spec fn diskutil_disks_of(text: Seq<char>) -> Seq<(Seq<char>, Seq<char>, Seq<char>)> {
    let st = diskutil_run(split_on(text, '\n'));
    match st.1 {
        Some(id) => st.0.push((id, st.2, st.3)),
        None => st.0,
    }
}

/// Whether `s` begins with `p`, computed.
fn begins_exec(s: &Vec<char>, p: &str) -> (res: bool)
    ensures
        res == begins(s@, p@),
{
    let pc = chars_of(p);
    let r = crate::iso::matches_at(s, &pc, 0);
    assert(s@.subrange(0, pc@.len() as int) =~= s@.take(pc@.len() as int));
    r
}

/// The first column marked `*`, computed.
fn starred_exec(cols: &Vec<Vec<char>>) -> (res: Vec<char>)
    ensures
        res@ == starred(char_views(cols@)),
{
    let ghost cv = char_views(cols@);
    let mut i: usize = 0;
    assert(cv.skip(0) =~= cv);
    while i < cols.len()
        invariant
            i <= cols@.len(),
            cv == char_views(cols@),
            starred(cv) == starred(cv.skip(i as int)),
        decreases cols@.len() - i,
    {
        assert(cv.skip(i as int)[0] == cols@[i as int]@);
        if cols[i].len() > 0 && cols[i][0] == '*' {
            let c = &cols[i];
            let mut k: usize = 0;
            assert(c@.skip(0) =~= c@);
            while k < c.len() && c[k] == '*'
                invariant
                    k <= c@.len(),
                    strip_start(c@, '*') == strip_start(c@.skip(k as int), '*'),
                decreases c@.len() - k,
            {
                assert(c@.skip(k as int).drop_first() =~= c@.skip(k + 1));
                k = k + 1;
            }
            let rest = vstd::slice::slice_to_vec(vstd::slice::slice_subrange(c.as_slice(), k, c.len()));
            assert(rest@ =~= c@.skip(k as int));
            return rest;
        }
        assert(cv.skip(i as int).drop_first() =~= cv.skip(i + 1));
        i = i + 1;
    }
    Vec::new()
}

/// Reads the external disks that `diskutil list external physical` printed.
pub fn diskutil_disks(text: &str) -> (res: Vec<DiskutilDisk>)
    ensures
        res@.len() == diskutil_disks_of(text@).len(),
        forall|i: int|
            0 <= i < res@.len() ==> (#[trigger] res@[i]).id@ == diskutil_disks_of(text@)[i].0 && res@[i].label@
                == diskutil_disks_of(text@)[i].1 && res@[i].size_text@ == diskutil_disks_of(text@)[i].2,
{
    let cs = chars_of(text);
    let lines = split_chars(&cs, '\n');
    let ghost ls = char_views(lines@);
    let mut done: Vec<DiskutilDisk> = Vec::new();
    let mut id: Option<Vec<char>> = None;
    let mut label: Vec<char> = Vec::new();
    let mut size: Vec<char> = Vec::new();
    let mut k: usize = 0;
    assert(ls.take(0) =~= Seq::<Seq<char>>::empty());
    while k < lines.len()
        invariant
            k <= lines@.len(),
            ls == char_views(lines@),
            ls == split_on(text@, '\n'),
            ({
                let st = diskutil_run(ls.take(k as int));
                &&& done@.len() == st.0.len()
                &&& forall|i: int|
                    0 <= i < done@.len() ==> (#[trigger] done@[i]).id@ == st.0[i].0 && done@[i].label@ == st.0[i].1
                        && done@[i].size_text@ == st.0[i].2
                &&& (id is None <==> st.1 is None)
                &&& (id matches Some(d) ==> st.1 == Some(d@))
                &&& label@ == st.2
                &&& size@ == st.3
            }),
        decreases lines@.len() - k,
    {
        let ghost st = diskutil_run(ls.take(k as int));
        assert(ls.take(k + 1).drop_last() =~= ls.take(k as int));
        assert(ls.take(k + 1).last() == lines@[k as int]@);
        let t = trim_chars(&lines[k]);
        if begins_exec(&t, "/dev/disk") {
            let w = split_ws(&t);
            let new_id = if w.len() > 0 {
                assert(char_views(w@)[0] == w@[0]@);
                vstd::slice::slice_to_vec(w[0].as_slice())
            } else {
                Vec::new()
            };
            let prev = id;
            match prev {
                Some(p) => {
                    let ghost before = done@;
                    done.push(DiskutilDisk {
                        id: string_from_chars(&p),
                        label: string_from_chars(&label),
                        size_text: string_from_chars(&size),
                    });
                    label = Vec::new();
                    size = Vec::new();
                    assert forall|i: int| 0 <= i < done@.len() implies (#[trigger] done@[i]).id@
                        == st.0.push((p@, st.2, st.3))[i].0 && done@[i].label@ == st.0.push((p@, st.2, st.3))[i].1
                        && done@[i].size_text@ == st.0.push((p@, st.2, st.3))[i].2 by {
                        if i < before.len() {
                            assert(done@[i] == before[i]);
                        }
                    }
                },
                None => {},
            }
            id = Some(new_id);
        } else if begins_exec(&t, "0:") || begins_exec(&t, "1:") {
            let cols = split_ws(&t);
            if cols.len() >= 4 && label.len() == 0 {
                let zero = chars_of("0:");
                assert(char_views(cols@)[0] == cols@[0]@);
                if chars_equal(&cols[0], &zero) {
                    label = chars_of("USB Disk");
                }
                size = starred_exec(&cols);
            }
        }
        k = k + 1;
    }
    assert(ls.take(ls.len() as int) =~= ls);
    let ghost st = diskutil_run(ls);
    match id {
        Some(p) => {
            let ghost before = done@;
            done.push(DiskutilDisk {
                id: string_from_chars(&p),
                label: string_from_chars(&label),
                size_text: string_from_chars(&size),
            });
            assert forall|i: int| 0 <= i < done@.len() implies (#[trigger] done@[i]).id@ == st.0.push((p@, st.2, st.3))[i].0
                && done@[i].label@ == st.0.push((p@, st.2, st.3))[i].1 && done@[i].size_text@ == st.0.push(
                (p@, st.2, st.3),
            )[i].2 by {
                if i < before.len() {
                    assert(done@[i] == before[i]);
                }
            }
        },
        None => {},
    }
    done
}

/// The disk that Windows' `Get-Disk` reports as number `number` with a
/// friendly name (or none) and a size: a removable, non-system disk named
/// `\\.\PhysicalDrive` and its number, shown by its name or `USB Drive`.
pub fn windows_disk(number: u64, friendly_name: Option<String>, size: u64) -> (res: WritableDisk)
    ensures
        res.id@ == "\\\\.\\PhysicalDrive"@ + dec_nat(number as nat),
        res.label@ == (match friendly_name {
            Some(n) => n@,
            None => "USB Drive"@,
        }),
        res.size_bytes == size,
        res.removable,
        !res.is_system,
        res.mount_points@.len() == 0,
{
    let mut id: Vec<char> = Vec::new();
    push_str(&mut id, "\\\\.\\PhysicalDrive");
    push_dec_u64(&mut id, number);
    let label = match friendly_name {
        Some(n) => n,
        None => "USB Drive".to_string(),
    };
    WritableDisk {
        id: string_from_chars(&id),
        label,
        size_bytes: size,
        removable: true,
        is_system: false,
        mount_points: Vec::new(),
    }
}

/// The raw device of a macOS disk (`/dev/rdiskN` for `/dev/diskN`, much
/// faster to write): the first `/dev/disk` replaced by `/dev/rdisk`
/// (`str::replacen` once).
pub open spec fn raw_device(disk_id: Seq<char>) -> Seq<char> {
    if exists|i: int| first_match(disk_id, "/dev/disk"@, i) {
        let i = choose|i: int| first_match(disk_id, "/dev/disk"@, i);
        disk_id.take(i) + "/dev/rdisk"@ + disk_id.skip(i + "/dev/disk"@.len())
    } else {
        disk_id
    }
}

/// The raw device of a macOS disk, computed.
pub fn raw_device_of(disk_id: &str) -> (res: String)
    ensures
        res@ == raw_device(disk_id@),
{
    let cs = chars_of(disk_id);
    let pat = chars_of("/dev/disk");
    match crate::iso::find_first(&cs, &pat) {
        Some(i) => {
            proof {
                let k = choose|k: int| first_match(cs@, pat@, k);
                if k < i {
                    assert(!match_at(cs@, pat@, k));
                } else if k > i {
                    assert(!match_at(cs@, pat@, i as int));
                }
            }
            assert(i + pat@.len() <= cs.len());
            let mut out: Vec<char> = vstd::slice::slice_to_vec(vstd::slice::slice_subrange(cs.as_slice(), 0, i));
            assert(out@ =~= cs@.take(i as int));
            push_str(&mut out, "/dev/rdisk");
            let rest = vstd::slice::slice_to_vec(vstd::slice::slice_subrange(cs.as_slice(), i + pat.len(), cs.len()));
            assert(rest@ =~= cs@.skip(i + pat@.len()));
            let ghost before = out@;
            let mut k: usize = 0;
            while k < rest.len()
                invariant
                    k <= rest@.len(),
                    out@ == before + rest@.take(k as int),
                decreases rest@.len() - k,
            {
                out.push(rest[k]);
                k = k + 1;
                assert(out@ =~= before + rest@.take(k as int));
            }
            assert(rest@.take(rest@.len() as int) =~= rest@);
            string_from_chars(&out)
        },
        None => {
            assert(!exists|k: int| first_match(cs@, pat@, k));
            disk_id.to_string()
        },
    }
}

/// The arguments of the `dd` that writes an image to a device, reporting its
/// progress.
pub fn dd_args(image: &str, target: &str) -> (res: Vec<String>)
    ensures
        res@.len() == 4,
        res@[0]@ == "if="@ + image@,
        res@[1]@ == "of="@ + target@,
        res@[2]@ == "bs=4m"@,
        res@[3]@ == "status=progress"@,
{
    let mut input: Vec<char> = Vec::new();
    push_str(&mut input, "if=");
    push_str(&mut input, image);
    let mut output: Vec<char> = Vec::new();
    push_str(&mut output, "of=");
    push_str(&mut output, target);
    let mut args: Vec<String> = Vec::new();
    args.push(string_from_chars(&input));
    args.push(string_from_chars(&output));
    args.push("bs=4m".to_string());
    args.push("status=progress".to_string());
    args
}

} // verus!
