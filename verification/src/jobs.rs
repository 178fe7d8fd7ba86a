//! Reading the error output of a packing or unpacking child process: long
//! lines are cut, `PROGRESS` lines become progress reports, and only the
//! first 256 KiB of the other lines are kept.
use vstd::prelude::*;

use crate::cli::{parse_u64, parse_u64_spec};
use crate::primitives::{chars_of, string_from_chars};
use crate::text::{push_str, split_on};

verus! {

/// Longest line kept whole, in UTF-8 bytes.
pub const STDERR_LINE_MAX_BYTES: usize = 8192;

/// Bytes of text kept from the error output; later lines are dropped.
pub const STDERR_TOTAL_MAX_BYTES: usize = 262144;

/// A progress report of the child: bytes done, bytes in all, percent.
#[derive(Debug, Clone, Copy, PartialEq, Eq)]
pub struct PackUnpackProgress {
    pub current: u64,
    pub total: u64,
    pub percent: u32,
}

/// A line of the child's error output, read.
#[derive(Debug)]
pub enum StderrLine {
    Progress(PackUnpackProgress),
    Text(String),
}

/// The number of bytes of `c` in UTF-8.
pub open spec fn utf8_char_len(c: char) -> nat {
    if (c as u32) < 0x80 {
        1
    } else if (c as u32) < 0x800 {
        2
    } else if (c as u32) < 0x10000 {
        3
    } else {
        4
    }
}

/// The number of bytes of `s` in UTF-8.
pub open spec fn utf8_len(s: Seq<char>) -> nat
    decreases s.len(),
{
    if s.len() == 0 {
        0
    } else {
        utf8_len(s.drop_last()) + utf8_char_len(s.last())
    }
}

/// The number of leading characters of `s` that fit in `cap` UTF-8 bytes.
pub open spec fn chars_within(s: Seq<char>, cap: nat) -> nat
    decreases s.len(),
{
    if utf8_len(s) <= cap {
        s.len()
    } else {
        chars_within(s.drop_last(), cap)
    }
}

/// A line as kept: cut at the last character boundary within 8 KiB and
/// marked, when it is longer.
pub open spec fn capped_line(s: Seq<char>) -> Seq<char> {
    if utf8_len(s) > STDERR_LINE_MAX_BYTES {
        s.take(chars_within(s, STDERR_LINE_MAX_BYTES as nat) as int) + "…(truncated)"@
    } else {
        s
    }
}

/// What `str::parse::<u32>` gives.
pub open spec fn parse_u32_spec(cs: Seq<char>) -> Option<u32> {
    match parse_u64_spec(cs) {
        Some(v) => if v <= u32::MAX {
            Some(v as u32)
        } else {
            None
        },
        None => None,
    }
}

/// The progress report of a line `PROGRESS\tcurrent\ttotal\tpercent`:
/// numbers that do not parse count as 0, the percent is at most 100.
pub open spec fn progress_of(line: Seq<char>) -> Option<PackUnpackProgress> {
    let mark = "PROGRESS\t"@;
    if line.len() >= mark.len() && line.take(mark.len() as int) == mark {
        let parts = split_on(line.skip(mark.len() as int), '\t');
        if parts.len() == 3 {
            let p = match parse_u32_spec(parts[2]) {
                Some(v) => v,
                None => 0,
            };
            Some(
                PackUnpackProgress {
                    current: match parse_u64_spec(parts[0]) {
                        Some(v) => v,
                        None => 0,
                    },
                    total: match parse_u64_spec(parts[1]) {
                        Some(v) => v,
                        None => 0,
                    },
                    percent: if p > 100 {
                        100
                    } else {
                        p
                    },
                },
            )
        } else {
            None
        }
    } else {
        None
    }
}

/// The number of UTF-8 bytes of a character, computed.
fn char_utf8_len(c: char) -> (n: usize)
    ensures
        n == utf8_char_len(c),
{
    let v = c as u32;
    if v < 0x80 {
        1
    } else if v < 0x800 {
        2
    } else if v < 0x10000 {
        3
    } else {
        4
    }
}

/// `utf8_len` of a prefix grows with the prefix.
proof fn lemma_utf8_len_take(s: Seq<char>, k: int)
    requires
        0 <= k <= s.len(),
    ensures
        utf8_len(s.take(k)) <= utf8_len(s),
    decreases s.len() - k,
{
    if k < s.len() {
        assert(s.drop_last().take(k) =~= s.take(k));
        lemma_utf8_len_take(s.drop_last(), k);
    } else {
        assert(s.take(k) =~= s);
    }
}

/// `chars_within` counts the longest prefix that fits.
proof fn lemma_chars_within(s: Seq<char>, cap: nat, k: int)
    requires
        0 <= k <= s.len(),
        utf8_len(s.take(k)) <= cap,
        k == s.len() || utf8_len(s.take(k + 1)) > cap,
    ensures
        chars_within(s, cap) == k,
    decreases s.len() - k,
{
    if k < s.len() {
        lemma_utf8_len_take(s, k + 1);
        assert(s.drop_last().take(k) =~= s.take(k));
        if k + 1 <= s.len() - 1 {
            assert(s.drop_last().take(k + 1) =~= s.take(k + 1));
        } else {
            assert(s.drop_last() =~= s.take(k));
        }
        lemma_chars_within(s.drop_last(), cap, k);
    } else {
        assert(s.take(k) =~= s);
    }
}

/// Cuts a line longer than 8 KiB at the last character boundary within
/// 8 KiB and marks it.
pub fn cap_line(line: &str) -> (res: String)
    ensures
        res@ == capped_line(line@),
{
    let cs = chars_of(line);
    let mut k: usize = 0;
    let mut bytes: usize = 0;
    while k < cs.len()
        invariant
            k <= cs@.len(),
            cs@ == line@,
            bytes == utf8_len(cs@.take(k as int)),
            bytes <= STDERR_LINE_MAX_BYTES,
        ensures
            k <= cs@.len(),
            bytes == utf8_len(cs@.take(k as int)),
            bytes <= STDERR_LINE_MAX_BYTES,
            k < cs@.len() ==> utf8_len(cs@.take(k + 1)) > STDERR_LINE_MAX_BYTES,
        decreases cs@.len() - k,
    {
        let w = char_utf8_len(cs[k]);
        assert(cs@.take(k + 1).drop_last() =~= cs@.take(k as int));
        if bytes + w > STDERR_LINE_MAX_BYTES {
            break;
        }
        bytes = bytes + w;
        k = k + 1;
    }
    proof {
        lemma_chars_within(cs@, STDERR_LINE_MAX_BYTES as nat, k as int);
    }
    if k == cs.len() {
        assert(cs@.take(k as int) =~= cs@);
        return string_from_chars(&cs);
    }
    proof {
        lemma_utf8_len_take(cs@, k + 1);
    }
    let mut out: Vec<char> = Vec::new();
    let mut i: usize = 0;
    while i < k
        invariant
            i <= k <= cs@.len(),
            out@ == cs@.take(i as int),
        decreases k - i,
    {
        out.push(cs[i]);
        i = i + 1;
        assert(out@ =~= cs@.take(i as int));
    }
    push_str(&mut out, "…(truncated)");
    string_from_chars(&out)
}

/// Reads one line of the child's error output: a `PROGRESS` line with three
/// tab-separated fields is a progress report; any other line is kept as
/// text. Long lines are cut first.
pub fn read_stderr_line(line: &str) -> (res: StderrLine)
    ensures
        ({
            let l = capped_line(line@);
            match progress_of(l) {
                Some(p) => res == StderrLine::Progress(p),
                None => res matches StderrLine::Text(t) && t@ == l,
            }
        }),
{
    let capped = cap_line(line);
    let cs = chars_of(capped.as_str());
    let ghost l = cs@;
    let mark = chars_of("PROGRESS\t");
    let mut starts = cs.len() >= mark.len();
    let mut i: usize = 0;
    while starts && i < mark.len()
        invariant
            i <= mark@.len(),
            starts ==> cs@.len() >= mark@.len(),
            starts ==> forall|j: int| 0 <= j < i ==> cs@[j] == mark@[j],
            !starts ==> !(cs@.len() >= mark@.len() && cs@.take(mark@.len() as int) == mark@),
        decreases mark@.len() - i + (if starts {
            1int
        } else {
            0int
        }),
    {
        if cs[i] != mark[i] {
            assert(cs@.take(mark@.len() as int)[i as int] != mark@[i as int]);
            starts = false;
        } else {
            i = i + 1;
        }
    }
    if starts {
        assert(cs@.take(mark@.len() as int) =~= mark@);
    }
    if !starts {
        return StderrLine::Text(capped);
    }
    let mut rest: Vec<char> = Vec::new();
    let mut j: usize = mark.len();
    while j < cs.len()
        invariant
            mark@.len() <= j <= cs@.len(),
            rest@ == cs@.subrange(mark@.len() as int, j as int),
        decreases cs@.len() - j,
    {
        rest.push(cs[j]);
        j = j + 1;
        assert(rest@ =~= cs@.subrange(mark@.len() as int, j as int));
    }
    assert(rest@ =~= cs@.skip(mark@.len() as int));
    let parts = crate::text::split_chars(&rest, '\t');
    if parts.len() != 3 {
        assert(crate::text::char_views(parts@).len() == parts@.len());
        return StderrLine::Text(capped);
    }
    assert(crate::text::char_views(parts@)[0] == parts@[0]@);
    assert(crate::text::char_views(parts@)[1] == parts@[1]@);
    assert(crate::text::char_views(parts@)[2] == parts@[2]@);
    let current = match parse_u64(&parts[0], 0) {
        Some(v) => v,
        None => 0,
    };
    let total = match parse_u64(&parts[1], 0) {
        Some(v) => v,
        None => 0,
    };
    let p: u32 = match parse_u64(&parts[2], 0) {
        Some(v) => if v <= 4294967295 {
            v as u32
        } else {
            0
        },
        None => 0,
    };
    proof {
        assert(parts@[0]@.subrange(0, parts@[0]@.len() as int) =~= parts@[0]@);
        assert(parts@[1]@.subrange(0, parts@[1]@.len() as int) =~= parts@[1]@);
        assert(parts@[2]@.subrange(0, parts@[2]@.len() as int) =~= parts@[2]@);
    }
    let percent = if p > 100 {
        100
    } else {
        p
    };
    StderrLine::Progress(PackUnpackProgress { current, total, percent })
}

/// The error output kept so far with one more text line: the line and a
/// newline are added while less than 256 KiB is kept.
pub open spec fn kept_after(collected: Seq<char>, line: Seq<char>) -> Seq<char> {
    if utf8_len(collected) < STDERR_TOTAL_MAX_BYTES {
        collected + line + seq!['\n']
    } else {
        collected
    }
}

/// The UTF-8 length of `s`, computed up to 256 KiB.
fn utf8_len_exec(s: &Vec<char>) -> (res: usize)
    ensures
        res == (if utf8_len(s@) < STDERR_TOTAL_MAX_BYTES {
            utf8_len(s@)
        } else {
            STDERR_TOTAL_MAX_BYTES as nat
        }),
{
    let mut n: usize = 0;
    let mut i: usize = 0;
    while i < s.len()
        invariant
            i <= s@.len(),
            n == utf8_len(s@.take(i as int)),
            n < STDERR_TOTAL_MAX_BYTES,
        decreases s@.len() - i,
    {
        assert(s@.take(i + 1).drop_last() =~= s@.take(i as int));
        let w = char_utf8_len(s[i]);
        if n + w >= STDERR_TOTAL_MAX_BYTES {
            proof {
                lemma_utf8_len_take(s@, i + 1);
            }
            return STDERR_TOTAL_MAX_BYTES;
        }
        n = n + w;
        i = i + 1;
    }
    assert(s@.take(i as int) =~= s@);
    n
}

/// Adds a text line to the error output kept so far, while less than
/// 256 KiB is kept.
pub fn keep_stderr_line(collected: &mut String, line: &str)
    ensures
        final(collected)@ == kept_after(old(collected)@, line@),
{
    let cs = chars_of(collected.as_str());
    if utf8_len_exec(&cs) < STDERR_TOTAL_MAX_BYTES {
        let mut out = cs;
        push_str(&mut out, line);
        out.push('\n');
        *collected = string_from_chars(&out);
    }
}

} // verus!
