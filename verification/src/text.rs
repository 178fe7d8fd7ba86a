//! Text helpers over character sequences: whitespace trimming, splitting on
//! a separator, decimal and hexadecimal digits.
use vstd::prelude::*;

verus! {

/// Unicode `White_Space`, the set that `char::is_whitespace` tests.
pub open spec fn is_ws(c: char) -> bool {
    ||| ('\t' <= c && c <= '\r')
    ||| c == ' '
    ||| c == '\u{85}'
    ||| c == '\u{A0}'
    ||| c == '\u{1680}'
    ||| ('\u{2000}' <= c && c <= '\u{200A}')
    ||| c == '\u{2028}'
    ||| c == '\u{2029}'
    ||| c == '\u{202F}'
    ||| c == '\u{205F}'
    ||| c == '\u{3000}'
}

/// Whether a character is Unicode whitespace.
pub fn is_whitespace(c: char) -> (res: bool)
    ensures
        res == is_ws(c),
{
    ('\t' <= c && c <= '\r') || c == ' ' || c == '\u{85}' || c == '\u{A0}' || c == '\u{1680}' || ('\u{2000}' <= c
        && c <= '\u{200A}') || c == '\u{2028}' || c == '\u{2029}' || c == '\u{202F}' || c == '\u{205F}' || c
        == '\u{3000}'
}

/// `s` without leading whitespace.
pub open spec fn trim_start(s: Seq<char>) -> Seq<char>
    decreases s.len(),
{
    if s.len() > 0 && is_ws(s[0]) {
        trim_start(s.drop_first())
    } else {
        s
    }
}

/// `s` without trailing whitespace.
pub open spec fn trim_end(s: Seq<char>) -> Seq<char>
    decreases s.len(),
{
    if s.len() > 0 && is_ws(s.last()) {
        trim_end(s.drop_last())
    } else {
        s
    }
}

/// `s` without leading and trailing whitespace (`str::trim`).
pub open spec fn trim(s: Seq<char>) -> Seq<char> {
    trim_end(trim_start(s))
}

/// `trim_start(s)` is the suffix of `s` from the first non-whitespace character.
proof fn lemma_trim_start_skip(s: Seq<char>, i: int)
    requires
        0 <= i <= s.len(),
        forall|j: int| 0 <= j < i ==> is_ws(#[trigger] s[j]),
    ensures
        trim_start(s) == trim_start(s.subrange(i, s.len() as int)),
    decreases i,
{
    if i > 0 {
        assert(s.drop_first().subrange(i - 1, s.drop_first().len() as int) =~= s.subrange(i, s.len() as int));
        lemma_trim_start_skip(s.drop_first(), i - 1);
    } else {
        assert(s.subrange(0, s.len() as int) =~= s);
    }
}

/// `trim_end(s)` is the prefix of `s` up to the last non-whitespace character.
proof fn lemma_trim_end_take(s: Seq<char>, k: int)
    requires
        0 <= k <= s.len(),
        forall|j: int| k <= j < s.len() ==> is_ws(#[trigger] s[j]),
    ensures
        trim_end(s) == trim_end(s.subrange(0, k)),
    decreases s.len() - k,
{
    if k < s.len() {
        assert(s.drop_last().subrange(0, k) =~= s.subrange(0, k));
        lemma_trim_end_take(s.drop_last(), k);
    } else {
        assert(s.subrange(0, k) =~= s);
    }
}

/// Removes leading and trailing whitespace.
pub fn trim_chars(s: &Vec<char>) -> (res: Vec<char>)
    ensures
        res@ == trim(s@),
{
    let n = s.len();
    let mut i: usize = 0;
    while i < n && is_whitespace(s[i])
        invariant
            i <= n,
            n == s@.len(),
            forall|j: int| 0 <= j < i ==> is_ws(#[trigger] s@[j]),
        decreases n - i,
    {
        i = i + 1;
    }
    proof {
        lemma_trim_start_skip(s@, i as int);
    }
    let ghost rest = s@.subrange(i as int, n as int);
    assert(i < n ==> !is_ws(rest[0]));
    let mut k: usize = n;
    while k > i && is_whitespace(s[k - 1])
        invariant
            i <= k <= n,
            n == s@.len(),
            forall|j: int| k <= j < n ==> is_ws(#[trigger] s@[j]),
        decreases k,
    {
        k = k - 1;
    }
    let mut out: Vec<char> = Vec::new();
    let mut p: usize = i;
    while p < k
        invariant
            i <= p <= k <= n,
            n == s@.len(),
            out@ == s@.subrange(i as int, p as int),
        decreases k - p,
    {
        out.push(s[p]);
        p = p + 1;
    }
    proof {
        assert(trim_start(rest) == rest);
        lemma_trim_end_take(rest, k - i);
        assert(rest.subrange(0, k - i) =~= s@.subrange(i as int, k as int));
        let t = s@.subrange(i as int, k as int);
        assert(t.len() > 0 ==> !is_ws(t.last()));
    }
    out
}

/// The pieces of `s` between occurrences of `sep` (`str::split`): one more
/// piece than there are separators.
pub open spec fn split_on(s: Seq<char>, sep: char) -> Seq<Seq<char>>
    decreases s.len(),
{
    if s.len() == 0 {
        seq![Seq::empty()]
    } else {
        let init = split_on(s.drop_last(), sep);
        if s.last() == sep {
            init.push(Seq::empty())
        } else {
            init.update(init.len() - 1, init.last().push(s.last()))
        }
    }
}

/// `split_on` gives at least one piece.
pub proof fn lemma_split_nonempty(s: Seq<char>, sep: char)
    ensures
        split_on(s, sep).len() >= 1,
    decreases s.len(),
{
    if s.len() > 0 {
        lemma_split_nonempty(s.drop_last(), sep);
    }
}

/// The character sequences of a vector of character vectors.
pub open spec fn char_views(v: Seq<Vec<char>>) -> Seq<Seq<char>> {
    Seq::new(v.len(), |i: int| v[i]@)
}

/// Splits `s` on `sep`.
pub fn split_chars(s: &Vec<char>, sep: char) -> (res: Vec<Vec<char>>)
    ensures
        char_views(res@) == split_on(s@, sep),
{
    let mut pieces: Vec<Vec<char>> = Vec::new();
    let mut cur: Vec<char> = Vec::new();
    let mut i: usize = 0;
    assert(s@.subrange(0, 0) =~= Seq::<char>::empty());
    assert(char_views(pieces@).push(cur@) =~= seq![Seq::<char>::empty()]);
    while i < s.len()
        invariant
            i <= s@.len(),
            split_on(s@.subrange(0, i as int), sep) == char_views(pieces@).push(cur@),
        decreases s@.len() - i,
    {
        let c = s[i];
        proof {
            assert(s@.subrange(0, i + 1).drop_last() =~= s@.subrange(0, i as int));
            lemma_split_nonempty(s@.subrange(0, i as int), sep);
        }
        if c == sep {
            let ghost old_pieces = char_views(pieces@);
            let done = cur;
            pieces.push(done);
            cur = Vec::new();
            assert(char_views(pieces@) =~= old_pieces.push(done@));
            assert(split_on(s@.subrange(0, i + 1), sep) =~= char_views(pieces@).push(cur@));
        } else {
            cur.push(c);
            assert(split_on(s@.subrange(0, i + 1), sep) =~= char_views(pieces@).push(cur@));
        }
        i = i + 1;
    }
    assert(s@.subrange(0, s@.len() as int) =~= s@);
    let ghost old_pieces = char_views(pieces@);
    pieces.push(cur);
    assert(char_views(pieces@) =~= old_pieces.push(cur@));
    pieces
}

/// The upper-case form of a text that `str::to_uppercase` gives (Unicode
/// upper case).
pub uninterp spec fn uppercase(s: Seq<char>) -> Seq<char>;

/// The text in upper case (`str::to_uppercase`); the result depends on the
/// text alone.
#[verifier::external_body]
pub(crate) fn to_uppercase(s: &str) -> (res: String)
    ensures
        res@ == uppercase(s@),
{
    s.to_uppercase()
}

/// The value of a digit in `radix` (at most 36), ASCII letters in either case.
pub open spec fn digit_value(c: char, radix: nat) -> Option<nat> {
    let v: int = if '0' <= c && c <= '9' {
        c as int - '0' as int
    } else if 'a' <= c && c <= 'z' {
        c as int - 'a' as int + 10
    } else if 'A' <= c && c <= 'Z' {
        c as int - 'A' as int + 10
    } else {
        99
    };
    if v < radix {
        Some(v as nat)
    } else {
        None
    }
}

/// The value of a digit string in `radix`; `None` when a character is not a digit.
pub open spec fn digits_value(cs: Seq<char>, radix: nat) -> Option<nat>
    decreases cs.len(),
{
    if cs.len() == 0 {
        Some(0)
    } else {
        match (digits_value(cs.drop_last(), radix), digit_value(cs.last(), radix)) {
            (Some(v), Some(d)) => Some(v * radix + d),
            _ => None,
        }
    }
}

/// What `u8::from_str_radix` gives: an optional leading `+` (not alone), then
/// at least one digit, with a value of at most 255.
pub open spec fn parse_u8_spec(cs: Seq<char>, radix: nat) -> Option<u8> {
    let ds = if cs.len() >= 2 && cs[0] == '+' {
        cs.drop_first()
    } else {
        cs
    };
    if ds.len() == 0 {
        None
    } else {
        match digits_value(ds, radix) {
            Some(v) => if v <= 255 {
                Some(v as u8)
            } else {
                None
            },
            None => None,
        }
    }
}

/// The value of a digit in `radix`, computed.
fn digit_of(c: char, radix: u32) -> (res: Option<u32>)
    requires
        2 <= radix <= 36,
    ensures
        match digit_value(c, radix as nat) {
            Some(v) => res == Some(v as u32),
            None => res is None,
        },
{
    let v: u32 = if '0' <= c && c <= '9' {
        (c as u32) - ('0' as u32)
    } else if 'a' <= c && c <= 'z' {
        (c as u32) - ('a' as u32) + 10
    } else if 'A' <= c && c <= 'Z' {
        (c as u32) - ('A' as u32) + 10
    } else {
        99
    };
    if v < radix {
        Some(v)
    } else {
        None
    }
}

/// Parses a `u8` in `radix` (`u8::from_str_radix`, and `str::parse::<u8>` for 10).
pub fn parse_u8(cs: &Vec<char>, radix: u32) -> (res: Option<u8>)
    requires
        2 <= radix <= 36,
    ensures
        res == parse_u8_spec(cs@, radix as nat),
{
    let start: usize = if cs.len() >= 2 && cs[0] == '+' {
        1
    } else {
        0
    };
    let ghost ds = if cs@.len() >= 2 && cs@[0] == '+' {
        cs@.drop_first()
    } else {
        cs@
    };
    assert(ds =~= cs@.subrange(start as int, cs@.len() as int));
    if start == cs.len() {
        return None;
    }
    let mut acc: u32 = 0;
    let mut i: usize = start;
    assert(ds.subrange(0, 0) =~= Seq::<char>::empty());
    while i < cs.len()
        invariant
            start <= i <= cs@.len(),
            2 <= radix <= 36,
            ds == cs@.subrange(start as int, cs@.len() as int),
            ds == (if cs@.len() >= 2 && cs@[0] == '+' { cs@.drop_first() } else { cs@ }),
            digits_value(ds.subrange(0, i - start), radix as nat) is Some,
            acc as nat == if digits_value(ds.subrange(0, i - start), radix as nat)->0 > 256 {
                256
            } else {
                digits_value(ds.subrange(0, i - start), radix as nat)->0
            },
        decreases cs@.len() - i,
    {
        let d = match digit_of(cs[i], radix) {
            Some(d) => d,
            None => {
                proof {
                    assert(ds[(i - start) as int] == cs@[i as int]);
                    lemma_digits_invalid(ds, (i - start) as int, radix as nat);
                }
                return None;
            },
        };
        proof {
            let pre = ds.subrange(0, i - start);
            let nxt = ds.subrange(0, i - start + 1);
            assert(nxt.drop_last() =~= pre);
            let v = digits_value(pre, radix as nat)->0;
            assert(v * radix + d >= v) by (nonlinear_arith)
                requires
                    radix >= 2,
                    d >= 0,
                    v >= 0,
            ;
            if v > 256 {
                assert(v * radix >= 256 * radix) by (nonlinear_arith)
                    requires
                        v > 256,
                        radix >= 2,
                ;
            }
            if v <= 256 {
                assert(v * radix <= 256 * 36) by (nonlinear_arith)
                    requires
                        v <= 256,
                        radix <= 36,
                ;
            }
        }
        let next: u32 = acc * radix + d;
        acc = if next > 256 {
            256
        } else {
            next
        };
        i = i + 1;
    }
    assert(ds.subrange(0, cs@.len() - start) =~= ds);
    if acc <= 255 {
        Some(acc as u8)
    } else {
        None
    }
}

/// A digit string with a non-digit in its first `k + 1` characters has no value.
proof fn lemma_digits_invalid(ds: Seq<char>, k: int, radix: nat)
    requires
        0 <= k < ds.len(),
        digit_value(ds[k], radix) is None,
    ensures
        digits_value(ds, radix) is None,
    decreases ds.len(),
{
    if ds.len() - 1 > k {
        assert(ds.drop_last()[k] == ds[k]);
        lemma_digits_invalid(ds.drop_last(), k, radix);
    }
}

/// The lowercase hexadecimal digit of `v` (below 16).
pub open spec fn hex_digit(v: int) -> char {
    if v < 10 {
        (48 + v) as char
    } else {
        (87 + v) as char
    }
}

/// The lowercase hexadecimal text of a byte sequence, two digits per byte.
pub open spec fn hex_chars(s: Seq<u8>) -> Seq<char> {
    Seq::new(
        2 * s.len(),
        |k: int|
            if k % 2 == 0 {
                hex_digit((s[k / 2] / 16) as int)
            } else {
                hex_digit((s[k / 2] % 16) as int)
            },
    )
}

/// The hex digit of a value below 16, computed.
fn hex_digit_of(v: u8) -> (c: char)
    requires
        v < 16,
    ensures
        c == hex_digit(v as int),
{
    if v < 10 {
        ((48 + v) as u8) as char
    } else {
        ((87 + v) as u8) as char
    }
}

/// Appends the hexadecimal text of `data` (`hex::encode`).
pub fn push_hex(out: &mut Vec<char>, data: &[u8])
    ensures
        final(out)@ == old(out)@ + hex_chars(data@),
{
    let ghost start = out@;
    let mut i: usize = 0;
    while i < data.len()
        invariant
            i <= data@.len(),
            out@ == start + hex_chars(data@.subrange(0, i as int)),
        decreases data@.len() - i,
    {
        let b = data[i];
        let ghost prev = out@;
        out.push(hex_digit_of(b / 16));
        out.push(hex_digit_of(b % 16));
        assert(hex_chars(data@.subrange(0, i + 1)) =~= hex_chars(data@.subrange(0, i as int)).push(
            hex_digit((b / 16) as int),
        ).push(hex_digit((b % 16) as int)));
        i = i + 1;
    }
    assert(data@.subrange(0, data@.len() as int) =~= data@);
}

/// The bytes of a hexadecimal text: an even number of hex digits in either case.
pub open spec fn hex_decode_spec(cs: Seq<char>) -> Option<Seq<u8>> {
    if cs.len() % 2 != 0 || exists|k: int| 0 <= k < cs.len() && digit_value(#[trigger] cs[k], 16) is None {
        None
    } else {
        Some(
            Seq::new(
                cs.len() / 2,
                |i: int| (digit_value(cs[2 * i], 16)->0 * 16 + digit_value(cs[2 * i + 1], 16)->0) as u8,
            ),
        )
    }
}

/// Decodes hexadecimal text as `hex::decode` does: it fails on an odd number
/// of digits or a character that is not a hex digit, and the error text is
/// the crate's.
pub fn hex_decode(cs: &Vec<char>) -> (res: Result<Vec<u8>, String>)
    ensures
        res is Ok <==> hex_decode_spec(cs@) is Some,
        res matches Ok(v) ==> Some(v@) == hex_decode_spec(cs@),
{
    if cs.len() % 2 != 0 {
        return Err(hex_error_text(&crate::primitives::string_from_chars(cs)));
    }
    let mut out: Vec<u8> = Vec::new();
    let mut i: usize = 0;
    while i < cs.len()
        invariant
            i <= cs@.len(),
            cs@.len() % 2 == 0,
            i % 2 == 0,
            out@.len() == i / 2,
            forall|k: int| 0 <= k < i ==> digit_value(#[trigger] cs@[k], 16) is Some,
            forall|j: int|
                0 <= j < i / 2 ==> #[trigger] out@[j] == (digit_value(cs@[2 * j], 16)->0 * 16 + digit_value(
                    cs@[2 * j + 1],
                    16,
                )->0) as u8,
        decreases cs@.len() - i,
    {
        let hi = match digit_of(cs[i], 16) {
            Some(d) => d,
            None => return Err(hex_error_text(&crate::primitives::string_from_chars(cs))),
        };
        let lo = match digit_of(cs[i + 1], 16) {
            Some(d) => d,
            None => return Err(hex_error_text(&crate::primitives::string_from_chars(cs))),
        };
        out.push((hi * 16 + lo) as u8);
        i = i + 2;
    }
    assert(out@ =~= hex_decode_spec(cs@)->0);
    Ok(out)
}

/// The message of the error that `hex::decode` gives for `text` (empty when
/// it gives none). Nothing is claimed of the text.
#[verifier::external_body]
fn hex_error_text(text: &String) -> String {
    match hex::decode(text.as_str()) {
        Err(e) => e.to_string(),
        Ok(_) => String::new(),
    }
}

/// The decimal digits of a byte value, without leading zeros.
pub open spec fn dec_chars(v: u8) -> Seq<char> {
    if v < 10 {
        seq![hex_digit(v as int)]
    } else if v < 100 {
        seq![hex_digit((v / 10) as int), hex_digit((v % 10) as int)]
    } else {
        seq![hex_digit((v / 100) as int), hex_digit(((v / 10) % 10) as int), hex_digit((v % 10) as int)]
    }
}

/// Appends the decimal digits of `v`.
pub fn push_dec(out: &mut Vec<char>, v: u8)
    ensures
        final(out)@ == old(out)@ + dec_chars(v),
{
    if v >= 100 {
        out.push(hex_digit_of(v / 100));
    }
    if v >= 10 {
        out.push(hex_digit_of((v / 10) % 10));
    }
    out.push(hex_digit_of(v % 10));
    assert(final(out)@ =~= old(out)@ + dec_chars(v));
}

/// Appends the characters of a string slice.
pub fn push_str(out: &mut Vec<char>, s: &str)
    ensures
        final(out)@ == old(out)@ + s@,
{
    let cs = crate::primitives::chars_of(s);
    let ghost start = out@;
    let mut i: usize = 0;
    while i < cs.len()
        invariant
            i <= cs@.len(),
            cs@ == s@,
            out@ == start + cs@.subrange(0, i as int),
        decreases cs@.len() - i,
    {
        out.push(cs[i]);
        i = i + 1;
        assert(out@ =~= start + cs@.subrange(0, i as int));
    }
    assert(cs@.subrange(0, cs@.len() as int) =~= cs@);
}

/// The decimal digits of a natural number, without leading zeros.
pub open spec fn dec_nat(n: nat) -> Seq<char>
    decreases n,
{
    if n < 10 {
        seq![hex_digit(n as int)]
    } else {
        dec_nat(n / 10).push(hex_digit((n % 10) as int))
    }
}

/// Appends the decimal digits of `n`.
pub fn push_dec_usize(out: &mut Vec<char>, n: usize)
    ensures
        final(out)@ == old(out)@ + dec_nat(n as nat),
    decreases n,
{
    if n >= 10 {
        push_dec_usize(out, n / 10);
    }
    out.push(hex_digit_of((n % 10) as u8));
    assert(final(out)@ =~= old(out)@ + dec_nat(n as nat));
}

/// Appends the decimal digits of a 64-bit `n`.
pub fn push_dec_u64(out: &mut Vec<char>, n: u64)
    ensures
        final(out)@ == old(out)@ + dec_nat(n as nat),
    decreases n,
{
    if n >= 10 {
        push_dec_u64(out, n / 10);
    }
    out.push(hex_digit_of((n % 10) as u8));
    assert(final(out)@ =~= old(out)@ + dec_nat(n as nat));
}

/// `n` spaces.
pub open spec fn spaces(n: int) -> Seq<char> {
    Seq::new(if n > 0 { n as nat } else { 0 }, |i: int| ' ')
}

/// Appends `n` spaces.
pub fn push_spaces(out: &mut Vec<char>, n: usize)
    ensures
        final(out)@ == old(out)@ + spaces(n as int),
{
    let ghost start = out@;
    let mut i: usize = 0;
    while i < n
        invariant
            i <= n,
            out@ == start + spaces(i as int),
        decreases n - i,
    {
        out.push(' ');
        i = i + 1;
        assert(out@ =~= start + spaces(i as int));
    }
}

/// Splitting text joined by a separator gives the pieces of both sides.
pub proof fn lemma_split_join(a: Seq<char>, b: Seq<char>, sep: char)
    ensures
        split_on(a + seq![sep] + b, sep) == split_on(a, sep) + split_on(b, sep),
    decreases b.len(),
{
    let s = a + seq![sep] + b;
    if b.len() == 0 {
        assert(s =~= a.push(sep));
        assert(s.drop_last() =~= a);
        assert(split_on(b, sep) =~= seq![Seq::<char>::empty()]);
        assert(split_on(a, sep).push(Seq::<char>::empty()) =~= split_on(a, sep) + split_on(b, sep));
    } else {
        assert(s.drop_last() =~= a + seq![sep] + b.drop_last());
        assert(s.last() == b.last());
        lemma_split_join(a, b.drop_last(), sep);
        lemma_split_nonempty(b.drop_last(), sep);
        let left = split_on(a, sep);
        let right = split_on(b.drop_last(), sep);
        if b.last() == sep {
            assert((left + right).push(Seq::<char>::empty()) =~= left + right.push(Seq::<char>::empty()));
        } else {
            let joined = left + right;
            assert(joined.last() == right.last());
            assert(joined.update(joined.len() - 1, joined.last().push(b.last())) =~= left + right.update(
                right.len() - 1,
                right.last().push(b.last()),
            ));
        }
    }
}

/// Text without the separator is a single piece.
pub proof fn lemma_split_free(x: Seq<char>, sep: char)
    requires
        forall|i: int| 0 <= i < x.len() ==> x[i] != sep,
    ensures
        split_on(x, sep) == seq![x],
    decreases x.len(),
{
    if x.len() == 0 {
        assert(x =~= Seq::<char>::empty());
    } else {
        lemma_split_free(x.drop_last(), sep);
        assert(x.last() == x[x.len() - 1]);
        assert(x.drop_last().push(x.last()) =~= x);
        assert(seq![x.drop_last()].update(0, x) =~= seq![x]);
    }
}

/// The digit of `v` reads back as `v`.
pub proof fn lemma_digit_value_hex_digit(v: int, radix: nat)
    requires
        0 <= v < radix,
        radix <= 16,
    ensures
        digit_value(hex_digit(v), radix) == Some(v as nat),
{
}

/// The value of one digit followed by more digits.
proof fn lemma_digits_push(cs: Seq<char>, c: char, radix: nat, v: nat, d: nat)
    requires
        digits_value(cs, radix) == Some(v),
        digit_value(c, radix) == Some(d),
    ensures
        digits_value(cs.push(c), radix) == Some(v * radix + d),
{
    assert(cs.push(c).drop_last() =~= cs);
}

/// The decimal digits of a byte value parse back to it.
pub proof fn lemma_parse_dec_chars(v: u8)
    ensures
        parse_u8_spec(dec_chars(v), 10) == Some(v),
{
    let e = Seq::<char>::empty();
    assert(digits_value(e, 10) == Some(0nat));
    if v < 10 {
        lemma_digit_value_hex_digit(v as int, 10);
        lemma_digits_push(e, hex_digit(v as int), 10, 0, v as nat);
        assert(e.push(hex_digit(v as int)) =~= dec_chars(v));
    } else if v < 100 {
        let h = (v / 10) as nat;
        let l = (v % 10) as nat;
        lemma_digit_value_hex_digit(h as int, 10);
        lemma_digit_value_hex_digit(l as int, 10);
        lemma_digits_push(e, hex_digit(h as int), 10, 0, h);
        lemma_digits_push(e.push(hex_digit(h as int)), hex_digit(l as int), 10, h, l);
        assert(e.push(hex_digit(h as int)).push(hex_digit(l as int)) =~= dec_chars(v));
        assert(h * 10 + l == v) by (nonlinear_arith)
            requires
                h == v / 10,
                l == v % 10,
        ;
    } else {
        let h = (v / 100) as nat;
        let m = ((v / 10) % 10) as nat;
        let l = (v % 10) as nat;
        lemma_digit_value_hex_digit(h as int, 10);
        lemma_digit_value_hex_digit(m as int, 10);
        lemma_digit_value_hex_digit(l as int, 10);
        lemma_digits_push(e, hex_digit(h as int), 10, 0, h);
        lemma_digits_push(e.push(hex_digit(h as int)), hex_digit(m as int), 10, h, m);
        lemma_digits_push(e.push(hex_digit(h as int)).push(hex_digit(m as int)), hex_digit(l as int), 10, h * 10 + m, l);
        assert(e.push(hex_digit(h as int)).push(hex_digit(m as int)).push(hex_digit(l as int)) =~= dec_chars(v));
        assert((h * 10 + m) * 10 + l == v) by (nonlinear_arith)
            requires
                h == v / 100,
                m == (v / 10) % 10,
                l == v % 10,
                v < 256,
        ;
    }
}

/// The two hex digits of a byte parse back to it.
pub proof fn lemma_parse_hex_byte(b: u8)
    ensures
        parse_u8_spec(hex_chars(seq![b]), 16) == Some(b),
{
    let e = Seq::<char>::empty();
    let h = (b / 16) as nat;
    let l = (b % 16) as nat;
    assert(digits_value(e, 16) == Some(0nat));
    lemma_digit_value_hex_digit(h as int, 16);
    lemma_digit_value_hex_digit(l as int, 16);
    lemma_digits_push(e, hex_digit(h as int), 16, 0, h);
    lemma_digits_push(e.push(hex_digit(h as int)), hex_digit(l as int), 16, h, l);
    assert(e.push(hex_digit(h as int)).push(hex_digit(l as int)) =~= hex_chars(seq![b]));
    assert(h * 16 + l == b) by (nonlinear_arith)
        requires
            h == b / 16,
            l == b % 16,
    ;
}

/// Hex text decodes back to its bytes.
pub proof fn lemma_hex_roundtrip(data: Seq<u8>)
    ensures
        hex_decode_spec(hex_chars(data)) == Some(data),
{
    let cs = hex_chars(data);
    assert forall|k: int| 0 <= k < cs.len() implies digit_value(#[trigger] cs[k], 16) is Some by {
        if k % 2 == 0 {
            lemma_digit_value_hex_digit((data[k / 2] / 16) as int, 16);
        } else {
            lemma_digit_value_hex_digit((data[k / 2] % 16) as int, 16);
        }
    }
    let dec = hex_decode_spec(cs)->0;
    assert forall|i: int| 0 <= i < data.len() implies dec[i] == data[i] by {
        assert((2 * i) % 2 == 0 && (2 * i) / 2 == i);
        assert((2 * i + 1) % 2 == 1 && (2 * i + 1) / 2 == i);
        lemma_digit_value_hex_digit((data[i] / 16) as int, 16);
        lemma_digit_value_hex_digit((data[i] % 16) as int, 16);
        assert((data[i] / 16) * 16 + data[i] % 16 == data[i]);
    }
    assert(dec =~= data);
}

/// The digits of a byte value are ASCII digits.
pub proof fn lemma_dec_chars_digits(v: u8)
    ensures
        forall|i: int| 0 <= i < dec_chars(v).len() ==> '0' <= #[trigger] dec_chars(v)[i] <= '9',
{
}

/// A hex digit is neither whitespace nor a newline.
pub proof fn lemma_hex_digit_plain(v: int)
    requires
        0 <= v < 16,
    ensures
        !is_ws(hex_digit(v)),
        hex_digit(v) != '\n',
{
}

/// Whether two character vectors are equal.
pub fn chars_equal(a: &Vec<char>, b: &Vec<char>) -> (res: bool)
    ensures
        res <==> a@ == b@,
{
    if a.len() != b.len() {
        return false;
    }
    let mut i: usize = 0;
    while i < a.len()
        invariant
            i <= a@.len(),
            a@.len() == b@.len(),
            forall|j: int| 0 <= j < i ==> a@[j] == b@[j],
        decreases a@.len() - i,
    {
        if a[i] != b[i] {
            return false;
        }
        i = i + 1;
    }
    assert(a@ =~= b@);
    true
}

} // verus!
