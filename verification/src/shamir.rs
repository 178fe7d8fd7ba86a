//! M-of-N Shamir secret sharing of a key over GF(256), and the text form of
//! a share: `qs1-M-N-XX-HEXDATA`.
use vstd::prelude::*;

use crate::error::ShamirError;
use crate::primitives::{chars_of, string_from_chars};
use crate::text::{
    char_views, dec_chars, hex_chars, hex_decode, hex_decode_spec, hex_digit, is_ws, lemma_dec_chars_digits,
    lemma_hex_digit_plain, lemma_hex_roundtrip, lemma_parse_dec_chars, lemma_parse_hex_byte, lemma_split_free,
    lemma_split_join, parse_u8, parse_u8_spec, push_dec, push_hex, push_str, split_chars, split_on, trim, trim_chars,
    trim_end, trim_start,
};

verus! {

/// Fewest shares a secret can be split into (and the smallest threshold).
pub const MIN_SHARES: u8 = 2;

/// Most shares a secret can be split into.
pub const MAX_SHARES: u8 = 255;

/// One share, with the threshold and total of its set and its 1-based index.
/// `data` is the share as the `sharks` crate encodes it: its x coordinate,
/// then one y value per secret byte.
#[derive(Debug, Clone)]
pub struct EncodedShare {
    pub threshold: u8,
    pub total: u8,
    pub index: u8,
    pub data: Vec<u8>,
}

/// The secret that Lagrange interpolation at 0 recovers from shares (each: x
/// coordinate, then y values), as `sharks::Sharks::recover` computes it.
pub uninterp spec fn sharks_interpolate(shares: Seq<Seq<u8>>) -> Seq<u8>;

/// The x coordinates of shares.
pub open spec fn share_xs(shares: Seq<Seq<u8>>) -> Seq<u8> {
    Seq::new(shares.len(), |i: int| shares[i][0])
}

/// Whether `sharks::Sharks(threshold).recover` succeeds on shares: at least one
/// share, all of one length, and at least `threshold` distinct x coordinates.
pub open spec fn sharks_recoverable(shares: Seq<Seq<u8>>, threshold: u8) -> bool {
    &&& shares.len() > 0
    &&& forall|i: int| 0 <= i < shares.len() ==> #[trigger] shares[i].len() == shares[0].len()
    &&& share_xs(shares).to_set().len() >= threshold
}

/// A choice of at least `m` distinct indices below `n`.
pub open spec fn valid_selection(sel: Seq<int>, n: nat, m: nat) -> bool {
    &&& sel.len() >= m
    &&& sel.no_duplicates()
    &&& forall|k: int| 0 <= k < sel.len() ==> 0 <= #[trigger] sel[k] < n
}

/// The shares at the chosen indices, in the order chosen.
pub open spec fn pick<T>(items: Seq<T>, sel: Seq<int>) -> Seq<T> {
    sel.map_values(|i: int| items[i])
}

/// The byte sequences of a vector of byte vectors.
pub open spec fn byte_views(v: Seq<Vec<u8>>) -> Seq<Seq<u8>> {
    Seq::new(v.len(), |i: int| v[i]@)
}

/// `Sharks(threshold).dealer(secret).take(total)`, each share as its bytes.
/// Claimed: `total` shares with x coordinates 1, 2, ..., each one byte longer
/// than the secret; and, since the polynomials have degree `threshold - 1`,
/// interpolating any `threshold` or more distinct shares gives the secret
/// back. The y values are random.
#[verifier::external_body]
fn sharks_deal(secret: &[u8], threshold: u8, total: u8) -> (res: Vec<Vec<u8>>)
    requires
        2 <= threshold <= total,
    ensures
        res@.len() == total,
        forall|i: int| 0 <= i < total ==> #[trigger] res@[i]@.len() == secret@.len() + 1 && res@[i]@[0] == i + 1,
        forall|sel: Seq<int>|
            valid_selection(sel, total as nat, threshold as nat) ==> #[trigger] sharks_interpolate(
                pick(byte_views(res@), sel),
            ) == secret@,
{
    let dealer = sharks::Sharks(threshold).dealer(secret);
    dealer.take(total as usize).map(|s| Vec::from(&s)).collect()
}

/// `Share::try_from` on each share (all of 2 bytes or more) and
/// `Sharks(threshold).recover`. Claimed: it fails exactly when the shares are
/// not recoverable (the crate's two checks); otherwise the result is the
/// named interpolation. The error text is the crate's.
#[verifier::external_body]
fn sharks_recover(threshold: u8, shares: &Vec<Vec<u8>>) -> (res: Result<Vec<u8>, String>)
    requires
        forall|i: int| 0 <= i < shares@.len() ==> #[trigger] shares@[i]@.len() >= 2,
    ensures
        res is Ok <==> sharks_recoverable(byte_views(shares@), threshold),
        res matches Ok(v) ==> v@ == sharks_interpolate(byte_views(shares@)),
{
    let parsed: Result<Vec<sharks::Share>, &str> = shares.iter().map(|b| sharks::Share::try_from(b.as_slice())).collect();
    let parsed = parsed.map_err(|e| e.to_string())?;
    sharks::Sharks(threshold).recover(parsed.as_slice()).map_err(|e| e.to_string())
}

/// The share data of a sequence of shares.
pub open spec fn share_datas(shares: Seq<EncodedShare>) -> Seq<Seq<u8>> {
    Seq::new(shares.len(), |i: int| shares[i].data@)
}

/// Whether all shares carry the threshold and total of the first.
pub open spec fn consistent(shares: Seq<EncodedShare>) -> bool {
    forall|i: int|
        0 <= i < shares.len() ==> #[trigger] shares[i].threshold == shares[0].threshold && shares[i].total
            == shares[0].total
}

/// The secret that `combine_secret` recovers, when it recovers one.
pub open spec fn combined_secret(shares: Seq<EncodedShare>) -> Option<Seq<u8>> {
    if shares.len() == 0 || !consistent(shares) || shares.len() < shares[0].threshold || exists|i: int|
        0 <= i < shares.len() && #[trigger] shares[i].data@.len() < 2 || !sharks_recoverable(
        share_datas(shares),
        shares[0].threshold,
    ) {
        None
    } else {
        Some(sharks_interpolate(share_datas(shares)))
    }
}

/// Splits a secret into `total` shares of which any `threshold` recover it.
/// Needs `2 <= threshold <= total`. Share `i` (from 0) has index `i + 1`.
/// Any `threshold` or more distinct shares of a nonempty secret combine to
/// the secret.
pub fn split_secret(secret: &[u8], threshold: u8, total: u8) -> (res: Result<Vec<EncodedShare>, ShamirError>)
    ensures
        res is Ok <==> (MIN_SHARES <= threshold && threshold <= total),
        res is Err ==> (res matches Err(ShamirError::InvalidThreshold { m, n }) && m == threshold && n == total),
        res matches Ok(v) ==> {
            &&& v@.len() == total
            &&& forall|i: int|
                0 <= i < total ==> (#[trigger] v@[i]).threshold == threshold && v@[i].total == total && v@[i].index
                    == i + 1 && v@[i].data@.len() == secret@.len() + 1 && v@[i].data@[0] == i + 1
            &&& secret@.len() > 0 ==> forall|sel: Seq<int>|
                valid_selection(sel, total as nat, threshold as nat) ==> #[trigger] combined_secret(pick(v@, sel))
                    == Some(secret@)
        },
{
    if threshold < MIN_SHARES || total < threshold {
        return Err(ShamirError::InvalidThreshold { m: threshold, n: total });
    }
    let shares = sharks_deal(secret, threshold, total);
    let mut encoded: Vec<EncodedShare> = Vec::new();
    let mut i: usize = 0;
    while i < shares.len()
        invariant
            i <= shares@.len(),
            shares@.len() == total,
            encoded@.len() == i,
            forall|j: int|
                0 <= j < total ==> #[trigger] shares@[j]@.len() == secret@.len() + 1 && shares@[j]@[0] == j + 1,
            forall|j: int|
                0 <= j < i ==> (#[trigger] encoded@[j]).threshold == threshold && encoded@[j].total == total
                    && encoded@[j].index == j + 1 && encoded@[j].data@ == shares@[j]@,
        decreases shares@.len() - i,
    {
        let bytes = vstd::slice::slice_to_vec(shares[i].as_slice());
        if bytes.len() == 0 {
            return Err(ShamirError::RecoveryFailed("empty share".to_string()));
        }
        encoded.push(EncodedShare { threshold, total, index: (i + 1) as u8, data: bytes });
        i = i + 1;
    }
    proof {
        if secret@.len() > 0 {
            assert forall|sel: Seq<int>| valid_selection(sel, total as nat, threshold as nat) implies #[trigger] combined_secret(
                pick(encoded@, sel),
            ) == Some(secret@) by {
                let chosen = pick(encoded@, sel);
                let datas = share_datas(chosen);
                assert(datas =~= pick(byte_views(shares@), sel));
                assert(consistent(chosen));
                assert(forall|k: int| 0 <= k < chosen.len() ==> #[trigger] chosen[k].data@.len() >= 2);
                let xs = share_xs(datas);
                assert forall|a: int, b: int| 0 <= a < xs.len() && 0 <= b < xs.len() && a != b implies xs[a] != xs[b] by {
                    assert(xs[a] == sel[a] + 1);
                    assert(xs[b] == sel[b] + 1);
                }
                assert(xs.no_duplicates());
                xs.unique_seq_to_set();
                assert(sharks_recoverable(datas, threshold));
            }
        }
    }
    Ok(encoded)
}

/// Recovers the secret from shares. No share, shares of different sets, fewer
/// shares than the threshold, a share under 2 bytes, and shares the
/// interpolation refuses are errors, checked in that order.
pub fn combine_secret(shares: &[EncodedShare]) -> (res: Result<Vec<u8>, ShamirError>)
    ensures
        res is Ok <==> combined_secret(shares@) is Some,
        res matches Ok(v) ==> Some(v@) == combined_secret(shares@),
        shares@.len() == 0 ==> (res matches Err(ShamirError::NotEnoughShares { got: g, need: n }) && g == 0 && n == 2),
        shares@.len() > 0 && !consistent(shares@) ==> res matches Err(ShamirError::InconsistentShares),
        shares@.len() > 0 && consistent(shares@) && shares@.len() < shares@[0].threshold ==> (res matches Err(
            ShamirError::NotEnoughShares { got: g, need: n },
        ) && g == shares@.len() && n == shares@[0].threshold),
{
    if shares.len() == 0 {
        return Err(ShamirError::NotEnoughShares { got: 0, need: 2 });
    }
    let threshold = shares[0].threshold;
    let total = shares[0].total;
    let mut i: usize = 0;
    while i < shares.len()
        invariant
            i <= shares@.len(),
            shares@.len() > 0,
            threshold == shares@[0].threshold,
            total == shares@[0].total,
            forall|j: int| 0 <= j < i ==> (#[trigger] shares@[j]).threshold == threshold && shares@[j].total == total,
        decreases shares@.len() - i,
    {
        if shares[i].threshold != threshold || shares[i].total != total {
            assert(!consistent(shares@)) by {
                assert(shares@[i as int].threshold != shares@[0].threshold || shares@[i as int].total != shares@[0].total);
            }
            return Err(ShamirError::InconsistentShares);
        }
        assert(shares@[i as int].threshold == threshold && shares@[i as int].total == total);
        i = i + 1;
    }
    assert(consistent(shares@));
    if shares.len() < threshold as usize {
        return Err(ShamirError::NotEnoughShares { got: shares.len(), need: threshold as usize });
    }
    let mut datas: Vec<Vec<u8>> = Vec::new();
    let mut k: usize = 0;
    while k < shares.len()
        invariant
            k <= shares@.len(),
            shares@.len() > 0,
            consistent(shares@),
            threshold == shares@[0].threshold,
            shares@.len() >= threshold,
            datas@.len() == k,
            forall|j: int| 0 <= j < k ==> #[trigger] datas@[j]@ == shares@[j].data@,
            forall|j: int| 0 <= j < k ==> (#[trigger] shares@[j]).data@.len() >= 2,
        decreases shares@.len() - k,
    {
        if shares[k].data.len() < 2 {
            assert(shares@[k as int].data@.len() < 2);
            return Err(ShamirError::InvalidShare("A Share must be at least 2 bytes long".to_string()));
        }
        datas.push(vstd::slice::slice_to_vec(shares[k].data.as_slice()));
        k = k + 1;
    }
    assert(byte_views(datas@) =~= share_datas(shares@));
    assert(!(exists|j: int| 0 <= j < shares@.len() && #[trigger] shares@[j].data@.len() < 2));
    match sharks_recover(threshold, &datas) {
        Ok(secret) => Ok(secret),
        Err(e) => Err(ShamirError::RecoveryFailed(e)),
    }
}

/// The text form of a share: `qs1-`, threshold and total in decimal, the index
/// as two lowercase hex digits, and the data in lowercase hex, separated by `-`.
pub open spec fn share_text(s: EncodedShare) -> Seq<char> {
    seq!['q', 's', '1', '-'] + dec_chars(s.threshold) + seq!['-'] + dec_chars(s.total) + seq!['-'] + hex_chars(
        seq![s.index],
    ) + seq!['-'] + hex_chars(s.data@)
}

/// The threshold, total, index and data that a text denotes: after trimming whitespace, five pieces
/// separated by `-`: `qs1`, the threshold and total in decimal (an optional
/// `+`), the index in hex, the data in hex.
pub open spec fn parsed_share(text: Seq<char>) -> Option<(u8, u8, u8, Seq<u8>)> {
    let parts = split_on(trim(text), '-');
    if parts.len() != 5 || parts[0] != seq!['q', 's', '1'] {
        None
    } else {
        match (parse_u8_spec(parts[1], 10), parse_u8_spec(parts[2], 10), parse_u8_spec(parts[3], 16), hex_decode_spec(parts[4])) {
            (Some(m), Some(n), Some(x), Some(d)) => Some((m, n, x, d)),
            _ => None,
        }
    }
}

impl EncodedShare {
    /// The text form of the share.
    pub fn to_string(&self) -> (res: String)
        ensures
            res@ == share_text(*self),
    {
        let mut out: Vec<char> = Vec::new();
        out.push('q');
        out.push('s');
        out.push('1');
        out.push('-');
        push_dec(&mut out, self.threshold);
        out.push('-');
        push_dec(&mut out, self.total);
        out.push('-');
        let idx: [u8; 1] = [self.index];
        push_hex(&mut out, &idx);
        out.push('-');
        push_hex(&mut out, self.data.as_slice());
        assert(out@ =~= share_text(*self));
        string_from_chars(&out)
    }

    /// Parses the text form of a share. A text that is not five `-`-separated
    /// pieces starting with `qs1`, or whose threshold, total or index does not
    /// parse, is `InvalidShare`; data that is not hex is `Hex`.
    pub fn parse(s: &str) -> (res: Result<EncodedShare, ShamirError>)
        ensures
            res is Ok <==> parsed_share(s@) is Some,
            res matches Ok(e) ==> ({
                let p = parsed_share(s@)->0;
                e.threshold == p.0 && e.total == p.1 && e.index == p.2 && e.data@ == p.3
            }),
            ({
                let parts = split_on(trim(s@), '-');
                &&& (parts.len() != 5 || parts[0] != seq!['q', 's', '1']) ==> (res matches Err(ShamirError::InvalidShare(_)))
                &&& (parts.len() == 5 && parts[0] == seq!['q', 's', '1'] && parse_u8_spec(parts[1], 10) is Some
                    && parse_u8_spec(parts[2], 10) is Some && parse_u8_spec(parts[3], 16) is Some
                    && hex_decode_spec(parts[4]) is None) ==> (res matches Err(ShamirError::Hex(_)))
            }),
    {
        let cs = chars_of(s);
        let t = trim_chars(&cs);
        let parts = split_chars(&t, '-');
        proof {
            assert(char_views(parts@).len() == parts@.len());
        }
        let is_qs1 = parts.len() == 5 && parts[0].len() == 3 && parts[0][0] == 'q' && parts[0][1] == 's' && parts[0][2] == '1';
        proof {
            if parts@.len() == 5 {
                assert(char_views(parts@)[0] == parts@[0]@);
                if parts@[0]@.len() == 3 {
                    assert(is_qs1 <==> parts@[0]@ =~= seq!['q', 's', '1']);
                }
            }
        }
        if !is_qs1 {
            let mut msg: Vec<char> = Vec::new();
            push_str(&mut msg, "예상 형식: qs1-M-N-XX-HEXDATA, 받음: ");
            let mut k: usize = 0;
            while k < t.len()
                decreases t@.len() - k,
            {
                msg.push(t[k]);
                k = k + 1;
            }
            return Err(ShamirError::InvalidShare(string_from_chars(&msg)));
        }
        assert(char_views(parts@)[1] == parts@[1]@);
        assert(char_views(parts@)[2] == parts@[2]@);
        assert(char_views(parts@)[3] == parts@[3]@);
        assert(char_views(parts@)[4] == parts@[4]@);
        let threshold = match parse_u8(&parts[1], 10) {
            Some(v) => v,
            None => return Err(ShamirError::InvalidShare("M 파싱 실패".to_string())),
        };
        let total = match parse_u8(&parts[2], 10) {
            Some(v) => v,
            None => return Err(ShamirError::InvalidShare("N 파싱 실패".to_string())),
        };
        let index = match parse_u8(&parts[3], 16) {
            Some(v) => v,
            None => return Err(ShamirError::InvalidShare("index hex 파싱 실패".to_string())),
        };
        let data = match hex_decode(&parts[4]) {
            Ok(d) => d,
            Err(e) => return Err(ShamirError::Hex(e)),
        };
        Ok(EncodedShare { threshold, total, index, data })
    }
}

impl core::str::FromStr for EncodedShare {
    type Err = ShamirError;

    /// Parses the text form of a share, as `EncodedShare::parse` does.
    fn from_str(s: &str) -> (res: Result<EncodedShare, ShamirError>)
        ensures
            res is Ok <==> parsed_share(s@) is Some,
            res matches Ok(e) ==> ({
                let p = parsed_share(s@)->0;
                e.threshold == p.0 && e.total == p.1 && e.index == p.2 && e.data@ == p.3
            }),
            ({
                let parts = split_on(trim(s@), '-');
                &&& (parts.len() != 5 || parts[0] != seq!['q', 's', '1']) ==> (res matches Err(ShamirError::InvalidShare(_)))
                &&& (parts.len() == 5 && parts[0] == seq!['q', 's', '1'] && parse_u8_spec(parts[1], 10) is Some
                    && parse_u8_spec(parts[2], 10) is Some && parse_u8_spec(parts[3], 16) is Some
                    && hex_decode_spec(parts[4]) is None) ==> (res matches Err(ShamirError::Hex(_)))
            }),
    {
        EncodedShare::parse(s)
    }
}

/// Each character of a share's text is neither whitespace nor a newline.
pub proof fn lemma_share_text_char(s: EncodedShare, i: int)
    requires
        0 <= i < share_text(s).len(),
    ensures
        !is_ws(share_text(s)[i]),
        share_text(s)[i] != '\n',
{
    let a = seq!['q', 's', '1', '-'] + dec_chars(s.threshold) + seq!['-'] + dec_chars(s.total) + seq!['-'];
    let h = hex_chars(seq![s.index]);
    let d = hex_chars(s.data@);
    lemma_dec_chars_digits(s.threshold);
    lemma_dec_chars_digits(s.total);
    assert(share_text(s) =~= a + h + seq!['-'] + d);
    if i < a.len() {
        assert(share_text(s)[i] == a[i]);
    } else if i < a.len() + h.len() {
        let k = i - a.len();
        assert(share_text(s)[i] == h[k]);
        if k % 2 == 0 {
            lemma_hex_digit_plain((seq![s.index][k / 2] / 16) as int);
        } else {
            lemma_hex_digit_plain((seq![s.index][k / 2] % 16) as int);
        }
    } else if i == a.len() + h.len() {
    } else {
        let k = i - a.len() - h.len() - 1;
        assert(share_text(s)[i] == d[k]);
        if k % 2 == 0 {
            lemma_hex_digit_plain((s.data@[k / 2] / 16) as int);
        } else {
            lemma_hex_digit_plain((s.data@[k / 2] % 16) as int);
        }
    }
}

/// Parsing the text of a share gives back its threshold, total, index and
/// data.
pub proof fn lemma_share_text_roundtrip(s: EncodedShare)
    ensures
        parsed_share(share_text(s)) == Some((s.threshold, s.total, s.index, s.data@)),
{
    let t = share_text(s);
    let m = dec_chars(s.threshold);
    let n = dec_chars(s.total);
    let x = hex_chars(seq![s.index]);
    let d = hex_chars(s.data@);
    let q = seq!['q', 's', '1'];
    assert forall|i: int| 0 <= i < t.len() implies !is_ws(#[trigger] t[i]) by {
        lemma_share_text_char(s, i);
    }
    assert(trim_start(t) == t);
    assert(trim_end(t) == t);
    lemma_dec_chars_digits(s.threshold);
    lemma_dec_chars_digits(s.total);
    assert forall|i: int| 0 <= i < x.len() implies #[trigger] x[i] != '-' by {
        if i % 2 == 0 {
            lemma_hex_digit_plain((seq![s.index][i / 2] / 16) as int);
        } else {
            lemma_hex_digit_plain((seq![s.index][i / 2] % 16) as int);
        }
    }
    assert forall|i: int| 0 <= i < d.len() implies #[trigger] d[i] != '-' by {
        if i % 2 == 0 {
            lemma_hex_digit_plain((s.data@[i / 2] / 16) as int);
        } else {
            lemma_hex_digit_plain((s.data@[i / 2] % 16) as int);
        }
    }
    lemma_split_free(q, '-');
    lemma_split_free(m, '-');
    lemma_split_free(n, '-');
    lemma_split_free(x, '-');
    lemma_split_free(d, '-');
    let p4 = x + seq!['-'] + d;
    let p3 = n + seq!['-'] + p4;
    let p2 = m + seq!['-'] + p3;
    assert(t =~= q + seq!['-'] + p2);
    lemma_split_join(x, d, '-');
    lemma_split_join(n, p4, '-');
    lemma_split_join(m, p3, '-');
    lemma_split_join(q, p2, '-');
    let parts = split_on(t, '-');
    assert(parts =~= seq![q, m, n, x, d]);
    lemma_parse_dec_chars(s.threshold);
    lemma_parse_dec_chars(s.total);
    lemma_parse_hex_byte(s.index);
    lemma_hex_roundtrip(s.data@);
}

} // verus!
