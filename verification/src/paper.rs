//! The BIP39 paper-backup recipient: a mnemonic written down on paper, its
//! seed, HKDF domain separation, XChaCha20-Poly1305.
use vstd::prelude::*;
use vstd::string::StringSliceAdditionalSpecFns;

use crate::envelope::{array32_from, FileKey};
use crate::error::PaperError;
use crate::format::{Bip39Recipient, Recipient};
use crate::primitives::{aead_open, aead_seal, hkdf_sha256, hkdf_sha256_32, random_bytes, string_from_chars, xchacha_open, xchacha_seal};
use crate::text::{dec_nat, hex_chars, push_dec_usize, push_hex, push_spaces, push_str, spaces, trim, trim_chars};
use crate::integrity::{blake3_digest, blake3_hash};
use crate::primitives::chars_of;

verus! {

/// HKDF label of the BIP39 wrap key.
pub const HKDF_INFO_BIP39_V1: &'static str = "qsafe-v1-bip39-paper-wrap-key";

/// Length of the salt.
pub const BIP39_SALT_LEN: usize = 16;

/// Default number of words.
pub const DEFAULT_WORD_COUNT: u8 = 24;

/// Length of the envelope nonce.
pub const BIP39_NONCE_LEN: usize = 24;

/// The only mnemonic language supported.
pub const BIP39_LANGUAGE: &'static str = "english";

/// The word counts BIP39 allows.
pub open spec fn valid_word_count(n: int) -> bool {
    n == 12 || n == 15 || n == 18 || n == 21 || n == 24
}

/// The word count, the seed (empty passphrase) and the entropy of a phrase,
/// as `bip39::Mnemonic::parse_in(Language::English, text)`, `word_count()`,
/// `to_seed("")` and `to_entropy()` give them; `None` when the phrase does not
/// parse.
pub uninterp spec fn bip39_phrase(text: Seq<char>) -> Option<(nat, Seq<u8>, Seq<u8>)>;

/// Words joined by single spaces.
pub open spec fn join_words(words: Seq<Seq<char>>) -> Seq<char>
    decreases words.len(),
{
    if words.len() == 0 {
        Seq::empty()
    } else if words.len() == 1 {
        words[0]
    } else {
        join_words(words.drop_last()) + seq![' '] + words.last()
    }
}

/// The character sequences of strings.
pub open spec fn string_views(v: Seq<String>) -> Seq<Seq<char>> {
    Seq::new(v.len(), |i: int| v[i]@)
}

/// `bip39::Mnemonic::generate_in(Language::English, word_count)`, its `words()`,
/// `to_seed("")` and `to_entropy()`. Claimed: for an allowed word count it
/// succeeds, with that many words and a 64-byte seed, and parsing the words
/// joined by spaces gives back the word count, the seed and the entropy. The
/// words are random.
#[verifier::external_body]
fn bip39_generate(word_count: usize) -> (res: (Vec<String>, Vec<u8>, Vec<u8>))
    requires
        valid_word_count(word_count as int),
    ensures
        res.0@.len() == word_count,
        res.1@.len() == 64,
        bip39_phrase(join_words(string_views(res.0@))) == Some((word_count as nat, res.1@, res.2@)),
{
    let m = bip39::Mnemonic::generate_in(bip39::Language::English, word_count).unwrap();
    (m.words().map(|w| w.to_string()).collect(), m.to_seed("").to_vec(), m.to_entropy())
}

/// `bip39::Mnemonic::parse_in(Language::English, text)`, then `word_count()`,
/// `to_seed("")` and `to_entropy()`. Claimed: the result is the named one.
/// The error text is the crate's.
#[verifier::external_body]
pub(crate) fn bip39_parse(text: &str) -> (res: Result<(usize, Vec<u8>, Vec<u8>), String>)
    ensures
        res matches Ok((n, seed, entropy)) ==> bip39_phrase(text@) == Some((n as nat, seed@, entropy@)),
        res is Err ==> bip39_phrase(text@) is None,
{
    let m = bip39::Mnemonic::parse_in(bip39::Language::English, text).map_err(|e| e.to_string())?;
    Ok((m.word_count(), m.to_seed("").to_vec(), m.to_entropy()))
}

/// A freshly generated mnemonic: its words and its seed.
pub struct GeneratedMnemonic {
    words: Vec<String>,
    seed: Vec<u8>,
    entropy: Vec<u8>,
    word_count: u8,
}

impl GeneratedMnemonic {
    /// The words.
    pub closed spec fn word_seq(&self) -> Seq<Seq<char>> {
        string_views(self.words@)
    }

    /// The number of words.
    pub closed spec fn count(&self) -> u8 {
        self.word_count
    }

    /// The phrase parses back to the word count and the seed.
    pub closed spec fn wf(&self) -> bool {
        &&& self.words@.len() == self.word_count
        &&& bip39_phrase(join_words(string_views(self.words@))) == Some(
            (self.word_count as nat, self.seed@, self.entropy@),
        )
    }

    /// A random 24-word mnemonic.
    pub fn random_24() -> (res: Result<GeneratedMnemonic, PaperError>)
        ensures
            res matches Ok(m) && m.wf() && m.count() == 24 && m.word_seq().len() == 24,
    {
        GeneratedMnemonic::random(24)
    }

    /// A random mnemonic of 12, 15, 18, 21 or 24 words; another count is
    /// `InvalidWordCount`.
    pub fn random(word_count: u8) -> (res: Result<GeneratedMnemonic, PaperError>)
        ensures
            res is Ok <==> valid_word_count(word_count as int),
            res is Err ==> (res matches Err(PaperError::InvalidWordCount(n)) && n == word_count),
            res matches Ok(m) ==> m.wf() && m.count() == word_count && m.word_seq().len() == word_count,
    {
        if !(word_count == 12 || word_count == 15 || word_count == 18 || word_count == 21 || word_count == 24) {
            return Err(PaperError::InvalidWordCount(word_count));
        }
        let (words, seed, entropy) = bip39_generate(word_count as usize);
        Ok(GeneratedMnemonic { words, seed, entropy, word_count })
    }

    /// The words, in order.
    pub fn words(&self) -> (res: Vec<String>)
        ensures
            string_views(res@) == self.word_seq(),
    {
        let mut out: Vec<String> = Vec::new();
        let mut i: usize = 0;
        while i < self.words.len()
            invariant
                i <= self.words@.len(),
                out@.len() == i,
                forall|j: int| 0 <= j < i ==> #[trigger] out@[j]@ == self.words@[j]@,
            decreases self.words@.len() - i,
        {
            out.push(self.words[i].clone());
            i = i + 1;
        }
        assert(string_views(out@) =~= string_views(self.words@));
        out
    }

    /// The number of words.
    pub fn word_count(&self) -> (n: u8)
        ensures
            n == self.count(),
    {
        self.word_count
    }
}

/// Builds BIP39 recipients from a generated mnemonic.
pub struct Bip39Wrapper {
    mnemonic: GeneratedMnemonic,
    label: Option<String>,
}

/// The BIP39 wrap key: HKDF-SHA256 of the seed with the salt and the BIP39 label.
pub open spec fn bip39_wrap_key(seed: Seq<u8>, salt: Seq<u8>) -> Seq<u8> {
    hkdf_sha256_32(salt, seed, HKDF_INFO_BIP39_V1.spec_bytes())
}

/// The file key that a phrase recovers from a recipient, when it recovers one.
pub open spec fn bip39_recipient_key(words: Seq<char>, r: Bip39Recipient) -> Option<Seq<u8>> {
    if r.salt@.len() == BIP39_SALT_LEN && r.nonce@.len() == BIP39_NONCE_LEN && r.language@ == BIP39_LANGUAGE@ {
        match bip39_phrase(words) {
            Some((n, seed, _)) => if n == r.word_count {
                match xchacha_open(bip39_wrap_key(seed, r.salt@), r.nonce@, r.encrypted_file_key@) {
                    Some(k) => if k.len() == 32 {
                        Some(k)
                    } else {
                        None
                    },
                    None => None,
                }
            } else {
                None
            },
            None => None,
        }
    } else {
        None
    }
}

impl Bip39Wrapper {
    /// The words of the mnemonic.
    pub closed spec fn word_seq(&self) -> Seq<Seq<char>> {
        self.mnemonic.word_seq()
    }

    /// The label.
    pub closed spec fn label_value(&self) -> Option<String> {
        self.label
    }

    /// The mnemonic is well formed.
    pub closed spec fn wf(&self) -> bool {
        self.mnemonic.wf()
    }

    /// A wrapper with a random 24-word mnemonic.
    pub fn generate() -> (res: Result<Bip39Wrapper, PaperError>)
        ensures
            res matches Ok(w) && w.wf() && w.word_seq().len() == 24 && w.label_value() is None,
    {
        match GeneratedMnemonic::random_24() {
            Ok(m) => Ok(Bip39Wrapper { mnemonic: m, label: None }),
            Err(e) => Err(e),
        }
    }

    /// A wrapper with a random mnemonic of `word_count` words; another count
    /// than 12, 15, 18, 21 or 24 is `InvalidWordCount`.
    pub fn generate_words(word_count: u8) -> (res: Result<Bip39Wrapper, PaperError>)
        ensures
            res is Ok <==> valid_word_count(word_count as int),
            res is Err ==> (res matches Err(PaperError::InvalidWordCount(n)) && n == word_count),
            res matches Ok(w) ==> w.wf() && w.word_seq().len() == word_count && w.label_value() is None,
    {
        match GeneratedMnemonic::random(word_count) {
            Ok(m) => Ok(Bip39Wrapper { mnemonic: m, label: None }),
            Err(e) => Err(e),
        }
    }

    /// The same wrapper with a label.
    pub fn with_label(self, label: &str) -> (w: Bip39Wrapper)
        ensures
            w.wf() == self.wf(),
            w.word_seq() == self.word_seq(),
            w.label_value() matches Some(l) && l@ == label@,
    {
        Bip39Wrapper { mnemonic: self.mnemonic, label: Some(String::from_str(label)) }
    }

    /// The words of the mnemonic, in order.
    pub fn words(&self) -> (res: Vec<String>)
        ensures
            string_views(res@) == self.word_seq(),
    {
        self.mnemonic.words()
    }

    /// Wraps the file key: a random 16-byte salt and 24-byte nonce, the wrap key
    /// from the seed, and the sealed key. The words joined by spaces recover
    /// the file key from the recipient.
    pub fn wrap(&self, file_key: &FileKey) -> (res: Result<Recipient, PaperError>)
        requires
            self.wf(),
        ensures
            res matches Ok(Recipient::Bip39(br)) && {
                &&& br.salt@.len() == BIP39_SALT_LEN
                &&& br.nonce@.len() == BIP39_NONCE_LEN
                &&& br.word_count == self.word_seq().len()
                &&& br.language@ == BIP39_LANGUAGE@
                &&& bip39_recipient_key(join_words(self.word_seq()), br) == Some(file_key@)
            },
    {
        let salt = random_bytes(BIP39_SALT_LEN);
        let nonce = random_bytes(BIP39_NONCE_LEN);
        let wrap_key = hkdf_sha256(salt.as_slice(), self.mnemonic.seed.as_slice(), HKDF_INFO_BIP39_V1.as_bytes());
        proof {
            file_key.lemma_len();
        }
        let encrypted = match aead_seal(wrap_key.as_slice(), nonce.as_slice(), file_key.as_bytes()) {
            Some(c) => c,
            None => return Err(PaperError::Aead),
        };
        let label = match &self.label {
            Some(l) => Some(l.clone()),
            None => None,
        };
        Ok(
            Recipient::Bip39(
                Bip39Recipient {
                    salt,
                    nonce,
                    encrypted_file_key: encrypted,
                    word_count: self.mnemonic.word_count,
                    language: String::from_str(BIP39_LANGUAGE),
                    label,
                },
            ),
        )
    }
}

/// Whether a phrase parses to `count` words.
pub open spec fn phrase_has_count(words: Seq<char>, count: u8) -> bool {
    match bip39_phrase(words) {
        Some((n, _, _)) => n == count,
        None => false,
    }
}

/// Builds the word-count mismatch message: `expected N words, got M`.
fn count_message(expected: u8, got: usize) -> (res: String)
    ensures
        res@ == "expected "@ + dec_nat(expected as nat) + " words, got "@ + dec_nat(got as nat),
{
    let mut out: Vec<char> = Vec::new();
    push_str(&mut out, "expected ");
    push_dec_usize(&mut out, expected as usize);
    push_str(&mut out, " words, got ");
    push_dec_usize(&mut out, got);
    string_from_chars(&out)
}

/// Recovers the file key from a BIP39 recipient with the mnemonic words. A salt
/// of another length than 16 is `InvalidSalt`, a nonce of another length than
/// 24 `InvalidNonce`, a language other than `english` `UnsupportedLanguage`;
/// words that do not parse, or parse to another word count than the
/// recipient's, are `InvalidMnemonic`; a sealed key that does not open is
/// `Aead`, one of another length than 32 `InvalidFileKey`.
pub fn unwrap_bip39(words: &str, recipient: &Bip39Recipient) -> (res: Result<FileKey, PaperError>)
    ensures
        res is Ok <==> bip39_recipient_key(words@, *recipient) is Some,
        res matches Ok(k) ==> Some(k@) == bip39_recipient_key(words@, *recipient),
        recipient.salt@.len() != BIP39_SALT_LEN ==> res matches Err(PaperError::InvalidSalt),
        recipient.salt@.len() == BIP39_SALT_LEN && recipient.nonce@.len() != BIP39_NONCE_LEN ==> res matches Err(
            PaperError::InvalidNonce,
        ),
        recipient.salt@.len() == BIP39_SALT_LEN && recipient.nonce@.len() == BIP39_NONCE_LEN && recipient.language@
            != BIP39_LANGUAGE@ ==> (res matches Err(PaperError::UnsupportedLanguage(l)) && l@ == recipient.language@),
        recipient.salt@.len() == BIP39_SALT_LEN && recipient.nonce@.len() == BIP39_NONCE_LEN && recipient.language@
            == BIP39_LANGUAGE@ && !phrase_has_count(words@, recipient.word_count) ==> res matches Err(
            PaperError::InvalidMnemonic(_),
        ),
{
    if recipient.salt.len() != BIP39_SALT_LEN {
        return Err(PaperError::InvalidSalt);
    }
    if recipient.nonce.len() != BIP39_NONCE_LEN {
        return Err(PaperError::InvalidNonce);
    }
    let english = String::from_str(BIP39_LANGUAGE);
    if recipient.language != english {
        return Err(PaperError::UnsupportedLanguage(recipient.language.clone()));
    }
    let (count, seed, _entropy) = match bip39_parse(words) {
        Ok(r) => r,
        Err(e) => return Err(PaperError::InvalidMnemonic(e)),
    };
    if count != recipient.word_count as usize {
        return Err(PaperError::InvalidMnemonic(count_message(recipient.word_count, count)));
    }
    let wrap_key = hkdf_sha256(recipient.salt.as_slice(), seed.as_slice(), HKDF_INFO_BIP39_V1.as_bytes());
    let plaintext = match aead_open(wrap_key.as_slice(), recipient.nonce.as_slice(), recipient.encrypted_file_key.as_slice()) {
        Some(p) => p,
        None => return Err(PaperError::Aead),
    };
    if plaintext.len() != 32 {
        return Err(PaperError::InvalidFileKey);
    }
    Ok(FileKey::from_bytes(array32_from(plaintext.as_slice())))
}

/// `s` padded on the left with spaces to `w` characters.
pub open spec fn pad_left(s: Seq<char>, w: int) -> Seq<char> {
    spaces(w - s.len()) + s
}

/// `s` padded on the right with spaces to `w` characters.
pub open spec fn pad_right(s: Seq<char>, w: int) -> Seq<char> {
    s + spaces(w - s.len())
}

/// One entry of the word list: the 1-based number right-aligned in 3
/// characters, a dot, and the word left-aligned in 10, then a space.
pub open spec fn word_entry(i: nat, w: Seq<char>) -> Seq<char> {
    pad_left(dec_nat(i + 1), 3) + seq!['.', ' '] + pad_right(w, 10) + seq![' ']
}

/// The printed word list: four entries per line.
pub open spec fn words_display(words: Seq<Seq<char>>) -> Seq<char>
    decreases words.len(),
{
    if words.len() == 0 {
        Seq::empty()
    } else {
        let i = (words.len() - 1) as nat;
        words_display(words.drop_last()) + (if i % 4 == 0 && i > 0 {
            seq!['\n']
        } else {
            Seq::empty()
        }) + word_entry(i, words.last())
    }
}

/// The character sequences of string slices.
pub open spec fn str_views(v: Seq<&str>) -> Seq<Seq<char>> {
    Seq::new(v.len(), |i: int| v[i]@)
}

/// Appends one entry of the word list.
fn push_word_entry(out: &mut Vec<char>, i: usize, w: &str)
    requires
        i < usize::MAX,
    ensures
        final(out)@ == old(out)@ + word_entry(i as nat, w@),
{
    let ghost start = out@;
    let mut num: Vec<char> = Vec::new();
    push_dec_usize(&mut num, i + 1);
    if num.len() < 3 {
        push_spaces(out, 3 - num.len());
    } else {
        push_spaces(out, 0);
    }
    let ghost padded = out@;
    let mut k: usize = 0;
    while k < num.len()
        invariant
            k <= num@.len(),
            out@ == padded + num@.subrange(0, k as int),
        decreases num@.len() - k,
    {
        out.push(num[k]);
        k = k + 1;
        assert(out@ =~= padded + num@.subrange(0, k as int));
    }
    assert(num@.subrange(0, num@.len() as int) =~= num@);
    assert(spaces(3 - num@.len()) =~= spaces((if num@.len() < 3 { 3 - num@.len() } else { 0 }) as int));
    out.push('.');
    out.push(' ');
    let wl = w.unicode_len();
    push_str(out, w);
    if wl < 10 {
        push_spaces(out, 10 - wl);
    } else {
        push_spaces(out, 0);
    }
    assert(spaces(10 - w@.len()) =~= spaces((if w@.len() < 10 { 10 - w@.len() } else { 0 }) as int));
    out.push(' ');
    assert(out@ =~= start + word_entry(i as nat, w@));
}

/// Formats words for writing down: numbered, four per line.
pub fn display_words(words: &[&str]) -> (res: String)
    ensures
        res@ == words_display(str_views(words@)),
{
    let mut out: Vec<char> = Vec::new();
    let mut i: usize = 0;
    assert(str_views(words@.subrange(0, 0)) =~= Seq::<Seq<char>>::empty());
    while i < words.len()
        invariant
            i <= words@.len(),
            out@ == words_display(str_views(words@.subrange(0, i as int))),
        decreases words@.len() - i,
    {
        let ghost before = out@;
        if i % 4 == 0 && i > 0 {
            out.push('\n');
        }
        let ghost sep = out@;
        push_word_entry(&mut out, i, words[i]);
        proof {
            let ws = str_views(words@.subrange(0, i + 1));
            assert(ws.drop_last() =~= str_views(words@.subrange(0, i as int)));
            assert(ws.last() == words@[i as int]@);
            assert(sep =~= before + (if i % 4 == 0 && i > 0 { seq!['\n'] } else { Seq::<char>::empty() }));
            assert(out@ =~= words_display(ws));
        }
        i = i + 1;
    }
    assert(words@.subrange(0, words@.len() as int) =~= words@);
    string_from_chars(&out)
}

/// Entry `i` of the display is numbered `i + 1`: the display of the first
/// `i + 1` words is that of the first `i` words, a line break before every
/// fourth entry after the first, then the decimal text of `i + 1`
/// right-aligned in three characters, `. `, word `i` padded with spaces to ten
/// characters, and a space.
pub proof fn lemma_display_entry_numbered(words: Seq<Seq<char>>, i: nat)
    requires
        i < words.len(),
    ensures
        words_display(words.take(i + 1int)) == words_display(words.take(i as int)) + (if i % 4 == 0 && i > 0 {
            seq!['\n']
        } else {
            Seq::<char>::empty()
        }) + spaces(3 - dec_nat(i + 1).len()) + dec_nat(i + 1) + seq!['.', ' '] + words[i as int] + spaces(
            10 - words[i as int].len(),
        ) + seq![' '],
{
    let t = words.take(i + 1int);
    assert(t.drop_last() =~= words.take(i as int));
    assert(t.last() == words[i as int]);
    assert(t.len() - 1 == i);
}

/// The display of the first `j` words is the start of the display of all of
/// them, so the entries appear in the order of the words.
pub proof fn lemma_display_prefix(words: Seq<Seq<char>>, j: nat)
    requires
        j <= words.len(),
    ensures
        words_display(words.take(j as int)).len() <= words_display(words).len(),
        words_display(words).take(words_display(words.take(j as int)).len() as int) == words_display(words.take(j as int)),
    decreases words.len(),
{
    if j == words.len() {
        assert(words.take(j as int) =~= words);
        assert(words_display(words).take(words_display(words).len() as int) =~= words_display(words));
    } else {
        let d = words.drop_last();
        assert(d.take(j as int) =~= words.take(j as int));
        lemma_display_prefix(d, j);
        let short = words_display(d.take(j as int));
        assert(words.drop_last() == d);
        assert(words_display(words).len() >= words_display(d).len());
        assert(words_display(words).take(short.len() as int) =~= words_display(d).take(short.len() as int));
    }
}

/// What the application shows of a phrase.
#[derive(Debug)]
pub struct MnemonicInfo {
    /// The number of words.
    pub word_count: usize,
    /// The size of the entropy in bytes.
    pub entropy_len: usize,
    /// The first 8 bytes of the BLAKE3 hash of the entropy, in hex.
    pub fingerprint: String,
}

/// The fingerprint of an entropy: the first 8 bytes of its BLAKE3 hash, in hex.
pub open spec fn entropy_fingerprint(entropy: Seq<u8>) -> Seq<char> {
    hex_chars(blake3_digest(entropy).take(8))
}

/// Describes a phrase (after trimming): its word count, the size of its
/// entropy and its fingerprint; a phrase that does not parse is an error.
pub fn mnemonic_info(words: &str) -> (res: Result<MnemonicInfo, String>)
    ensures
        res is Ok <==> bip39_phrase(trim(words@)) is Some,
        res matches Ok(i) ==> (bip39_phrase(trim(words@)) matches Some((n, _, e)) && i.word_count == n
            && i.entropy_len == e.len() && i.fingerprint@ == entropy_fingerprint(e)),
        res matches Err(m) ==> "파싱 실패: "@.is_prefix_of(m@),
{
    let cs = chars_of(words);
    let t = trim_chars(&cs);
    let text = string_from_chars(&t);
    let (count, _seed, entropy) = match bip39_parse(text.as_str()) {
        Ok(r) => r,
        Err(e) => {
            let mut msg: Vec<char> = Vec::new();
            push_str(&mut msg, "파싱 실패: ");
            push_str(&mut msg, e.as_str());
            return Err(string_from_chars(&msg));
        },
    };
    let h = blake3_hash(entropy.as_slice());
    let mut head: Vec<u8> = Vec::new();
    let mut i: usize = 0;
    while i < 8
        invariant
            i <= 8,
            h@.len() == 32,
            head@ == h@.take(i as int),
        decreases 8 - i,
    {
        head.push(h[i]);
        i = i + 1;
        assert(head@ =~= h@.take(i as int));
    }
    let mut fp: Vec<char> = Vec::new();
    push_hex(&mut fp, head.as_slice());
    assert(fp@ =~= hex_chars(h@.take(8)));
    Ok(MnemonicInfo { word_count: count, entropy_len: entropy.len(), fingerprint: string_from_chars(&fp) })
}

} // verus!
