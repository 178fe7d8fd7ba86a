//! What the desktop application hands to the command-line tool when it packs
//! or unpacks: the credentials of open mode, default output paths, the label
//! with an MD5 digest, the argument lists, and what it reads back (the MD5
//! side file, an unpacked tar image).
use vstd::prelude::*;

use crate::format::{CipherSuite, CompressionAlgo, FileHeader, Recipient};
use crate::paths::{dir_part, file_name, push_chars, split_ext, split_ext_exec, split_path, is_file_name_exec};
use crate::primitives::{chars_of, string_from_chars};
use crate::listing::{lowercase, to_lowercase};
use crate::text::{is_ws, push_str, trim_start};

verus! {

/// The password of files packed in open mode: anyone with the application
/// can unpack them.
pub const PUBLIC_PASSWORD: &'static str = "qsafe-public-v1";

/// The views of a list of strings.
pub open spec fn views(v: Seq<String>) -> Seq<Seq<char>> {
    Seq::new(v.len(), |i: int| v[i]@)
}

/// The credentials for packing: in open mode the public password alone,
/// otherwise those given.
pub fn pack_credentials(open_mode: bool, password: Option<String>, pubkeys: Vec<String>, no_password: bool) -> (res: (
    Option<String>,
    Vec<String>,
    bool,
))
    ensures
        open_mode ==> (res.0 matches Some(p) && p@ == PUBLIC_PASSWORD@) && res.1@.len() == 0 && !res.2,
        !open_mode ==> res.0 == password && res.1@ == pubkeys@ && res.2 == no_password,
{
    if open_mode {
        (Some(PUBLIC_PASSWORD.to_string()), Vec::new(), false)
    } else {
        (password, pubkeys, no_password)
    }
}

/// The credentials for unpacking: in open mode the public password and no
/// identity, otherwise those given.
pub fn unpack_credentials(open_mode: bool, password: Option<String>, identity: Option<String>) -> (res: (
    Option<String>,
    Option<String>,
))
    ensures
        open_mode ==> (res.0 matches Some(p) && p@ == PUBLIC_PASSWORD@) && res.1 is None,
        !open_mode ==> res.0 == password && res.1 == identity,
{
    if open_mode {
        (Some(PUBLIC_PASSWORD.to_string()), None)
    } else {
        (password, identity)
    }
}

/// The default output of packing `input`: `.run.exe` (on Windows) or `.run`
/// appended for a self-extracting file, `.qs` otherwise.
pub open spec fn pack_output_of(input: Seq<char>, sfx: bool, windows: bool) -> Seq<char> {
    if sfx {
        if windows {
            input + ".run.exe"@
        } else {
            input + ".run"@
        }
    } else {
        input + ".qs"@
    }
}

/// The default output path of packing `input`.
pub fn pack_output_for(input: &str, sfx: bool, windows: bool) -> (res: String)
    ensures
        res@ == pack_output_of(input@, sfx, windows),
{
    let mut out: Vec<char> = Vec::new();
    push_str(&mut out, input);
    if sfx {
        if windows {
            push_str(&mut out, ".run.exe");
        } else {
            push_str(&mut out, ".run");
        }
    } else {
        push_str(&mut out, ".qs");
    }
    string_from_chars(&out)
}

/// The default output of unpacking `input`: without its `.qs`, or with
/// `.out` appended when it has none.
pub open spec fn unpack_output_of(input: Seq<char>) -> Seq<char> {
    if input.len() >= 3 && input.skip(input.len() - 3) == ".qs"@ {
        input.take(input.len() - 3)
    } else {
        input + ".out"@
    }
}

/// The default output path of unpacking `input`.
pub fn unpack_output_for(input: &str) -> (res: String)
    ensures
        res@ == unpack_output_of(input@),
{
    let cs = chars_of(input);
    let n = cs.len();
    let mut ends = false;
    if n >= 3 {
        let mut tail: Vec<char> = Vec::new();
        tail.push(cs[n - 3]);
        tail.push(cs[n - 2]);
        tail.push(cs[n - 1]);
        assert(tail@ =~= cs@.skip(n - 3));
        ends = crate::text::chars_equal(&tail, &chars_of(".qs"));
    }
    if ends {
        let mut out: Vec<char> = Vec::new();
        let mut i: usize = 0;
        while i < n - 3
            invariant
                n == cs@.len(),
                n >= 3,
                i <= n - 3,
                out@ == cs@.take(i as int),
            decreases n - 3 - i,
        {
            out.push(cs[i]);
            i = i + 1;
            assert(out@ =~= cs@.take(i as int));
        }
        string_from_chars(&out)
    } else {
        let mut out = cs;
        push_str(&mut out, ".out");
        string_from_chars(&out)
    }
}

/// Whether the first 16 characters of `m` are ASCII.
pub open spec fn ascii_head(m: Seq<char>) -> bool {
    m.len() >= 16 && forall|i: int| 0 <= i < 16 ==> (m[i] as u32) < 0x80
}

/// The label of a packed file: the label given, the first 16 characters of
/// the MD5 digest, or both joined by ` | `.
pub open spec fn pack_label_of(label: Option<Seq<char>>, md5: Option<Seq<char>>) -> Option<Seq<char>> {
    match (label, md5) {
        (Some(l), Some(m)) => Some(l + " | MD5:"@ + m.take(16)),
        (Some(l), None) => Some(l),
        (None, Some(m)) => Some("MD5:"@ + m.take(16)),
        (None, None) => None,
    }
}

/// The view of an optional string.
pub open spec fn opt_view(s: Option<String>) -> Option<Seq<char>> {
    match s {
        Some(v) => Some(v@),
        None => None,
    }
}

/// The first 16 characters of a digest.
fn digest_head(m: &str) -> (res: Vec<char>)
    requires
        ascii_head(m@),
    ensures
        res@ == m@.take(16),
{
    let cs = chars_of(m);
    let mut out: Vec<char> = Vec::new();
    let mut i: usize = 0;
    while i < 16
        invariant
            i <= 16 <= cs@.len(),
            out@ == cs@.take(i as int),
        decreases 16 - i,
    {
        out.push(cs[i]);
        i = i + 1;
        assert(out@ =~= cs@.take(i as int));
    }
    out
}

/// The label to pack with, from the label given and the MD5 digest of the
/// input (hex text, whose first 16 characters are taken).
pub fn pack_label(label: &Option<String>, md5: &Option<String>) -> (res: Option<String>)
    requires
        md5 matches Some(m) ==> ascii_head(m@),
    ensures
        opt_view(res) == pack_label_of(opt_view(*label), opt_view(*md5)),
{
    match (label, md5) {
        (Some(l), Some(m)) => {
            let mut out: Vec<char> = Vec::new();
            push_str(&mut out, l.as_str());
            push_str(&mut out, " | MD5:");
            let h = digest_head(m.as_str());
            push_chars(&mut out, &h);
            Some(string_from_chars(&out))
        },
        (Some(l), None) => Some(string_from_chars(&chars_of(l.as_str()))),
        (None, Some(m)) => {
            let mut out: Vec<char> = Vec::new();
            push_str(&mut out, "MD5:");
            let h = digest_head(m.as_str());
            push_chars(&mut out, &h);
            Some(string_from_chars(&out))
        },
        (None, None) => None,
    }
}

/// The compression argument passed on: `none`, `zstd` or `auto` (the
/// default); anything else is not passed.
pub open spec fn compression_choice(c: Option<Seq<char>>) -> Option<Seq<char>> {
    let v = match c {
        Some(x) => x,
        None => "auto"@,
    };
    if v == "none"@ || v == "zstd"@ || v == "auto"@ {
        Some(v)
    } else {
        None
    }
}

/// The profile argument passed on: `standard` or `strong`.
pub open spec fn profile_choice(p: Option<Seq<char>>) -> Option<Seq<char>> {
    match p {
        Some(v) => if v == "standard"@ || v == "strong"@ {
            Some(v)
        } else {
            None
        },
        None => None,
    }
}

/// `--pubkey` and each key, in order.
pub open spec fn pubkey_args(keys: Seq<Seq<char>>) -> Seq<Seq<char>>
    decreases keys.len(),
{
    if keys.len() == 0 {
        Seq::empty()
    } else {
        pubkey_args(keys.drop_last()) + seq!["--pubkey"@, keys.last()]
    }
}

/// An optional flag and its value.
pub open spec fn opt_arg(flag: Seq<char>, v: Option<Seq<char>>) -> Seq<Seq<char>> {
    match v {
        Some(x) => seq![flag, x],
        None => Seq::empty(),
    }
}

/// A flag present when `b`.
pub open spec fn flag_arg(flag: Seq<char>, b: bool) -> Seq<Seq<char>> {
    if b {
        seq![flag]
    } else {
        Seq::empty()
    }
}

/// The arguments of `qsafe pack`: input, output, then `--force`, `-c`,
/// `--profile`, `--no-password` or `--password`, each `--pubkey`, `--sfx`,
/// `--label` and `--progress` as asked.
pub open spec fn pack_args_of(
    input: Seq<char>,
    output: Seq<char>,
    force: bool,
    compression: Option<Seq<char>>,
    profile: Option<Seq<char>>,
    no_password: bool,
    password: Option<Seq<char>>,
    pubkeys: Seq<Seq<char>>,
    sfx: bool,
    label: Option<Seq<char>>,
    progress: bool,
) -> Seq<Seq<char>> {
    seq!["pack"@, input, "-o"@, output] + flag_arg("--force"@, force) + opt_arg("-c"@, compression_choice(compression))
        + opt_arg("--profile"@, profile_choice(profile)) + (if no_password {
        seq!["--no-password"@]
    } else {
        opt_arg("--password"@, password)
    }) + pubkey_args(pubkeys) + flag_arg("--sfx"@, sfx) + opt_arg("--label"@, label) + flag_arg("--progress"@, progress)
}

/// Each compression the GUI offers is passed on to `qsafe pack` as `-c` and its
/// name, right after the input, output and `--force` (when asked); no choice
/// passes `-c auto`. A name the CLI does not know is not passed.
#[verifier::spinoff_prover]
pub proof fn lemma_pack_args_pass_compression(
    input: Seq<char>,
    output: Seq<char>,
    force: bool,
    compression: Option<Seq<char>>,
    profile: Option<Seq<char>>,
    no_password: bool,
    password: Option<Seq<char>>,
    pubkeys: Seq<Seq<char>>,
    sfx: bool,
    label: Option<Seq<char>>,
    progress: bool,
)
    ensures
        ({
            let args = pack_args_of(input, output, force, compression, profile, no_password, password, pubkeys, sfx, label, progress);
            let k = if force { 5int } else { 4int };
            let name = match compression {
                Some(c) => c,
                None => "auto"@,
            };
            &&& (name == "none"@ || name == "zstd"@ || name == "auto"@) ==> (args.len() >= k + 2 && args[k] == "-c"@
                && args[k + 1] == name)
            &&& !(name == "none"@ || name == "zstd"@ || name == "auto"@) ==> compression_choice(compression) is None
        }),
{
    let head = seq!["pack"@, input, "-o"@, output] + flag_arg("--force"@, force);
    let mid = opt_arg("-c"@, compression_choice(compression));
    let k = if force { 5int } else { 4int };
    assert(head.len() == k);
    let name = match compression {
        Some(c) => c,
        None => "auto"@,
    };
    if name == "none"@ || name == "zstd"@ || name == "auto"@ {
        assert(compression_choice(compression) == Some(name));
        assert(mid =~= seq!["-c"@, name]);
        let a1 = head + mid;
        assert(a1[k] == "-c"@ && a1[k + 1] == name);
        let a2 = a1 + opt_arg("--profile"@, profile_choice(profile));
        assert(a2[k] == "-c"@ && a2[k + 1] == name);
        let a3 = a2 + (if no_password {
            seq!["--no-password"@]
        } else {
            opt_arg("--password"@, password)
        });
        assert(a3[k] == "-c"@ && a3[k + 1] == name);
        let a4 = a3 + pubkey_args(pubkeys);
        assert(a4[k] == "-c"@ && a4[k + 1] == name);
        let a5 = a4 + flag_arg("--sfx"@, sfx);
        assert(a5[k] == "-c"@ && a5[k + 1] == name);
        let a6 = a5 + opt_arg("--label"@, label);
        assert(a6[k] == "-c"@ && a6[k + 1] == name);
        let a7 = a6 + flag_arg("--progress"@, progress);
        assert(a7[k] == "-c"@ && a7[k + 1] == name);
        assert(a7 == pack_args_of(input, output, force, compression, profile, no_password, password, pubkeys, sfx, label, progress));
    }
}

/// `qsafe pack` is always called with the input, `-o` and the output first,
/// followed by `--force` exactly when overwriting was asked for.
pub proof fn lemma_pack_args_head(
    input: Seq<char>,
    output: Seq<char>,
    force: bool,
    compression: Option<Seq<char>>,
    profile: Option<Seq<char>>,
    no_password: bool,
    password: Option<Seq<char>>,
    pubkeys: Seq<Seq<char>>,
    sfx: bool,
    label: Option<Seq<char>>,
    progress: bool,
)
    ensures
        ({
            let args = pack_args_of(input, output, force, compression, profile, no_password, password, pubkeys, sfx, label, progress);
            &&& args.len() >= 4
            &&& args[0] == "pack"@ && args[1] == input && args[2] == "-o"@ && args[3] == output
            &&& force ==> args[4] == "--force"@
        }),
{
    let head = seq!["pack"@, input, "-o"@, output] + flag_arg("--force"@, force);
    let a1 = head + opt_arg("-c"@, compression_choice(compression));
    let a2 = a1 + opt_arg("--profile"@, profile_choice(profile));
    let a3 = a2 + (if no_password {
        seq!["--no-password"@]
    } else {
        opt_arg("--password"@, password)
    });
    let a4 = a3 + pubkey_args(pubkeys);
    let a5 = a4 + flag_arg("--sfx"@, sfx);
    let a6 = a5 + opt_arg("--label"@, label);
    let a7 = a6 + flag_arg("--progress"@, progress);
    assert(head[0] == "pack"@ && head[1] == input && head[2] == "-o"@ && head[3] == output);
    assert(force ==> head[4] == "--force"@);
    assert(a7[0] == head[0] && a7[1] == head[1] && a7[2] == head[2] && a7[3] == head[3]);
    assert(force ==> a7[4] == head[4]);
    assert(a7 == pack_args_of(input, output, force, compression, profile, no_password, password, pubkeys, sfx, label, progress));
}

/// Whether a string is one of two words, computed.
fn is_one_of(s: &str, a: &str, b: &str) -> (res: bool)
    ensures
        res == (s@ == a@ || s@ == b@),
{
    let sc = chars_of(s);
    let ac = chars_of(a);
    let bc = chars_of(b);
    crate::text::chars_equal(&sc, &ac) || crate::text::chars_equal(&sc, &bc)
}

/// Appends a copy of `s` to the argument list.
fn push_arg(args: &mut Vec<String>, s: &str)
    ensures
        views(final(args)@) == views(old(args)@).push(s@),
{
    let ghost before = views(args@);
    args.push(string_from_chars(&chars_of(s)));
    assert(views(args@) =~= before.push(s@));
}

/// Appends `flag` when `b`.
fn push_flag(args: &mut Vec<String>, flag: &str, b: bool)
    ensures
        views(final(args)@) == views(old(args)@) + flag_arg(flag@, b),
{
    let ghost before = views(args@);
    if b {
        push_arg(args, flag);
    }
    assert(views(args@) =~= before + flag_arg(flag@, b));
}

/// Appends `flag` and the value, when there is one.
fn push_opt(args: &mut Vec<String>, flag: &str, v: &Option<String>)
    ensures
        views(final(args)@) == views(old(args)@) + opt_arg(flag@, opt_view(*v)),
{
    let ghost before = views(args@);
    match v {
        Some(x) => {
            push_arg(args, flag);
            push_arg(args, x.as_str());
        },
        None => {},
    }
    assert(views(args@) =~= before + opt_arg(flag@, opt_view(*v)));
}

/// Appends the compression argument that is passed on.
fn push_compression(args: &mut Vec<String>, compression: &Option<String>)
    ensures
        views(final(args)@) == views(old(args)@) + opt_arg("-c"@, compression_choice(opt_view(*compression))),
{
    let ghost before = views(args@);
    let comp: &str = match compression {
        Some(c) => c.as_str(),
        None => "auto",
    };
    if is_one_of(comp, "none", "zstd") || is_one_of(comp, "auto", "auto") {
        push_arg(args, "-c");
        push_arg(args, comp);
    }
    assert(views(args@) =~= before + opt_arg("-c"@, compression_choice(opt_view(*compression))));
}

/// Appends the profile argument that is passed on.
fn push_profile(args: &mut Vec<String>, profile: &Option<String>)
    ensures
        views(final(args)@) == views(old(args)@) + opt_arg("--profile"@, profile_choice(opt_view(*profile))),
{
    let ghost before = views(args@);
    match profile {
        Some(p) => {
            if is_one_of(p.as_str(), "standard", "strong") {
                push_arg(args, "--profile");
                push_arg(args, p.as_str());
            }
        },
        None => {},
    }
    assert(views(args@) =~= before + opt_arg("--profile"@, profile_choice(opt_view(*profile))));
}

/// Appends `--pubkey` and each key.
fn push_pubkeys(args: &mut Vec<String>, pubkeys: &Vec<String>)
    ensures
        views(final(args)@) == views(old(args)@) + pubkey_args(views(pubkeys@)),
{
    let ghost before = views(args@);
    let mut i: usize = 0;
    assert(views(pubkeys@).take(0) =~= Seq::<Seq<char>>::empty());
    assert(before + pubkey_args(Seq::<Seq<char>>::empty()) =~= before);
    while i < pubkeys.len()
        invariant
            i <= pubkeys@.len(),
            views(args@) == before + pubkey_args(views(pubkeys@).take(i as int)),
        decreases pubkeys@.len() - i,
    {
        push_arg(args, "--pubkey");
        push_arg(args, pubkeys[i].as_str());
        proof {
            let ks = views(pubkeys@).take(i + 1);
            assert(ks.drop_last() =~= views(pubkeys@).take(i as int));
            assert(ks.last() == pubkeys@[i as int]@);
            assert(views(args@) =~= before + pubkey_args(ks));
        }
        i = i + 1;
    }
    assert(views(pubkeys@).take(pubkeys@.len() as int) =~= views(pubkeys@));
}

/// The arguments of `qsafe pack` that the application runs.
pub fn pack_args(
    input: &str,
    output: &str,
    force: bool,
    compression: &Option<String>,
    profile: &Option<String>,
    no_password: bool,
    password: &Option<String>,
    pubkeys: &Vec<String>,
    sfx: bool,
    label: &Option<String>,
    progress: bool,
) -> (res: Vec<String>)
    ensures
        views(res@) == pack_args_of(
            input@,
            output@,
            force,
            opt_view(*compression),
            opt_view(*profile),
            no_password,
            opt_view(*password),
            views(pubkeys@),
            sfx,
            opt_view(*label),
            progress,
        ),
{
    let mut args: Vec<String> = Vec::new();
    push_arg(&mut args, "pack");
    push_arg(&mut args, input);
    push_arg(&mut args, "-o");
    push_arg(&mut args, output);
    assert(views(args@) =~= seq!["pack"@, input@, "-o"@, output@]);
    push_flag(&mut args, "--force", force);
    push_compression(&mut args, compression);
    push_profile(&mut args, profile);
    let ghost a3 = views(args@);
    if no_password {
        push_arg(&mut args, "--no-password");
    } else {
        push_opt(&mut args, "--password", password);
    }
    assert(views(args@) =~= a3 + (if no_password {
        seq!["--no-password"@]
    } else {
        opt_arg("--password"@, opt_view(*password))
    }));
    push_pubkeys(&mut args, pubkeys);
    push_flag(&mut args, "--sfx", sfx);
    push_opt(&mut args, "--label", label);
    push_flag(&mut args, "--progress", progress);
    args
}

/// The arguments of `qsafe unpack`: input, output, `--progress`, then
/// `--force`, `--password` and `--identity` as asked.
pub open spec fn unpack_args_of(
    input: Seq<char>,
    output: Seq<char>,
    force: bool,
    password: Option<Seq<char>>,
    identity: Option<Seq<char>>,
) -> Seq<Seq<char>> {
    seq!["unpack"@, input, "-o"@, output, "--progress"@] + flag_arg("--force"@, force) + opt_arg(
        "--password"@,
        password,
    ) + opt_arg("--identity"@, identity)
}

/// The arguments of `qsafe unpack` that the application runs.
pub fn unpack_args(input: &str, output: &str, force: bool, password: &Option<String>, identity: &Option<String>) -> (res:
    Vec<String>)
    ensures
        views(res@) == unpack_args_of(input@, output@, force, opt_view(*password), opt_view(*identity)),
{
    let mut args: Vec<String> = Vec::new();
    push_arg(&mut args, "unpack");
    push_arg(&mut args, input);
    push_arg(&mut args, "-o");
    push_arg(&mut args, output);
    push_arg(&mut args, "--progress");
    assert(views(args@) =~= seq!["unpack"@, input@, "-o"@, output@, "--progress"@]);
    push_flag(&mut args, "--force", force);
    push_opt(&mut args, "--password", password);
    push_opt(&mut args, "--identity", identity);
    args
}

/// The text of an MD5 side file: the digest, two spaces, the file name of
/// the path (or the path), a newline.
pub fn md5_sidecar_text(md5: &str, path: &str) -> (res: String)
    ensures
        res@ == md5@ + "  "@ + (match file_name(path@) {
            Some(n) => n,
            None => path@,
        }) + "\n"@,
{
    let mut out: Vec<char> = Vec::new();
    push_str(&mut out, md5);
    push_str(&mut out, "  ");
    let b = crate::gui::basename_of(path);
    push_str(&mut out, b.as_str());
    push_str(&mut out, "\n");
    string_from_chars(&out)
}

/// The first whitespace-separated word of `s`, if any.
pub open spec fn first_word(s: Seq<char>) -> Option<Seq<char>> {
    let t = trim_start(s);
    if t.len() == 0 {
        None
    } else {
        Some(t.take(word_end(t)))
    }
}

/// The index of the first whitespace of `t` (its length when there is none).
pub open spec fn word_end(t: Seq<char>) -> int
    decreases t.len(),
{
    if t.len() == 0 {
        0
    } else if is_ws(t[0]) {
        0
    } else {
        1 + word_end(t.drop_first())
    }
}

/// The digest recorded in an MD5 side file: its first word.
pub fn sidecar_digest(text: &str) -> (res: Option<String>)
    ensures
        opt_view(res) == first_word(text@),
{
    let cs = chars_of(text);
    let n = cs.len();
    let mut i: usize = 0;
    assert(cs@.skip(0) =~= cs@);
    while i < n && crate::text::is_whitespace(cs[i])
        invariant
            i <= n == cs@.len(),
            trim_start(cs@) == trim_start(cs@.skip(i as int)),
        decreases n - i,
    {
        assert(cs@.skip(i as int).drop_first() =~= cs@.skip(i + 1));
        i = i + 1;
    }
    let ghost t = cs@.skip(i as int);
    assert(trim_start(t) == t);
    if i == n {
        return None;
    }
    let mut j: usize = i;
    let mut w: Vec<char> = Vec::new();
    while j < n && !crate::text::is_whitespace(cs[j])
        invariant
            i <= j <= n == cs@.len(),
            t == cs@.skip(i as int),
            w@ == cs@.subrange(i as int, j as int),
            word_end(t) == (j - i) + word_end(cs@.skip(j as int)),
        decreases n - j,
    {
        assert(cs@.skip(j as int).drop_first() =~= cs@.skip(j + 1));
        w.push(cs[j]);
        j = j + 1;
        assert(w@ =~= cs@.subrange(i as int, j as int));
    }
    assert(word_end(cs@.skip(j as int)) == 0);
    assert(w@ =~= t.take(word_end(t)));
    Some(string_from_chars(&w))
}

/// Whether the recorded digest is the one computed, without regard to case
/// (`str::to_lowercase` of both).
pub fn digests_match(recorded: &str, computed: &str) -> (res: bool)
    ensures
        res == (lowercase(recorded@) == lowercase(computed@)),
{
    let a = to_lowercase(recorded);
    let b = to_lowercase(computed);
    let ac = chars_of(a.as_str());
    let bc = chars_of(b.as_str());
    crate::text::chars_equal(&ac, &bc)
}

/// `md5` as it stands before the first whitespace of `md5 + rest`, when `md5`
/// has none.
proof fn lemma_word_end_prefix(m: Seq<char>, rest: Seq<char>)
    requires
        forall|i: int| 0 <= i < m.len() ==> !is_ws(#[trigger] m[i]),
    ensures
        word_end(m + rest) == m.len() + word_end(rest),
    decreases m.len(),
{
    if m.len() > 0 {
        assert((m + rest)[0] == m[0]);
        assert((m + rest).drop_first() =~= m.drop_first() + rest);
        lemma_word_end_prefix(m.drop_first(), rest);
    } else {
        assert(m + rest =~= rest);
    }
}

/// An MD5 side file gives back the digest written into it: the first word of
/// `md5_sidecar_text(md5, path)` is `md5`, for a digest that is not empty and
/// has no whitespace.
pub proof fn lemma_sidecar_roundtrip(md5: Seq<char>, name: Seq<char>)
    requires
        md5.len() > 0,
        forall|i: int| 0 <= i < md5.len() ==> !is_ws(#[trigger] md5[i]),
    ensures
        first_word(md5 + "  "@ + name + "\n"@) == Some(md5),
{
    reveal_strlit("  ");
    let rest = "  "@ + name + "\n"@;
    let s = md5 + "  "@ + name + "\n"@;
    assert(s =~= md5 + rest);
    assert(!is_ws(s[0]));
    assert(trim_start(s) == s);
    lemma_word_end_prefix(md5, rest);
    assert(rest[0] == ' ');
    assert(word_end(rest) == 0);
    assert(s.take(md5.len() as int) =~= md5);
}

/// Whether unpacked bytes are a POSIX tar image: `ustar` at offset 257 of
/// at least 265 bytes.
pub open spec fn is_tar_image_spec(head: Seq<u8>) -> bool {
    head.len() >= 265 && head.subrange(257, 262) == seq![117u8, 115u8, 116u8, 97u8, 114u8]
}

/// Whether unpacked bytes are a POSIX tar image.
pub fn is_tar_image(head: &[u8]) -> (res: bool)
    ensures
        res == is_tar_image_spec(head@),
{
    if head.len() < 265 {
        return false;
    }
    let r = head[257] == 117 && head[258] == 115 && head[259] == 116 && head[260] == 97 && head[261] == 114;
    proof {
        if r {
            assert(head@.subrange(257, 262) =~= seq![117u8, 115u8, 116u8, 97u8, 114u8]);
        } else {
            let s = head@.subrange(257, 262);
            assert(s[0] == head@[257] && s[1] == head@[258] && s[2] == head@[259] && s[3] == head@[260] && s[4]
                == head@[261]);
        }
    }
    r
}

/// The folder an unpacked tar image is extracted to, beside it: its stem for
/// a `.tar` file (or `extracted`), otherwise its name followed by `_extracted`.
pub open spec fn untar_dir_of(path: Seq<char>) -> Seq<char> {
    dir_part(path) + match file_name(path) {
        Some(n) => if split_ext(n).1 == Some("tar"@) {
            split_ext(n).0
        } else {
            n + "_extracted"@
        },
        None => "_extracted"@,
    }
}

/// The folder an unpacked tar image is extracted to.
pub fn untar_dir_for(path: &str) -> (res: String)
    ensures
        res@ == untar_dir_of(path@),
{
    let cs = chars_of(path);
    let (dir, name) = split_path(&cs);
    let mut out: Vec<char> = Vec::new();
    push_chars(&mut out, &dir);
    if is_file_name_exec(&name) {
        let (stem, ext) = split_ext_exec(&name);
        let is_tar = match &ext {
            Some(e) => crate::text::chars_equal(e, &chars_of("tar")),
            None => false,
        };
        if is_tar {
            push_chars(&mut out, &stem);
        } else {
            push_chars(&mut out, &name);
            push_str(&mut out, "_extracted");
        }
    } else {
        push_str(&mut out, "_extracted");
    }
    proof {
        reveal_strlit("tar");
    }
    assert(out@ =~= untar_dir_of(path@));
    string_from_chars(&out)
}

/// The name of a cipher suite.
pub open spec fn suite_text(s: CipherSuite) -> Seq<char> {
    match s {
        CipherSuite::V1Xchacha20Blake3 => "V1Xchacha20Blake3"@,
    }
}

/// The name of a cipher suite, as the application shows it.
pub fn suite_name(s: CipherSuite) -> (res: &'static str)
    ensures
        res@ == suite_text(s),
{
    match s {
        CipherSuite::V1Xchacha20Blake3 => "V1Xchacha20Blake3",
    }
}

/// The name of a compression (`None` for a stored payload).
pub open spec fn compression_text(c: CompressionAlgo) -> Seq<char> {
    match c {
        CompressionAlgo::Uncompressed => "None"@,
        CompressionAlgo::Zstd => "Zstd"@,
        CompressionAlgo::Bzip3 => "Bzip3"@,
    }
}

/// The name of a compression, as the application shows it.
pub fn compression_name(c: CompressionAlgo) -> (res: &'static str)
    ensures
        res@ == compression_text(c),
{
    match c {
        CompressionAlgo::Uncompressed => "None",
        CompressionAlgo::Zstd => "Zstd",
        CompressionAlgo::Bzip3 => "Bzip3",
    }
}

/// How the application names a recipient in the summary of a file.
pub open spec fn recipient_kind_of(r: Recipient) -> Seq<char> {
    match r {
        Recipient::Password(_) => "Password (Argon2id)"@,
        Recipient::Fido2(f) => "FIDO2 ("@ + (match f.label {
            Some(l) => l@,
            None => "unnamed"@,
        }) + ")"@,
        Recipient::Bip39(_) => "BIP39 종이 백업"@,
        Recipient::Pubkey(_) => "X25519+ML-KEM-768 (PQ)"@,
        Recipient::Timelock(_) => "Timelock"@,
        Recipient::ShamirCommitment(_) => "Shamir M-of-N"@,
    }
}

/// Names a recipient for the summary of a file.
pub fn recipient_kind(r: &Recipient) -> (res: String)
    ensures
        res@ == recipient_kind_of(*r),
{
    let mut out: Vec<char> = Vec::new();
    match r {
        Recipient::Password(_) => push_str(&mut out, "Password (Argon2id)"),
        Recipient::Fido2(f) => {
            push_str(&mut out, "FIDO2 (");
            match &f.label {
                Some(l) => push_str(&mut out, l.as_str()),
                None => push_str(&mut out, "unnamed"),
            }
            push_str(&mut out, ")");
        },
        Recipient::Bip39(_) => push_str(&mut out, "BIP39 종이 백업"),
        Recipient::Pubkey(_) => push_str(&mut out, "X25519+ML-KEM-768 (PQ)"),
        Recipient::Timelock(_) => push_str(&mut out, "Timelock"),
        Recipient::ShamirCommitment(_) => push_str(&mut out, "Shamir M-of-N"),
    }
    assert(out@ =~= recipient_kind_of(*r));
    string_from_chars(&out)
}

/// What the application shows of a qsafe file.
#[derive(Debug)]
pub struct QsafeInfo {
    pub path: String,
    pub size: u64,
    pub format: String,
    pub cipher_suite: Option<String>,
    pub compression: Option<String>,
    pub recipients: Vec<String>,
    pub original_size: u64,
    pub label: Option<String>,
    pub created_at_unix: i64,
}

/// The names of a header's recipients, in order.
pub open spec fn recipient_kinds(rs: Seq<Recipient>) -> Seq<Seq<char>> {
    Seq::new(rs.len(), |i: int| recipient_kind_of(rs[i]))
}

/// The summary of a qsafe file of `size` bytes at `path` whose header was
/// read.
pub fn qsafe_info_of(path: String, size: u64, header: &FileHeader) -> (res: QsafeInfo)
    ensures
        res.path@ == path@,
        res.size == size,
        res.format@ == "qsafe (.qs)"@,
        res.cipher_suite matches Some(c) && c@ == suite_text(header.suite),
        res.compression matches Some(c) && c@ == compression_text(header.compression),
        views(res.recipients@) == recipient_kinds(header.recipients@),
        res.original_size == header.original_size,
        res.label == header.label,
        res.created_at_unix == header.created_at_unix,
{
    let mut recipients: Vec<String> = Vec::new();
    let mut i: usize = 0;
    while i < header.recipients.len()
        invariant
            i <= header.recipients@.len(),
            recipients@.len() == i,
            forall|j: int| 0 <= j < i ==> #[trigger] recipients@[j]@ == recipient_kind_of(header.recipients@[j]),
        decreases header.recipients@.len() - i,
    {
        recipients.push(recipient_kind(&header.recipients[i]));
        i = i + 1;
    }
    assert(views(recipients@) =~= recipient_kinds(header.recipients@));
    let label = match &header.label {
        Some(l) => Some(l.clone()),
        None => None,
    };
    QsafeInfo {
        path,
        size,
        format: "qsafe (.qs)".to_string(),
        cipher_suite: Some(suite_name(header.suite).to_string()),
        compression: Some(compression_name(header.compression).to_string()),
        recipients,
        original_size: header.original_size,
        label,
        created_at_unix: header.created_at_unix,
    }
}

/// What the application shows of any file.
#[derive(Debug)]
pub struct FileInfo {
    pub path: String,
    pub size: u64,
    pub kind: String,
    pub header_summary: Option<String>,
}

/// The summary of a file of `size` bytes at `path` whose first bytes are
/// `head`; `header` is what reading it as a whole qsafe file gave, where it
/// starts with the qsafe magic. A file with the magic whose header could not
/// be read is a streaming qsafe file.
pub fn file_info_of(path: String, size: u64, head: &[u8], header: Option<&FileHeader>) -> (res: FileInfo)
    ensures
        res.path@ == path@,
        res.size == size,
        crate::cli::starts_with_magic(head@) ==> res.kind@ == "qsafe"@ && (match header {
            Some(h) => res.header_summary matches Some(s) && s@ == crate::text::dec_nat(h.recipients@.len())
                + " recipients · "@ + crate::text::dec_nat(h.original_size as nat) + " bytes original · suite="@
                + suite_text(h.suite),
            None => res.header_summary matches Some(s) && s@ == "qsafe streaming format"@,
        }),
        !crate::cli::starts_with_magic(head@) ==> res.kind@ == "plain"@ && res.header_summary is None,
{
    if crate::cli::has_qsafe_magic(head) {
        let summary = match header {
            Some(h) => crate::cli::header_summary(h.recipients.len(), h.original_size, h.suite),
            None => "qsafe streaming format".to_string(),
        };
        FileInfo { path, size, kind: "qsafe".to_string(), header_summary: Some(summary) }
    } else {
        FileInfo { path, size, kind: "plain".to_string(), header_summary: None }
    }
}

/// What deleting a path removed: the path, `file` or `directory`, the bytes
/// and the number of entries.
pub struct DeleteResult {
    pub deleted_path: String,
    pub kind: String,
    pub size_bytes: u64,
    pub item_count: u64,
}

/// The report of a deletion: `directory` for a directory, `file` otherwise.
pub fn delete_result(deleted_path: String, is_dir: bool, size_bytes: u64, item_count: u64) -> (r: DeleteResult)
    ensures
        r.deleted_path@ == deleted_path@,
        r.kind@ == (if is_dir { "directory"@ } else { "file"@ }),
        r.size_bytes == size_bytes,
        r.item_count == item_count,
{
    let kind = if is_dir {
        "directory".to_string()
    } else {
        "file".to_string()
    };
    DeleteResult { deleted_path, kind, size_bytes, item_count }
}

/// What unpacking produced: the output, its size, the folder a tar image was
/// unpacked into, and how many files that holds.
pub struct UnpackResult {
    pub output_path: String,
    pub bytes_written: u64,
    pub untarred_dir: Option<String>,
    pub file_count: u64,
}

/// What unpacking produced, with the MD5 computed of it, where that was
/// recorded, and how it compares with the MD5 recorded beside the input.
pub struct UnpackExtResult {
    pub output_path: String,
    pub bytes_written: u64,
    pub untarred_dir: Option<String>,
    pub file_count: u64,
    pub restored_md5: Option<String>,
    pub md5_file_path: Option<String>,
    pub original_md5_matches: Option<bool>,
    pub original_md5_value: Option<String>,
}

/// The extended report of an unpack: whether the MD5 recorded beside the input
/// matches the one computed of the output (ignoring case) is known only when
/// both are there.
pub fn unpack_ext_result(
    base: UnpackResult,
    restored_md5: Option<String>,
    md5_file_path: Option<String>,
    original_md5: Option<String>,
) -> (r: UnpackExtResult)
    ensures
        r.output_path@ == base.output_path@,
        r.bytes_written == base.bytes_written,
        r.untarred_dir == base.untarred_dir,
        r.file_count == base.file_count,
        r.restored_md5 == restored_md5,
        r.md5_file_path == md5_file_path,
        r.original_md5_value == original_md5,
        r.original_md5_matches == match (original_md5, restored_md5) {
            (Some(o), Some(c)) => Some(lowercase(o@) == lowercase(c@)),
            _ => None,
        },
{
    let matches = match (&original_md5, &restored_md5) {
        (Some(o), Some(c)) => Some(digests_match(o.as_str(), c.as_str())),
        _ => None,
    };
    UnpackExtResult {
        output_path: base.output_path,
        bytes_written: base.bytes_written,
        untarred_dir: base.untarred_dir,
        file_count: base.file_count,
        restored_md5,
        md5_file_path,
        original_md5_matches: matches,
        original_md5_value: original_md5,
    }
}

} // verus!
