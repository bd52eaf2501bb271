//! Security baseline: path-escape errors and log redaction.

use vstd::prelude::*;

use crate::text::{
    chars_of, chars_eq, copy_range, extend_chars, find_chars, find_from, join_chars, join_with, occurs_at_exec,
    push_text, starts_with, string_of, views, words, words_exec,
};

verus! {

/// Why a path was refused.
#[derive(Debug, PartialEq, Eq, Structural)]
pub enum SecurityError {
    RootNotExists,
    InvalidPath,
    EscapeAllowedRoot,
}

/// Width of a character in UTF-8, in bytes.
pub open spec fn utf8_width(c: char) -> nat {
    if (c as u32) < 0x80 {
        1
    } else if (c as u32) < 0x800 {
        2
    } else if (c as u32) < 0x10000 {
        3
    } else {
        4
    }
}

/// Length of a text in UTF-8 bytes.
pub open spec fn utf8_len(w: Seq<char>) -> nat
    decreases w.len(),
{
    if w.len() == 0 {
        0
    } else {
        utf8_width(w[0]) + utf8_len(w.drop_first())
    }
}

/// How many leading characters fit in `budget` bytes.
pub open spec fn fit_count(w: Seq<char>, budget: int) -> nat
    decreases w.len(),
{
    if w.len() == 0 || utf8_width(w[0]) > budget {
        0
    } else {
        1 + fit_count(w.drop_first(), budget - utf8_width(w[0]))
    }
}

pub open spec fn contains(w: Seq<char>, p: Seq<char>) -> bool {
    find_from(w, p, 0) is Some
}

pub open spec fn is_token_char(c: char) -> bool {
    ('a' <= c && c <= 'z') || ('A' <= c && c <= 'Z') || ('0' <= c && c <= '9') || c == '-' || c
        == '_'
}

/// Whether a word looks like a secret: an API-key or bearer prefix, a
/// credential word, or a long run of token characters.
pub open spec fn secret_like(w: Seq<char>) -> bool {
    ||| starts_with(w, "sk-"@)
    ||| starts_with(w, "Bearer "@)
    ||| contains(w, "api_key"@)
    ||| contains(w, "apikey"@)
    ||| contains(w, "password"@)
    ||| contains(w, "secret"@)
    ||| (w.len() >= 32 && forall|i: int| 0 <= i < w.len() ==> is_token_char(#[trigger] w[i]))
}

/// One word of a redacted log line: `***` for a secret, the first 120 bytes
/// and `…` for a longer word, the word itself otherwise.
pub open spec fn redact_word(w: Seq<char>) -> Seq<char> {
    if secret_like(w) {
        "***"@
    } else if utf8_len(w) > 120 {
        w.take(fit_count(w, 120) as int) + "…"@
    } else {
        w
    }
}

/// The redacted line: its words redacted one by one, joined by single spaces.
pub open spec fn redacted(s: Seq<char>) -> Seq<char> {
    join_with(words(s).map_values(|w: Seq<char>| redact_word(w)), " "@)
}

fn contains_lit(w: &[char], p: &str) -> (r: bool)
    ensures
        r == contains(w@, p@),
{
    let pv = chars_of(p);
    match find_chars(w, pv.as_slice(), 0) {
        Some(_) => true,
        None => false,
    }
}

fn starts_lit(w: &[char], p: &str) -> (r: bool)
    ensures
        r == starts_with(w@, p@),
{
    let pv = chars_of(p);
    occurs_at_exec(w, pv.as_slice(), 0)
}

/// Whether a word looks like a secret.
pub fn is_secret_like(w: &[char]) -> (r: bool)
    ensures
        r == secret_like(w@),
{
    if starts_lit(w, "sk-") || starts_lit(w, "Bearer ") || contains_lit(w, "api_key") || contains_lit(
        w,
        "apikey",
    ) || contains_lit(w, "password") || contains_lit(w, "secret") {
        return true;
    }
    if w.len() < 32 {
        return false;
    }
    let mut i: usize = 0;
    while i < w.len()
        invariant
            0 <= i <= w@.len(),
            w@.len() >= 32,
            !(starts_with(w@, "sk-"@) || starts_with(w@, "Bearer "@) || contains(w@, "api_key"@)
                || contains(w@, "apikey"@) || contains(w@, "password"@) || contains(w@, "secret"@)),
            forall|k: int| 0 <= k < i ==> is_token_char(#[trigger] w@[k]),
        decreases w@.len() - i,
    {
        let c = w[i];
        if !(('a' <= c && c <= 'z') || ('A' <= c && c <= 'Z') || ('0' <= c && c <= '9') || c == '-'
            || c == '_') {
            proof {
                assert(!is_token_char(w@[i as int]));
            }
            return false;
        }
        i = i + 1;
    }
    true
}

fn width_of(c: char) -> (r: usize)
    ensures
        r == utf8_width(c),
{
    if (c as u32) < 0x80 {
        1
    } else if (c as u32) < 0x800 {
        2
    } else if (c as u32) < 0x10000 {
        3
    } else {
        4
    }
}

/// UTF-8 length of a word, up to a cap (the exact length when below it).
fn utf8_len_capped(w: &[char], cap: usize) -> (r: usize)
    requires
        cap <= 1000,
    ensures
        r == (if utf8_len(w@) > cap {
            (cap + 1) as int
        } else {
            utf8_len(w@) as int
        }),
{
    let mut acc: usize = 0;
    let mut i: usize = 0;
    proof {
        assert(w@.skip(0) =~= w@);
    }
    while i < w.len()
        invariant
            cap <= 1000,
            0 <= i <= w@.len(),
            acc <= cap,
            utf8_len(w@) == acc + utf8_len(w@.skip(i as int)),
        decreases w@.len() - i,
    {
        proof {
            assert(w@.skip(i as int).drop_first() =~= w@.skip(i + 1));
        }
        acc = acc + width_of(w[i]);
        if acc > cap {
            return cap + 1;
        }
        i = i + 1;
    }
    acc
}

/// Number of leading characters that fit in `budget` bytes, and their length.
fn fit_prefix(w: &[char], budget: usize) -> (r: (usize, usize))
    requires
        budget <= 1000,
    ensures
        r.0 == fit_count(w@, budget as int),
        r.1 == utf8_len(w@.take(r.0 as int)),
        r.0 <= w@.len(),
{
    let mut i: usize = 0;
    let mut used: usize = 0;
    proof {
        assert(w@.skip(0) =~= w@);
        assert(w@.take(0) =~= seq![]);
    }
    while i < w.len() && width_of(w[i]) <= budget - used
        invariant
            budget <= 1000,
            0 <= i <= w@.len(),
            used <= budget,
            fit_count(w@, budget as int) == i + fit_count(w@.skip(i as int), budget - used),
            used == utf8_len(w@.take(i as int)),
        decreases w@.len() - i,
    {
        proof {
            assert(w@.skip(i as int).drop_first() =~= w@.skip(i + 1));
            lemma_utf8_len_push(w@.take(i as int), w@[i as int]);
            assert(w@.take(i + 1) =~= w@.take(i as int).push(w@[i as int]));
        }
        used = used + width_of(w[i]);
        i = i + 1;
    }
    (i, used)
}

proof fn lemma_utf8_len_push(w: Seq<char>, c: char)
    ensures
        utf8_len(w.push(c)) == utf8_len(w) + utf8_width(c),
    decreases w.len(),
{
    if w.len() > 0 {
        assert(w.push(c).drop_first() =~= w.drop_first().push(c));
        assert(w.push(c)[0] == w[0]);
        lemma_utf8_len_push(w.drop_first(), c);
    } else {
        assert(w.push(c).drop_first() =~= seq![]);
        assert(w.push(c)[0] == c);
        assert(utf8_len(seq![]) == 0);
    }
}

/// Redacts one word.
fn redact_one(w: &Vec<char>) -> (r: Vec<char>)
    ensures
        r@ == redact_word(w@),
{
    if is_secret_like(w.as_slice()) {
        return chars_of("***");
    }
    let n = utf8_len_capped(w.as_slice(), 120);
    if n > 120 {
        let (k, _used) = fit_prefix(w.as_slice(), 120);
        let mut out = copy_range(w.as_slice(), 0, k);
        let ell = chars_of("…");
        extend_chars(&mut out, ell.as_slice());
        out
    } else {
        copy_range(w.as_slice(), 0, w.len())
    }
}

/// Log redaction: the message split at whitespace, each word that looks like a
/// secret masked as `***`, each word over 120 bytes cut to its longest prefix
/// of at most 120 bytes that ends on a character boundary and marked `…`, the
/// words joined by single spaces.
pub fn redact_log(msg: &str) -> (r: String)
    ensures
        r@ == redacted(msg@),
{
    let cs = chars_of(msg);
    let ws = words_exec(cs.as_slice());
    let ghost wv = words(msg@);
    let mut out: Vec<Vec<char>> = Vec::new();
    let mut i: usize = 0;
    while i < ws.len()
        invariant
            views(ws@) == wv,
            wv == words(msg@),
            0 <= i <= ws@.len(),
            views(out@) == wv.take(i as int).map_values(|w: Seq<char>| redact_word(w)),
        decreases ws@.len() - i,
    {
        proof {
            assert(wv[i as int] == ws@[i as int]@);
        }
        let rw = redact_one(&ws[i]);
        let ghost before = out@;
        out.push(rw);
        proof {
            assert(views(out@) =~= views(before).push(rw@));
            assert(wv.take(i + 1).map_values(|w: Seq<char>| redact_word(w)) =~= wv.take(i as int).map_values(
                |w: Seq<char>| redact_word(w),
            ).push(redact_word(wv[i as int])));
        }
        i = i + 1;
    }
    proof {
        assert(wv.take(ws@.len() as int) =~= wv);
        assert(views(out@) == out@.map_values(|v: Vec<char>| v@));
    }
    let sp = chars_of(" ");
    let joined = join_chars(&out, sp.as_slice());
    string_of(joined.as_slice())
}

proof fn lemma_occurs_in_cut(w: Seq<char>, k: int, e: Seq<char>, p: Seq<char>, i: int)
    requires
        0 <= k <= w.len(),
        e == "…"@,
        p.len() > 0,
        forall|j: int| 0 <= j < p.len() ==> p[j] != '…',
        crate::text::occurs_at(w.take(k) + e, p, i),
    ensures
        crate::text::occurs_at(w, p, i),
{
    reveal_strlit("…");
    let r = w.take(k) + e;
    if i + p.len() > k {
        let j = k - i;
        assert(0 <= j < p.len());
        assert(r.subrange(i, i + p.len())[j] == r[k]);
        assert(r[k] == '…');
    }
    assert forall|j: int| 0 <= j < p.len() implies w.subrange(i, i + p.len())[j] == p[j] by {
        assert(r.subrange(i, i + p.len())[j] == r[i + j]);
        assert(r[i + j] == w[i + j]);
    }
    assert(w.subrange(i, i + p.len()) =~= p);
}

proof fn lemma_contains_cut(w: Seq<char>, k: int, e: Seq<char>, p: Seq<char>)
    requires
        0 <= k <= w.len(),
        e == "…"@,
        p.len() > 0,
        forall|j: int| 0 <= j < p.len() ==> p[j] != '…',
        contains(w.take(k) + e, p),
    ensures
        contains(w, p),
{
    crate::text::lemma_find_from(w.take(k) + e, p, 0);
    crate::text::lemma_find_from(w, p, 0);
    let i = (find_from(w.take(k) + e, p, 0))->Some_0;
    lemma_occurs_in_cut(w, k, e, p, i);
}

/// Law: no word of a redacted line looks like a secret, except the mask itself.
pub proof fn lemma_redacted_words_not_secret(w: Seq<char>)
    ensures
        redact_word(w) == "***"@ || !secret_like(redact_word(w)),
{
    reveal_strlit("…");
    reveal_strlit("sk-");
    reveal_strlit("Bearer ");
    reveal_strlit("api_key");
    reveal_strlit("apikey");
    reveal_strlit("password");
    reveal_strlit("secret");
    if !secret_like(w) && utf8_len(w) > 120 {
        let k = fit_count(w, 120) as int;
        lemma_fit_count_le(w, 120);
        let e = "…"@;
        let r = w.take(k) + e;
        if starts_with(r, "sk-"@) {
            lemma_occurs_in_cut(w, k, e, "sk-"@, 0);
        }
        if starts_with(r, "Bearer "@) {
            lemma_occurs_in_cut(w, k, e, "Bearer "@, 0);
        }
        if contains(r, "api_key"@) {
            lemma_contains_cut(w, k, e, "api_key"@);
        }
        if contains(r, "apikey"@) {
            lemma_contains_cut(w, k, e, "apikey"@);
        }
        if contains(r, "password"@) {
            lemma_contains_cut(w, k, e, "password"@);
        }
        if contains(r, "secret"@) {
            lemma_contains_cut(w, k, e, "secret"@);
        }
        assert(r[k] == '…');
        assert(!is_token_char(r[k]));
    }
}

proof fn lemma_fit_count_le(w: Seq<char>, budget: int)
    ensures
        fit_count(w, budget) <= w.len(),
    decreases w.len(),
{
    if w.len() > 0 && utf8_width(w[0]) <= budget {
        lemma_fit_count_le(w.drop_first(), budget - utf8_width(w[0]));
    }
}

/// What `std::path::Path::join` gives, on the target the library is built
/// for, for a path joined onto a directory (an absolute path replaces the
/// directory), as text.
pub uninterp spec fn path_joined(dir: Seq<char>, path: Seq<char>) -> Seq<char>;

/// What `std::path::Path::starts_with` says, on the target the library is
/// built for, of a path and a base: whether the base's components are the
/// path's leading components.
pub uninterp spec fn path_within(path: Seq<char>, base: Seq<char>) -> bool;

/// `Path::new(dir).join(path)`, turned back into text with `to_string_lossy`
/// (both are valid UTF-8, so nothing is replaced). Claims that the result is
/// `path_joined` of the two.
#[verifier::external_body]
fn path_join(dir: &str, path: &str) -> (r: String)
    ensures
        r@ == path_joined(dir@, path@),
{
    std::path::Path::new(dir).join(path).to_string_lossy().into_owned()
}

/// `Path::new(path).starts_with(base)`. Claims that the result is
/// `path_within` of the two, and that a path starts with itself (equal
/// texts have equal components).
#[verifier::external_body]
fn path_starts_with(path: &str, base: &str) -> (r: bool)
    ensures
        r == path_within(path@, base@),
        path@ == base@ ==> r,
{
    std::path::Path::new(path).starts_with(base)
}

/// The path to resolve for a path given under an allowed root: the path
/// joined onto the canonical root (an absolute path stands for itself).
pub fn target_path(root_canon: &str, path: &str) -> (r: String)
    ensures
        r@ == path_joined(root_canon@, path@),
{
    path_join(root_canon, path)
}

/// The verdict on a path resolved under an allowed root, from the canonical
/// root (none: the root does not exist) and the canonical joined path (none:
/// it does not resolve): the path, unless it escapes the root.
pub fn canonicalize_safe(root_canon: Option<String>, target_canon: Option<String>) -> (r: Result<String, SecurityError>)
    ensures
        match root_canon {
            None => r matches Err(SecurityError::RootNotExists),
            Some(root) => match target_canon {
                None => r matches Err(SecurityError::InvalidPath),
                Some(t) => if path_within(t@, root@) {
                    r matches Ok(p) && p@ == t@
                } else {
                    r matches Err(SecurityError::EscapeAllowedRoot)
                },
            },
        },
        (root_canon matches Some(rt) && target_canon matches Some(t) && t@ == rt@) ==> r is Ok,
{
    match root_canon {
        None => Err(SecurityError::RootNotExists),
        Some(root) => match target_canon {
            None => Err(SecurityError::InvalidPath),
            Some(t) => {
                if path_starts_with(t.as_str(), root.as_str()) {
                    Ok(t)
                } else {
                    Err(SecurityError::EscapeAllowedRoot)
                }
            },
        },
    }
}

} // verus!
