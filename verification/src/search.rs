//! Hybrid search: query planning, reciprocal-rank fusion of the full-text and
//! vector rankings, and highlighted snippets.

use vstd::prelude::*;

use crate::index::EMBEDDING_DIM;
use crate::tokenize::{cut_search, cut_search_text, Tokenizer};
use crate::text::{
    chars_eq, chars_of_all, join_chars, join_with, strings_of, string_views, trim, trim_string, views, words, words_exec,
    chars_of, copy_range, extend_chars, find_chars, find_from, lemma_find_from, occurs_at, occurs_at_exec,
    string_of, ascii_lower, lower_char, to_lower_char,
};

verus! {

/// Search mode.
#[derive(Debug, Clone, Copy, PartialEq, Eq, Structural)]
pub enum SearchMode {
    /// Full-text only (always available).
    Keyword,
    /// Vector only (needs a query vector).
    Semantic,
    /// Full-text and vector, fused.
    Hybrid,
}

impl Default for SearchMode {
    fn default() -> (r: Self)
        ensures
            r == SearchMode::Hybrid,
    {
        SearchMode::Hybrid
    }
}

/// Most characters of a snippet window.
pub const SNIPPET_MAX: usize = 160;

/// HTML escape of one character.
pub open spec fn escape_char(c: char) -> Seq<char> {
    if c == '&' {
        "&amp;"@
    } else if c == '<' {
        "&lt;"@
    } else if c == '>' {
        "&gt;"@
    } else if c == '"' {
        "&quot;"@
    } else if c == '\'' {
        "&#39;"@
    } else {
        seq![c]
    }
}

/// HTML escape of a text.
pub open spec fn escape(s: Seq<char>) -> Seq<char>
    decreases s.len(),
{
    if s.len() == 0 {
        seq![]
    } else {
        escape(s.drop_last()) + escape_char(s.last())
    }
}

/// HTML-escapes `& < > " '`.
pub fn escape_html(s: &[char]) -> (r: Vec<char>)
    ensures
        r@ == escape(s@),
{
    let amp = chars_of("&amp;");
    let lt = chars_of("&lt;");
    let gt = chars_of("&gt;");
    let quot = chars_of("&quot;");
    let apos = chars_of("&#39;");
    let mut out: Vec<char> = Vec::new();
    let mut i: usize = 0;
    while i < s.len()
        invariant
            0 <= i <= s@.len(),
            amp@ == "&amp;"@,
            lt@ == "&lt;"@,
            gt@ == "&gt;"@,
            quot@ == "&quot;"@,
            apos@ == "&#39;"@,
            out@ == escape(s@.take(i as int)),
        decreases s@.len() - i,
    {
        let c = s[i];
        if c == '&' {
            extend_chars(&mut out, amp.as_slice());
        } else if c == '<' {
            extend_chars(&mut out, lt.as_slice());
        } else if c == '>' {
            extend_chars(&mut out, gt.as_slice());
        } else if c == '"' {
            extend_chars(&mut out, quot.as_slice());
        } else if c == '\'' {
            extend_chars(&mut out, apos.as_slice());
        } else {
            out.push(c);
        }
        proof {
            assert(s@.take(i + 1).drop_last() =~= s@.take(i as int));
            assert(s@.take(i + 1).last() == c);
            assert(out@ =~= escape(s@.take(i + 1)));
        }
        i = i + 1;
    }
    proof {
        assert(s@.take(s@.len() as int) =~= s@);
    }
    out
}

/// `s` from position `i` with every occurrence of `t`, ignoring ASCII case,
/// wrapped in `<mark>…</mark>`, left to right, without overlaps; the marked
/// text keeps the case it has in `s`.
pub open spec fn highlight_from(s: Seq<char>, t: Seq<char>, i: int) -> Seq<char>
    decreases s.len() - i,
{
    if i < 0 || i >= s.len() {
        seq![]
    } else if t.len() > 0 && occurs_at(ascii_lower(s), ascii_lower(t), i) {
        "<mark>"@ + s.subrange(i, i + t.len()) + "</mark>"@ + highlight_from(s, t, i + t.len())
    } else {
        seq![s[i]] + highlight_from(s, t, i + 1)
    }
}

/// Every occurrence of `t` in `s`, ignoring ASCII case, wrapped in
/// `<mark>…</mark>` (`s` unchanged for empty `t`).
pub open spec fn highlight(s: Seq<char>, t: Seq<char>) -> Seq<char> {
    if t.len() == 0 {
        s
    } else {
        highlight_from(s, t, 0)
    }
}

fn lower_slice(s: &[char]) -> (v: Vec<char>)
    ensures
        v@ == ascii_lower(s@),
{
    let mut v: Vec<char> = Vec::new();
    let mut i: usize = 0;
    while i < s.len()
        invariant
            0 <= i <= s@.len(),
            v@ == ascii_lower(s@.take(i as int)),
        decreases s@.len() - i,
    {
        v.push(to_lower_char(s[i]));
        proof {
            assert(ascii_lower(s@.take(i + 1)) =~= ascii_lower(s@.take(i as int)).push(lower_char(s@[i as int])));
        }
        i = i + 1;
    }
    proof {
        assert(s@.take(s@.len() as int) =~= s@);
    }
    v
}

/// Wraps the occurrences of the escaped term in `<mark>`, ignoring ASCII case
/// and keeping the text's own case inside the mark.
pub fn highlight_in_escaped(s: &[char], term: &[char]) -> (r: Vec<char>)
    ensures
        r@ == highlight(s@, term@),
{
    if term.len() == 0 {
        return copy_range(s, 0, s.len());
    }
    let open = chars_of("<mark>");
    let close = chars_of("</mark>");
    let ls = lower_slice(s);
    let lt = lower_slice(term);
    let n = s.len();
    let mut out: Vec<char> = Vec::new();
    let mut i: usize = 0;
    while i < n
        invariant
            n == s@.len(),
            i <= n,
            term@.len() > 0,
            ls@ == ascii_lower(s@),
            lt@ == ascii_lower(term@),
            open@ == "<mark>"@,
            close@ == "</mark>"@,
            out@ + highlight_from(s@, term@, i as int) == highlight_from(s@, term@, 0),
        decreases n - i,
    {
        if occurs_at_exec(ls.as_slice(), lt.as_slice(), i) {
            let ghost before = out@;
            let e = i + lt.len();
            let piece = copy_range(s, i, e);
            extend_chars(&mut out, open.as_slice());
            extend_chars(&mut out, piece.as_slice());
            extend_chars(&mut out, close.as_slice());
            proof {
                assert(out@ + highlight_from(s@, term@, i + term@.len()) =~= before + highlight_from(
                    s@,
                    term@,
                    i as int,
                ));
            }
            i = e;
        } else {
            let ghost before = out@;
            out.push(s[i]);
            proof {
                assert(out@ + highlight_from(s@, term@, i + 1) =~= before + highlight_from(s@, term@, i as int));
            }
            i = i + 1;
        }
    }
    proof {
        assert(out@ + highlight_from(s@, term@, i as int) =~= out@);
    }
    out
}

/// First position of `needle` in `hay`; none for an empty or longer needle.
pub open spec fn find_sub(hay: Seq<char>, needle: Seq<char>) -> Option<int> {
    if needle.len() == 0 || needle.len() > hay.len() {
        None
    } else {
        find_from(hay, needle, 0)
    }
}

pub fn find_subslice(hay: &[char], needle: &[char]) -> (r: Option<usize>)
    ensures
        match find_sub(hay@, needle@) {
            Some(k) => r matches Some(j) && j as int == k,
            None => r is None,
        },
{
    if needle.len() == 0 || needle.len() > hay.len() {
        return None;
    }
    find_chars(hay, needle, 0)
}


/// What Unicode lower-casing (`str::to_lowercase`) makes of a text.
pub uninterp spec fn unicode_lower(s: Seq<char>) -> Seq<char>;

/// Unicode lower-case copy of a text: calls `str::to_lowercase`; the result is
/// named, not stated.
#[verifier::external_body]
pub(crate) fn to_lowercase(s: &str) -> (r: String)
    ensures
        r@ == unicode_lower(s@),
{
    s.to_lowercase()
}

/// The highlight terms kept for a snippet (those whose lower-case form is not
/// empty), each with that lower-case form.
pub open spec fn kept_terms(terms: Seq<Seq<char>>) -> Seq<(Seq<char>, Seq<char>)>
    decreases terms.len(),
{
    if terms.len() == 0 {
        seq![]
    } else {
        let prev = kept_terms(terms.drop_last());
        let lc = unicode_lower(terms.last());
        if lc.len() == 0 {
            prev
        } else {
            prev.push((terms.last(), lc))
        }
    }
}

/// Earliest position of any kept term in the lower-cased content.
pub open spec fn best_pos(lower: Seq<char>, kept: Seq<(Seq<char>, Seq<char>)>) -> Option<int>
    decreases kept.len(),
{
    if kept.len() == 0 {
        None
    } else {
        let prev = best_pos(lower, kept.drop_last());
        match find_sub(lower, kept.last().1) {
            Some(p) => match prev {
                Some(b) => Some(if p < b {
                    p
                } else {
                    b
                }),
                None => Some(p),
            },
            None => prev,
        }
    }
}

/// Every highlight term is marked: with one more term, the window is the
/// window marked for the terms before it, then marked for that term too
/// (every occurrence of its escaped form).
pub proof fn lemma_highlight_every_term(s: Seq<char>, kept: Seq<(Seq<char>, Seq<char>)>, t: (Seq<char>, Seq<char>))
    ensures
        highlight_all(s, kept.push(t)) == highlight(highlight_all(s, kept), escape(t.0)),
        highlight_all(s, seq![t]) == highlight(s, escape(t.0)),
{
    assert(kept.push(t).drop_last() =~= kept);
    assert(kept.push(t).last() == t);
    assert(seq![t].drop_last() =~= Seq::<(Seq<char>, Seq<char>)>::empty());
    assert(seq![t].last() == t);
    assert(highlight_all(s, Seq::<(Seq<char>, Seq<char>)>::empty()) == s);
}

/// A term is marked where it stands: a text that is the term itself (in any
/// ASCII case) comes back wrapped in one mark, keeping its own case.
pub proof fn lemma_highlight_whole_term(s: Seq<char>, t: Seq<char>)
    requires
        t.len() > 0,
        s.len() == t.len(),
        ascii_lower(s) == ascii_lower(t),
    ensures
        highlight(s, t) == "<mark>"@ + s + "</mark>"@,
{
    assert(ascii_lower(s).subrange(0, t.len() as int) =~= ascii_lower(s));
    assert(occurs_at(ascii_lower(s), ascii_lower(t), 0));
    assert(s.subrange(0, t.len() as int) =~= s);
    assert(highlight_from(s, t, t.len() as int) == Seq::<char>::empty());
    assert("<mark>"@ + s + "</mark>"@ + Seq::<char>::empty() =~= "<mark>"@ + s + "</mark>"@);
}

/// Length (in the lower-cased content) of the term found at `best_pos`: the
/// first kept term found at that position; 0 without a hit.
pub open spec fn best_len(lower: Seq<char>, kept: Seq<(Seq<char>, Seq<char>)>) -> int
    decreases kept.len(),
{
    if kept.len() == 0 {
        0
    } else {
        let prev = best_pos(lower, kept.drop_last());
        match find_sub(lower, kept.last().1) {
            Some(p) => match prev {
                Some(b) => if p < b {
                    kept.last().1.len() as int
                } else {
                    best_len(lower, kept.drop_last())
                },
                None => kept.last().1.len() as int,
            },
            None => best_len(lower, kept.drop_last()),
        }
    }
}

/// The escaped window with every kept term highlighted, one term after another.
pub open spec fn highlight_all(s: Seq<char>, kept: Seq<(Seq<char>, Seq<char>)>) -> Seq<char>
    decreases kept.len(),
{
    if kept.len() == 0 {
        s
    } else {
        highlight(highlight_all(s, kept.drop_last()), escape(kept.last().0))
    }
}

/// Where a snippet window starts: 40 characters before the first hit, or
/// later where a long hit would not end within `SNIPPET_MAX` characters of
/// that start (at the hit itself when it is longer than `SNIPPET_MAX`).
pub open spec fn window_start(content: Seq<char>, terms: Seq<Seq<char>>) -> int {
    let lower = unicode_lower(content);
    let kept = kept_terms(terms);
    let h = match best_pos(lower, kept) {
        Some(p) => p,
        None => 0,
    };
    let l = best_len(lower, kept);
    let s0 = if h >= SNIPPET_MAX / 4 {
        h - SNIPPET_MAX / 4
    } else {
        0
    };
    if h + l <= s0 + SNIPPET_MAX {
        s0
    } else if l <= SNIPPET_MAX {
        h + l - SNIPPET_MAX
    } else {
        h
    }
}

/// Where a snippet window ends: `SNIPPET_MAX` characters after its start, at
/// most the end.
pub open spec fn window_end(content: Seq<char>, terms: Seq<Seq<char>>) -> int {
    let s = window_start(content, terms);
    if s + SNIPPET_MAX < content.len() {
        s + SNIPPET_MAX
    } else {
        content.len() as int
    }
}

proof fn lemma_best_nonneg(lower: Seq<char>, kept: Seq<(Seq<char>, Seq<char>)>)
    ensures
        best_len(lower, kept) >= 0,
        best_pos(lower, kept) matches Some(p) ==> p >= 0,
    decreases kept.len(),
{
    if kept.len() > 0 {
        lemma_best_nonneg(lower, kept.drop_last());
        lemma_find_from(lower, kept.last().1, 0);
    }
}

/// The snippet window holds the whole first hit when the hit fits in
/// `SNIPPET_MAX` characters and lies within the content.
pub proof fn lemma_snippet_window_holds_hit(content: Seq<char>, terms: Seq<Seq<char>>, h: int)
    requires
        best_pos(unicode_lower(content), kept_terms(terms)) == Some(h),
        best_len(unicode_lower(content), kept_terms(terms)) <= SNIPPET_MAX,
        h + best_len(unicode_lower(content), kept_terms(terms)) <= content.len(),
    ensures
        window_start(content, terms) <= h,
        h + best_len(unicode_lower(content), kept_terms(terms)) <= window_end(content, terms),
{
    lemma_best_nonneg(unicode_lower(content), kept_terms(terms));
}

/// A snippet window holds at most `SNIPPET_MAX` characters of the content.
pub proof fn lemma_snippet_window_bounded(content: Seq<char>, terms: Seq<Seq<char>>)
    ensures
        window_end(content, terms) - window_start(content, terms) <= SNIPPET_MAX,
        0 <= window_start(content, terms),
{
    lemma_best_nonneg(unicode_lower(content), kept_terms(terms));
}

/// The snippet window is a valid range of the content (lower-casing can make
/// the text longer, so a hit may lie past its end).
pub open spec fn snippet_window_ok(content: Seq<char>, terms: Seq<Seq<char>>) -> bool {
    window_start(content, terms) <= window_end(content, terms)
}

/// The snippet of a content for some terms: a window around the first hit,
/// HTML-escaped, every term highlighted with `<mark>`, `…` where cut.
pub open spec fn snippet_text(content: Seq<char>, terms: Seq<Seq<char>>) -> Seq<char> {
    if content.len() == 0 {
        seq![]
    } else {
        let s = window_start(content, terms);
        let e = window_end(content, terms);
        let body = highlight_all(escape(content.subrange(s, e)), kept_terms(terms));
        (if s > 0 {
            "…"@
        } else {
            seq![]
        }) + body + (if e < content.len() {
            "…"@
        } else {
            seq![]
        })
    }
}

fn lower_terms(terms: &Vec<String>) -> (r: (Vec<Vec<char>>, Vec<Vec<char>>))
    ensures
        r.0@.len() == r.1@.len(),
        r.0@.len() == kept_terms(terms@.map_values(|t: String| t@)).len(),
        forall|i: int|
            0 <= i < r.0@.len() ==> (#[trigger] r.0@[i])@ == kept_terms(terms@.map_values(|t: String| t@))[i].0
                && r.1@[i]@ == kept_terms(terms@.map_values(|t: String| t@))[i].1,
{
    let ghost tv = terms@.map_values(|t: String| t@);
    let mut orig: Vec<Vec<char>> = Vec::new();
    let mut low: Vec<Vec<char>> = Vec::new();
    let mut i: usize = 0;
    while i < terms.len()
        invariant
            0 <= i <= terms@.len(),
            tv == terms@.map_values(|t: String| t@),
            orig@.len() == low@.len(),
            orig@.len() == kept_terms(tv.take(i as int)).len(),
            forall|k: int|
                0 <= k < orig@.len() ==> (#[trigger] orig@[k])@ == kept_terms(tv.take(i as int))[k].0
                    && low@[k]@ == kept_terms(tv.take(i as int))[k].1,
        decreases terms@.len() - i,
    {
        let lc = to_lowercase(terms[i].as_str());
        let lcv = chars_of(lc.as_str());
        proof {
            assert(tv.take(i + 1).drop_last() =~= tv.take(i as int));
            assert(tv.take(i + 1).last() == terms@[i as int]@);
        }
        if lcv.len() > 0 {
            orig.push(chars_of(terms[i].as_str()));
            low.push(lcv);
        }
        i = i + 1;
    }
    proof {
        assert(tv.take(terms@.len() as int) =~= tv);
    }
    (orig, low)
}

/// Builds the snippet of a content for some highlight terms; `None` when the
/// window around the first hit is no valid range of the content (a hit found
/// past its end, as lower-casing can lengthen a text).
pub fn make_snippet(content: &str, terms: &Vec<String>) -> (r: Option<String>)
    ensures
        content@.len() == 0 ==> (r matches Some(t) && t@.len() == 0),
        content@.len() > 0 ==> (snippet_window_ok(content@, terms@.map_values(|t: String| t@)) <==> r is Some),
        r matches Some(t) ==> t@ == snippet_text(content@, terms@.map_values(|t: String| t@)),
{
    let ghost tv = terms@.map_values(|t: String| t@);
    let chars = chars_of(content);
    if chars.len() == 0 {
        return Some(String::new());
    }
    let lower_s = to_lowercase(content);
    let lower = chars_of(lower_s.as_str());
    let (orig, low) = lower_terms(terms);
    let ghost kept = kept_terms(tv);
    proof {
        assert forall|j: int| 0 <= j < low@.len() implies (#[trigger] low@[j])@ == kept[j].1
            && orig@[j]@ == kept[j].0 by {
            assert(orig@[j]@ == kept[j].0);
        }
    }
    let mut best: Option<usize> = None;
    let mut best_l: usize = 0;
    let mut k: usize = 0;
    while k < low.len()
        invariant
            0 <= k <= low@.len(),
            orig@.len() == low@.len(),
            low@.len() == kept.len(),
            forall|j: int| 0 <= j < low@.len() ==> (#[trigger] low@[j])@ == kept[j].1,
            match best_pos(lower@, kept.take(k as int)) {
                Some(p) => best matches Some(b) && b as int == p,
                None => best is None,
            },
            best_l as int == best_len(lower@, kept.take(k as int)),
        decreases low@.len() - k,
    {
        proof {
            assert(kept.take(k + 1).drop_last() =~= kept.take(k as int));
            assert(kept.take(k + 1).last() == kept[k as int]);
        }
        match find_subslice(lower.as_slice(), low[k].as_slice()) {
            Some(p) => {
                match best {
                    Some(b) => {
                        if p < b {
                            best = Some(p);
                            best_l = low[k].len();
                        }
                    },
                    None => {
                        best = Some(p);
                        best_l = low[k].len();
                    },
                }
            },
            None => {},
        }
        k = k + 1;
    }
    proof {
        assert(kept.take(low@.len() as int) =~= kept);
    }
    let start: usize = match best {
        Some(b) => b,
        None => 0,
    };
    let s0: usize = if start >= SNIPPET_MAX / 4 {
        start - SNIPPET_MAX / 4
    } else {
        0
    };
    let room: usize = SNIPPET_MAX - (start - s0);
    let s: usize = if best_l <= room {
        s0
    } else if best_l <= SNIPPET_MAX {
        start - (SNIPPET_MAX - best_l)
    } else {
        start
    };
    let e: usize = if s < chars.len() && SNIPPET_MAX < chars.len() - s {
        s + SNIPPET_MAX
    } else {
        chars.len()
    };
    if s > e {
        return None;
    }
    let slice = copy_range(chars.as_slice(), s, e);
    let mut out = escape_html(slice.as_slice());
    let mut j: usize = 0;
    proof {
        assert(kept.take(0) =~= seq![]);
    }
    while j < orig.len()
        invariant
            0 <= j <= orig@.len(),
            orig@.len() == kept.len(),
            forall|m: int| 0 <= m < orig@.len() ==> (#[trigger] orig@[m])@ == kept[m].0,
            out@ == highlight_all(escape(chars@.subrange(s as int, e as int)), kept.take(j as int)),
        decreases orig@.len() - j,
    {
        let et = escape_html(orig[j].as_slice());
        out = highlight_in_escaped(out.as_slice(), et.as_slice());
        proof {
            assert(kept.take(j + 1).drop_last() =~= kept.take(j as int));
            assert(kept.take(j + 1).last() == kept[j as int]);
        }
        j = j + 1;
    }
    proof {
        assert(kept.take(orig@.len() as int) =~= kept);
    }
    let mut res: Vec<char> = Vec::new();
    if s > 0 {
        res = chars_of("…");
    }
    extend_chars(&mut res, out.as_slice());
    if e < chars.len() {
        let ell = chars_of("…");
        extend_chars(&mut res, ell.as_slice());
    }
    proof {
        if s > 0 {
            assert(res@ =~= snippet_text(content@, tv));
        } else {
            assert(res@ =~= snippet_text(content@, tv));
        }
    }
    Some(string_of(res.as_slice()))
}


/// The reciprocal-rank-fusion constant.
pub const RRF_K: u64 = 60;

/// The list without repeated ids, first occurrences kept in order.
pub open spec fn dedup(s: Seq<i64>) -> Seq<i64>
    decreases s.len(),
{
    if s.len() == 0 {
        seq![]
    } else {
        let prev = dedup(s.drop_last());
        if prev.contains(s.last()) {
            prev
        } else {
            prev.push(s.last())
        }
    }
}

pub open spec fn distinct(s: Seq<i64>) -> bool {
    forall|i: int, j: int| 0 <= i < j < s.len() ==> s[i] != s[j]
}

pub proof fn lemma_dedup(s: Seq<i64>)
    ensures
        distinct(dedup(s)),
        forall|x: i64| dedup(s).contains(x) <==> s.contains(x),
    decreases s.len(),
{
    if s.len() > 0 {
        let init = s.drop_last();
        lemma_dedup(init);
        let prev = dedup(init);
        assert forall|x: i64| dedup(s).contains(x) <==> s.contains(x) by {
            if s.contains(x) {
                let k = choose|k: int| 0 <= k < s.len() && s[k] == x;
                if k < s.len() - 1 {
                    assert(init[k] == x);
                    assert(init.contains(x));
                }
            }
            if init.contains(x) {
                let k = choose|k: int| 0 <= k < init.len() && init[k] == x;
                assert(s[k] == x);
            }
            if x == s.last() {
                assert(s[s.len() - 1] == x);
            }
            if !prev.contains(s.last()) {
                let p2 = prev.push(s.last());
                if p2.contains(x) {
                    let k = choose|k: int| 0 <= k < p2.len() && p2[k] == x;
                    if k < prev.len() {
                        assert(prev[k] == x);
                    }
                }
                if prev.contains(x) {
                    let k = choose|k: int| 0 <= k < prev.len() && prev[k] == x;
                    assert(p2[k] == x);
                }
                if x == s.last() {
                    assert(p2[prev.len() as int] == x);
                }
            }
        }
    } else {
        assert(dedup(s) =~= seq![]);
    }
}

/// Appends the ids of `src` that `out` lacks, in order.
pub(crate) fn append_new(out: &mut Vec<i64>, src: &Vec<i64>, Ghost(prefix): Ghost<Seq<i64>>)
    requires
        old(out)@ == dedup(prefix),
    ensures
        final(out)@ == dedup(prefix + src@),
{
    let mut i: usize = 0;
    proof {
        assert(prefix + src@.take(0) =~= prefix);
    }
    while i < src.len()
        invariant
            0 <= i <= src@.len(),
            out@ == dedup(prefix + src@.take(i as int)),
        decreases src@.len() - i,
    {
        let x = src[i];
        let mut found = false;
        let mut j: usize = 0;
        while j < out.len()
            invariant
                0 <= j <= out@.len(),
                found == (exists|k: int| 0 <= k < j && out@[k] == x),
            decreases out@.len() - j,
        {
            if out[j] == x {
                found = true;
            }
            j = j + 1;
        }
        proof {
            assert((prefix + src@.take(i + 1)).drop_last() =~= prefix + src@.take(i as int));
            assert((prefix + src@.take(i + 1)).last() == x);
            if found {
                let k = choose|k: int| 0 <= k < out@.len() && out@[k] == x;
                assert(out@.contains(x));
            } else {
                assert(!out@.contains(x));
            }
        }
        if !found {
            out.push(x);
        }
        i = i + 1;
    }
    proof {
        assert(src@.take(src@.len() as int) =~= src@);
    }
}

/// The full-text ranking: whole-query matches first, then any-word matches,
/// then substring matches, each id at its first place.
pub fn merge_ranked(and_hits: &Vec<i64>, or_hits: &Vec<i64>, trigram_hits: &Vec<i64>) -> (r: Vec<i64>)
    ensures
        r@ == dedup(and_hits@ + or_hits@ + trigram_hits@),
        distinct(r@),
{
    let mut out: Vec<i64> = Vec::new();
    proof {
        assert(dedup(seq![]) =~= seq![]);
    }
    let ghost empty: Seq<i64> = seq![];
    append_new(&mut out, and_hits, Ghost(empty));
    proof {
        assert(seq![] + and_hits@ =~= and_hits@);
    }
    append_new(&mut out, or_hits, Ghost(and_hits@));
    append_new(&mut out, trigram_hits, Ghost(and_hits@ + or_hits@));
    proof {
        lemma_dedup(and_hits@ + or_hits@ + trigram_hits@);
    }
    out
}

/// The document of a chunk, from (chunk, document) pairs.
pub open spec fn doc_of(pairs: Seq<(i64, i64)>, chunk: i64) -> Option<i64>
    decreases pairs.len(),
{
    if pairs.len() == 0 {
        None
    } else if pairs[0].0 == chunk {
        Some(pairs[0].1)
    } else {
        doc_of(pairs.drop_first(), chunk)
    }
}

/// Documents of the nearest chunks, in the order the chunks came.
pub open spec fn chunk_docs(chunks: Seq<i64>, pairs: Seq<(i64, i64)>) -> Seq<i64>
    decreases chunks.len(),
{
    if chunks.len() == 0 {
        seq![]
    } else {
        let prev = chunk_docs(chunks.drop_last(), pairs);
        match doc_of(pairs, chunks.last()) {
            Some(d) => prev.push(d),
            None => prev,
        }
    }
}

fn doc_of_exec(pairs: &Vec<(i64, i64)>, chunk: i64) -> (r: Option<i64>)
    ensures
        r == doc_of(pairs@, chunk),
{
    let mut i: usize = 0;
    proof {
        assert(pairs@.skip(0) =~= pairs@);
    }
    while i < pairs.len()
        invariant
            0 <= i <= pairs@.len(),
            doc_of(pairs@, chunk) == doc_of(pairs@.skip(i as int), chunk),
        decreases pairs@.len() - i,
    {
        proof {
            assert(pairs@.skip(i as int).drop_first() =~= pairs@.skip(i + 1));
            assert(pairs@.skip(i as int)[0] == pairs@[i as int]);
        }
        if pairs[i].0 == chunk {
            return Some(pairs[i].1);
        }
        i = i + 1;
    }
    None
}

/// The vector ranking: the documents of the nearest chunks (listed nearest
/// first), each document at the place of its nearest chunk.
pub fn vector_ranked(knn_chunks: &Vec<i64>, chunk_doc: &Vec<(i64, i64)>) -> (r: Vec<i64>)
    ensures
        r@ == dedup(chunk_docs(knn_chunks@, chunk_doc@)),
        distinct(r@),
{
    let mut docs: Vec<i64> = Vec::new();
    let mut i: usize = 0;
    while i < knn_chunks.len()
        invariant
            0 <= i <= knn_chunks@.len(),
            docs@ == chunk_docs(knn_chunks@.take(i as int), chunk_doc@),
        decreases knn_chunks@.len() - i,
    {
        proof {
            assert(knn_chunks@.take(i + 1).drop_last() =~= knn_chunks@.take(i as int));
        }
        match doc_of_exec(chunk_doc, knn_chunks[i]) {
            Some(d) => docs.push(d),
            None => {},
        }
        i = i + 1;
    }
    proof {
        assert(knn_chunks@.take(knn_chunks@.len() as int) =~= knn_chunks@);
    }
    let mut out: Vec<i64> = Vec::new();
    proof {
        assert(dedup(seq![]) =~= seq![]);
    }
    let ghost empty: Seq<i64> = seq![];
    append_new(&mut out, &docs, Ghost(empty));
    proof {
        assert(seq![] + docs@ =~= docs@);
        lemma_dedup(docs@);
    }
    out
}

/// The string views of an optional string.
pub open spec fn opt_view(o: Option<String>) -> Option<Seq<char>> {
    match o {
        None => None,
        Some(s) => Some(s@),
    }
}

/// Double quotes turned into spaces.
pub open spec fn quote_free(s: Seq<char>) -> Seq<char> {
    s.map_values(|c: char| if c == '"' { ' ' } else { c })
}

/// The substring query: the raw query in double quotes (inner quotes turned
/// into spaces), for queries of three characters or more.
pub open spec fn trigram_query_of(raw: Seq<char>) -> Option<Seq<char>> {
    if raw.len() >= 3 {
        Some("\""@ + quote_free(raw) + "\""@)
    } else {
        None
    }
}

/// The vector path runs for the semantic and hybrid modes, and only with a
/// query vector of the stored dimension; otherwise the search falls back to
/// full text.
pub open spec fn vector_path_used(mode: SearchMode, query_vec_len: Option<usize>) -> bool {
    (mode == SearchMode::Semantic || mode == SearchMode::Hybrid) && query_vec_len == Some(EMBEDDING_DIM)
}

/// Whether the full-text path runs: always but in semantic mode, which runs
/// the vector path alone (and falls back to full text when that path cannot
/// run).
pub open spec fn fts_path_used(mode: SearchMode, query_vec_len: Option<usize>) -> bool {
    !(mode == SearchMode::Semantic && vector_path_used(mode, query_vec_len))
}

/// Highlight terms: the query words, then the raw query itself when it has at
/// least two characters and is not already one of the words.
pub open spec fn highlight_terms(tokens: Seq<Seq<char>>, raw: Seq<char>) -> Seq<Seq<char>> {
    if raw.len() >= 2 && !tokens.contains(raw) {
        tokens.push(raw)
    } else {
        tokens
    }
}

/// Result count of a request: 20 when none is given.
pub open spec fn effective_limit(limit: usize) -> usize {
    if limit == 0 {
        20
    } else {
        limit
    }
}

/// Everything a search runs, decided before any index is read.
#[derive(Debug, Clone)]
pub struct SearchPlan {
    pub limit: usize,
    /// The trimmed query.
    pub raw: String,
    /// The query words.
    pub tokens: Vec<String>,
    /// Whole-query full-text match (absent without words).
    pub and_query: Option<String>,
    /// Any-word full-text match (only with two words or more).
    pub or_query: Option<String>,
    /// Substring match.
    pub trigram_query: Option<String>,
    /// Whether the vector path runs.
    pub use_vec: bool,
    /// Whether the full-text path runs.
    pub use_fts: bool,
    /// Terms highlighted in snippets.
    pub hl_terms: Vec<String>,
}

/// What the plan of a query holds, given the trimmed query and its
/// space-joined segmentation.
pub open spec fn plan_matches(
    p: SearchPlan,
    raw: Seq<char>,
    cut: Seq<char>,
    mode: SearchMode,
    query_vec_len: Option<usize>,
    limit: usize,
) -> bool {
    let tokens = words(cut);
    &&& p.limit == effective_limit(limit)
    &&& p.raw@ == raw
    &&& string_views(p.tokens@) == tokens
    &&& opt_view(p.and_query) == (if tokens.len() > 0 {
        Some(join_with(tokens, " "@))
    } else {
        None
    })
    &&& opt_view(p.or_query) == (if tokens.len() > 1 {
        Some(join_with(tokens, " OR "@))
    } else {
        None
    })
    &&& opt_view(p.trigram_query) == trigram_query_of(raw)
    &&& p.use_vec == vector_path_used(mode, query_vec_len)
    &&& p.use_fts == fts_path_used(mode, query_vec_len)
    &&& string_views(p.hl_terms@) == highlight_terms(tokens, raw)
}

fn quote_free_exec(s: &[char]) -> (r: Vec<char>)
    ensures
        r@ == quote_free(s@),
{
    let mut r: Vec<char> = Vec::new();
    let mut i: usize = 0;
    while i < s.len()
        invariant
            0 <= i <= s@.len(),
            r@ == quote_free(s@.take(i as int)),
        decreases s@.len() - i,
    {
        let c = s[i];
        r.push(if c == '"' { ' ' } else { c });
        proof {
            assert(quote_free(s@.take(i + 1)) =~= quote_free(s@.take(i as int)).push(
                if s@[i as int] == '"' { ' ' } else { s@[i as int] },
            ));
        }
        i = i + 1;
    }
    proof {
        assert(s@.take(s@.len() as int) =~= s@);
    }
    r
}

fn contains_chars(list: &Vec<Vec<char>>, x: &[char]) -> (r: bool)
    ensures
        r == views(list@).contains(x@),
{
    let mut i: usize = 0;
    while i < list.len()
        invariant
            0 <= i <= list@.len(),
            forall|k: int| 0 <= k < i ==> views(list@)[k] != x@,
        decreases list@.len() - i,
    {
        if chars_eq(list[i].as_slice(), x) {
            assert(views(list@)[i as int] == x@);
            return true;
        }
        i = i + 1;
    }
    false
}

/// The search plan from the trimmed query and its segmentation.
pub fn plan_from_cut(raw: &str, cut: &str, mode: SearchMode, query_vec_len: Option<usize>, limit: usize) -> (p:
    SearchPlan)
    ensures
        plan_matches(p, raw@, cut@, mode, query_vec_len, limit),
{
    let raw_chars = chars_of(raw);
    let cut_chars = chars_of(cut);
    let toks = words_exec(cut_chars.as_slice());
    let ghost tokens = words(cut@);
    let and_query = if toks.len() > 0 {
        let sep = chars_of(" ");
        let j = join_chars(&toks, sep.as_slice());
        proof {
            assert(toks@.map_values(|v: Vec<char>| v@) =~= views(toks@));
        }
        Some(string_of(j.as_slice()))
    } else {
        None
    };
    let or_query = if toks.len() > 1 {
        let sep = chars_of(" OR ");
        let j = join_chars(&toks, sep.as_slice());
        proof {
            assert(toks@.map_values(|v: Vec<char>| v@) =~= views(toks@));
        }
        Some(string_of(j.as_slice()))
    } else {
        None
    };
    let trigram_query = if raw_chars.len() >= 3 {
        let mut q = chars_of("\"");
        let inner = quote_free_exec(raw_chars.as_slice());
        extend_chars(&mut q, inner.as_slice());
        let close = chars_of("\"");
        extend_chars(&mut q, close.as_slice());
        Some(string_of(q.as_slice()))
    } else {
        None
    };
    let use_vec = (mode == SearchMode::Semantic || mode == SearchMode::Hybrid) && match query_vec_len {
        Some(n) => n == EMBEDDING_DIM,
        None => false,
    };
    let tokens_out = strings_of(&toks);
    let mut hl = strings_of(&toks);
    if raw_chars.len() >= 2 && !contains_chars(&toks, raw_chars.as_slice()) {
        hl.push(string_of(raw_chars.as_slice()));
        proof {
            assert(string_views(hl@) =~= views(toks@).push(raw@));
        }
    }
    SearchPlan {
        limit: if limit == 0 { 20 } else { limit },
        raw: string_of(raw_chars.as_slice()),
        tokens: tokens_out,
        and_query,
        or_query,
        trigram_query,
        use_vec,
        use_fts: !(mode == SearchMode::Semantic && use_vec),
        hl_terms: hl,
    }
}

/// Plans a search: trims the query, segments it, and decides the queries to run.
pub fn plan_search(tok: &Tokenizer, query: &str, mode: SearchMode, query_vec_len: Option<usize>, limit: usize) -> (p:
    SearchPlan)
    requires
        tok.wf(),
    ensures
        plan_matches(p, trim(query@), cut_search_text(trim(query@)), mode, query_vec_len, limit),
{
    let raw = trim_string(query);
    let cut = cut_search(tok, raw.as_str());
    plan_from_cut(raw.as_str(), cut.as_str(), mode, query_vec_len, limit)
}

} // verus!
