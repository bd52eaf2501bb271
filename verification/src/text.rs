//! Character-level helpers shared by the text-processing modules.

use vstd::prelude::*;

verus! {

/// Appends one character to a string.
///
/// Calls `String::push`; the contract claims what its documentation says: the
/// character is appended at the end.
#[verifier::external_body]
pub(crate) fn push_char(s: &mut String, c: char)
    ensures
        final(s)@ == old(s)@.push(c),
{
    s.push(c);
}

/// Appends a string slice to a string.
pub fn push_str(s: &mut String, t: &str)
    ensures
        final(s)@ == old(s)@ + t@,
{
    s.append(t);
}

/// The characters of a string slice, in order.
pub fn chars_of(s: &str) -> (v: Vec<char>)
    ensures
        v@ == s@,
{
    let mut v: Vec<char> = Vec::new();
    proof {
        broadcast use vstd::string::group_string_axioms;
    }
    for c in it: s.chars()
        invariant
            it.seq() == s@,
            v@ == it.seq().take(it.index() as int),
        ensures
            v@ == s@,
    {
        proof {
            assert(it.seq().take(it.index() + 1) =~= it.seq().take(it.index() as int).push(c));
        }
        v.push(c);
    }
    v
}

/// A string holding exactly the given characters.
pub fn string_of(v: &[char]) -> (s: String)
    ensures
        s@ == v@,
{
    let mut s = String::new();
    let mut i: usize = 0;
    while i < v.len()
        invariant
            0 <= i <= v@.len(),
            s@ == v@.subrange(0, i as int),
        decreases v@.len() - i,
    {
        push_char(&mut s, v[i]);
        proof {
            assert(v@.subrange(0, i + 1) =~= v@.subrange(0, i as int).push(v@[i as int]));
        }
        i = i + 1;
    }
    proof {
        assert(v@.subrange(0, v@.len() as int) =~= v@);
    }
    s
}

/// Whether two character sequences are equal.
pub fn chars_eq(a: &[char], b: &[char]) -> (res: bool)
    ensures
        res == (a@ == b@),
{
    if a.len() != b.len() {
        return false;
    }
    let mut i: usize = 0;
    while i < a.len()
        invariant
            a@.len() == b@.len(),
            0 <= i <= a@.len(),
            forall|j: int| 0 <= j < i ==> a@[j] == b@[j],
        decreases a@.len() - i,
    {
        if a[i] != b[i] {
            return false;
        }
        i = i + 1;
    }
    proof {
        assert(a@ =~= b@);
    }
    true
}

/// Whether two string slices hold the same text.
pub fn str_eq(a: &str, b: &str) -> (res: bool)
    ensures
        res == (a@ == b@),
{
    let va = chars_of(a);
    let vb = chars_of(b);
    chars_eq(va.as_slice(), vb.as_slice())
}


/// ASCII lower-casing of one character (other characters unchanged).
pub open spec fn lower_char(c: char) -> char {
    if 'A' <= c && c <= 'Z' {
        ((c as u32) + 32) as char
    } else {
        c
    }
}

/// ASCII lower-casing of a character sequence.
pub open spec fn ascii_lower(s: Seq<char>) -> Seq<char> {
    s.map_values(|c: char| lower_char(c))
}

pub fn to_lower_char(c: char) -> (r: char)
    ensures
        r == lower_char(c),
{
    if 'A' <= c && c <= 'Z' {
        let b: u8 = c as u8;
        assert(b as u32 == c as u32);
        let r = (b + 32) as char;
        assert(r as u32 == (c as u32) + 32);
        r
    } else {
        c
    }
}

/// ASCII lower-cased copy of a string slice, as characters.
pub fn ascii_lower_chars(s: &str) -> (v: Vec<char>)
    ensures
        v@ == ascii_lower(s@),
{
    let cs = chars_of(s);
    let mut v: Vec<char> = Vec::new();
    let mut i: usize = 0;
    while i < cs.len()
        invariant
            cs@ == s@,
            0 <= i <= cs@.len(),
            v@ == ascii_lower(cs@.subrange(0, i as int)),
        decreases cs@.len() - i,
    {
        let c = to_lower_char(cs[i]);
        v.push(c);
        proof {
            assert(ascii_lower(cs@.subrange(0, i + 1)) =~= ascii_lower(cs@.subrange(0, i as int)).push(lower_char(cs@[i as int])));
        }
        i = i + 1;
    }
    proof {
        assert(cs@.subrange(0, cs@.len() as int) =~= cs@);
    }
    v
}

/// Unicode `White_Space` (what `char::is_whitespace` tests).
pub open spec fn is_ws(c: char) -> bool {
    ||| ('\u{9}' <= c && c <= '\u{d}')
    ||| c == ' '
    ||| c == '\u{85}'
    ||| c == '\u{a0}'
    ||| c == '\u{1680}'
    ||| ('\u{2000}' <= c && c <= '\u{200a}')
    ||| c == '\u{2028}'
    ||| c == '\u{2029}'
    ||| c == '\u{202f}'
    ||| c == '\u{205f}'
    ||| c == '\u{3000}'
}

pub fn is_whitespace(c: char) -> (r: bool)
    ensures
        r == is_ws(c),
{
    ('\u{9}' <= c && c <= '\u{d}') || c == ' ' || c == '\u{85}' || c == '\u{a0}' || c == '\u{1680}'
        || ('\u{2000}' <= c && c <= '\u{200a}') || c == '\u{2028}' || c == '\u{2029}' || c
        == '\u{202f}' || c == '\u{205f}' || c == '\u{3000}'
}

/// Whether `t` occurs in `s` starting at position `i`.
pub open spec fn occurs_at(s: Seq<char>, t: Seq<char>, i: int) -> bool {
    0 <= i && i + t.len() <= s.len() && s.subrange(i, i + t.len()) == t
}

pub open spec fn starts_with(s: Seq<char>, t: Seq<char>) -> bool {
    occurs_at(s, t, 0)
}

/// Position of the first occurrence of `t` in `s` at or after `from`.
pub open spec fn find_from(s: Seq<char>, t: Seq<char>, from: int) -> Option<int>
    decreases s.len() - from,
{
    if from < 0 || from + t.len() > s.len() {
        None
    } else if occurs_at(s, t, from) {
        Some(from)
    } else if from >= s.len() {
        None
    } else {
        find_from(s, t, from + 1)
    }
}

pub proof fn lemma_find_from(s: Seq<char>, t: Seq<char>, from: int)
    requires
        0 <= from,
    ensures
        match find_from(s, t, from) {
            Some(k) => from <= k && occurs_at(s, t, k) && forall|j: int|
                from <= j < k ==> !occurs_at(s, t, j),
            None => forall|j: int| from <= j ==> !occurs_at(s, t, j),
        },
    decreases s.len() - from,
{
    if from + t.len() > s.len() {
    } else if occurs_at(s, t, from) {
    } else if from >= s.len() {
    } else {
        lemma_find_from(s, t, from + 1);
    }
}

/// Whether `t` occurs at position `i` of `s` (executable).
pub fn occurs_at_exec(s: &[char], t: &[char], i: usize) -> (r: bool)
    ensures
        r == occurs_at(s@, t@, i as int),
{
    if i > s.len() || t.len() > s.len() - i {
        return false;
    }
    let mut j: usize = 0;
    while j < t.len()
        invariant
            i + t@.len() <= s@.len(),
            s@.len() == s.len(),
            t@.len() == t.len(),
            0 <= j <= t@.len(),
            forall|k: int| 0 <= k < j ==> s@[i + k] == t@[k],
        decreases t@.len() - j,
    {
        if s[i + j] != t[j] {
            proof {
                assert(s@.subrange(i as int, i + t@.len())[j as int] != t@[j as int]);
            }
            return false;
        }
        j = j + 1;
    }
    proof {
        assert(s@.subrange(i as int, i + t@.len()) =~= t@);
    }
    true
}

/// First occurrence of `t` in `s` at or after `from` (executable).
pub fn find_chars(s: &[char], t: &[char], from: usize) -> (r: Option<usize>)
    ensures
        r matches Some(k) ==> find_from(s@, t@, from as int) == Some(k as int),
        r is None ==> find_from(s@, t@, from as int) is None,
{
    proof {
        lemma_find_from(s@, t@, from as int);
    }
    if from > s.len() {
        return None;
    }
    let mut i = from;
    while i < s.len()
        invariant
            from <= i <= s@.len(),
            s@.len() == s.len(),
            find_from(s@, t@, from as int) == find_from(s@, t@, i as int),
        decreases s@.len() - i,
    {
        if occurs_at_exec(s, t, i) {
            return Some(i);
        }
        i = i + 1;
    }
    if occurs_at_exec(s, t, i) {
        return Some(i);
    }
    None
}

/// Whether a character sequence ends with the given character.
pub open spec fn ends_with_char(s: Seq<char>, c: char) -> bool {
    s.len() > 0 && s.last() == c
}

/// Decimal digits of a natural number.
pub open spec fn decimal(n: nat) -> Seq<char>
    decreases n,
{
    if n < 10 {
        seq![digit_char(n)]
    } else {
        decimal(n / 10).push(digit_char(n % 10))
    }
}

pub open spec fn digit_char(d: nat) -> char {
    ((d + 48) as u32) as char
}

/// Appends the decimal digits of `n`.
pub fn push_decimal(n: u64, out: &mut Vec<char>)
    ensures
        final(out)@ == old(out)@ + decimal(n as nat),
    decreases n,
{
    if n >= 10 {
        push_decimal(n / 10, out);
    }
    let d: u64 = n % 10;
    let c: char = ((d as u8) + 48) as char;
    proof {
        assert(c == digit_char(d as nat));
    }
    out.push(c);
    proof {
        if n >= 10 {
            assert(decimal(n as nat) == decimal((n / 10) as nat).push(c));
        } else {
            assert(decimal(n as nat) == seq![c]);
        }
        assert(final(out)@ =~= old(out)@ + decimal(n as nat));
    }
}

/// Decimal text of an unsigned number.
pub fn decimal_string(n: u64) -> (s: String)
    ensures
        s@ == decimal(n as nat),
{
    let mut v: Vec<char> = Vec::new();
    push_decimal(n, &mut v);
    proof {
        assert(v@ =~= decimal(n as nat));
    }
    string_of(v.as_slice())
}


/// A copy of `s[a..b]`.
pub fn copy_range(s: &[char], a: usize, b: usize) -> (v: Vec<char>)
    requires
        a <= b <= s@.len(),
    ensures
        v@ == s@.subrange(a as int, b as int),
{
    let mut v: Vec<char> = Vec::new();
    let mut i = a;
    while i < b
        invariant
            a <= i <= b <= s@.len(),
            v@ == s@.subrange(a as int, i as int),
        decreases b - i,
    {
        v.push(s[i]);
        proof {
            assert(s@.subrange(a as int, i + 1) =~= s@.subrange(a as int, i as int).push(s@[i as int]));
        }
        i = i + 1;
    }
    v
}

/// Appends `t` to `v`.
pub fn extend_chars(v: &mut Vec<char>, t: &[char])
    ensures
        final(v)@ == old(v)@ + t@,
{
    let mut i: usize = 0;
    while i < t.len()
        invariant
            0 <= i <= t@.len(),
            v@ == old(v)@ + t@.subrange(0, i as int),
        decreases t@.len() - i,
    {
        v.push(t[i]);
        proof {
            assert(t@.subrange(0, i + 1) =~= t@.subrange(0, i as int).push(t@[i as int]));
        }
        i = i + 1;
    }
    proof {
        assert(t@.subrange(0, t@.len() as int) =~= t@);
    }
}

pub proof fn lemma_find_shift(s: Seq<char>, t: Seq<char>, pos: int, j: int)
    requires
        0 <= pos <= s.len(),
        0 <= j,
    ensures
        find_from(s, t, pos + j) == (match find_from(s.skip(pos), t, j) {
            Some(k) => Some(k + pos),
            None => None,
        }),
    decreases s.len() - pos - j,
{
    let u = s.skip(pos);
    if pos + j + t.len() > s.len() {
    } else {
        assert(s.subrange(pos + j, pos + j + t.len()) =~= u.subrange(j, j + t.len()));
        if occurs_at(s, t, pos + j) {
        } else if pos + j >= s.len() {
        } else {
            lemma_find_shift(s, t, pos, j + 1);
        }
    }
}

/// The pieces of `s` between the occurrences of the non-empty pattern `p`, as
/// `str::split` yields them.
pub open spec fn split_by(s: Seq<char>, p: Seq<char>) -> Seq<Seq<char>>
    decreases s.len(),
{
    if p.len() == 0 {
        seq![s]
    } else {
        match find_from(s, p, 0) {
            Some(k) => {
                proof {
                    lemma_find_from(s, p, 0);
                }
                seq![s.take(k)] + split_by(s.skip(k + p.len()), p)
            },
            None => seq![s],
        }
    }
}

/// The text before the first occurrence of `p` (the first piece of a split).
pub open spec fn before_first(s: Seq<char>, p: Seq<char>) -> Seq<char> {
    match find_from(s, p, 0) {
        Some(k) => s.take(k),
        None => s,
    }
}

/// The character sequences held by a list of character vectors.
pub open spec fn views(v: Seq<Vec<char>>) -> Seq<Seq<char>> {
    v.map_values(|x: Vec<char>| x@)
}

/// The pieces of a split, as character vectors.
pub fn split_pieces(s: &[char], p: &[char]) -> (res: Vec<Vec<char>>)
    requires
        p@.len() > 0,
    ensures
        res@.len() == split_by(s@, p@).len(),
        forall|i: int| 0 <= i < res@.len() ==> #[trigger] res@[i]@ == split_by(s@, p@)[i],
        views(res@) == split_by(s@, p@),
{
    let mut res: Vec<Vec<char>> = Vec::new();
    let mut pos: usize = 0;
    let ghost mut done: Seq<Seq<char>> = seq![];
    proof {
        assert(s@.skip(0) =~= s@);
    }
    loop
        invariant
            p@.len() > 0,
            pos <= s@.len(),
            res@.len() == done.len(),
            forall|i: int| 0 <= i < res@.len() ==> #[trigger] res@[i]@ == done[i],
            done + split_by(s@.skip(pos as int), p@) == split_by(s@, p@),
        decreases s@.len() - pos,
    {
        let ghost u = s@.skip(pos as int);
        proof {
            lemma_find_shift(s@, p@, pos as int, 0);
            lemma_find_from(u, p@, 0);
            lemma_find_from(s@, p@, pos as int);
        }
        match find_chars(s, p, pos) {
            Some(k) => {
                assert(occurs_at(s@, p@, k as int));
                assert(k + p@.len() <= s@.len());
                let n = s.len();
                assert(n == s@.len());
                let piece = copy_range(s, pos, k);
                proof {
                    assert(piece@ =~= u.take(k - pos));
                    assert(u.skip(k - pos + p@.len()) =~= s@.skip(k + p@.len()));
                    assert(split_by(u, p@) == seq![u.take(k - pos)] + split_by(u.skip(k - pos + p@.len()), p@));
                    done = done.push(piece@);
                    assert(done + split_by(s@.skip(k + p@.len()), p@) =~= split_by(s@, p@));
                }
                res.push(piece);
                pos = k + p.len();
            },
            None => {
                let piece = copy_range(s, pos, s.len());
                proof {
                    assert(piece@ =~= u);
                    assert(split_by(u, p@) == seq![u]);
                    done = done.push(piece@);
                    assert(done =~= split_by(s@, p@));
                }
                res.push(piece);
                proof {
                    assert(views(res@) =~= split_by(s@, p@));
                }
                return res;
            },
        }
    }
}

/// The text before the first occurrence of `p` (executable).
pub fn before_first_exec(s: &[char], p: &[char]) -> (r: Vec<char>)
    ensures
        r@ == before_first(s@, p@),
{
    proof {
        lemma_find_from(s@, p@, 0);
    }
    match find_chars(s, p, 0) {
        Some(k) => copy_range(s, 0, k),
        None => copy_range(s, 0, s.len()),
    }
}

/// The pieces joined by `sep` (what `join` on a list of strings yields).
pub open spec fn join_with(list: Seq<Seq<char>>, sep: Seq<char>) -> Seq<char>
    decreases list.len(),
{
    if list.len() == 0 {
        seq![]
    } else if list.len() == 1 {
        list[0]
    } else {
        join_with(list.drop_last(), sep) + sep + list.last()
    }
}

/// Joins character vectors with a separator.
pub fn join_chars(list: &Vec<Vec<char>>, sep: &[char]) -> (r: Vec<char>)
    ensures
        r@ == join_with(list@.map_values(|v: Vec<char>| v@), sep@),
{
    let ghost views = list@.map_values(|v: Vec<char>| v@);
    let mut r: Vec<char> = Vec::new();
    let mut i: usize = 0;
    while i < list.len()
        invariant
            0 <= i <= list@.len(),
            views == list@.map_values(|v: Vec<char>| v@),
            r@ == join_with(views.take(i as int), sep@),
        decreases list@.len() - i,
    {
        if i > 0 {
            extend_chars(&mut r, sep);
        }
        extend_chars(&mut r, list[i].as_slice());
        proof {
            assert(views.take(i + 1).drop_last() =~= views.take(i as int));
            assert(views.take(i + 1).last() == list@[i as int]@);
            if i == 0 {
                assert(views.take(1) =~= seq![list@[0]@]);
            }
        }
        i = i + 1;
    }
    proof {
        assert(views.take(list@.len() as int) =~= views);
    }
    r
}

/// Every occurrence of the non-empty pattern `p` replaced by `r`, left to right
/// (what `str::replace` yields).
pub open spec fn replace_all(s: Seq<char>, p: Seq<char>, r: Seq<char>) -> Seq<char> {
    join_with(split_by(s, p), r)
}

pub fn replace_chars(s: &[char], p: &[char], r: &[char]) -> (out: Vec<char>)
    requires
        p@.len() > 0,
    ensures
        out@ == replace_all(s@, p@, r@),
{
    let pieces = split_pieces(s, p);
    proof {
        assert(pieces@.map_values(|v: Vec<char>| v@) =~= split_by(s@, p@));
    }
    join_chars(&pieces, r)
}


/// Leading whitespace removed.
pub open spec fn trim_start(t: Seq<char>) -> Seq<char>
    decreases t.len(),
{
    if t.len() > 0 && is_ws(t[0]) {
        trim_start(t.drop_first())
    } else {
        t
    }
}

/// Trailing whitespace removed (what `str::trim_end` yields).
pub open spec fn trim_end(t: Seq<char>) -> Seq<char>
    decreases t.len(),
{
    if t.len() > 0 && is_ws(t.last()) {
        trim_end(t.drop_last())
    } else {
        t
    }
}

/// Whitespace removed at both ends (what `str::trim` yields).
pub open spec fn trim(t: Seq<char>) -> Seq<char> {
    trim_end(trim_start(t))
}

/// Whether a text is empty or only whitespace.
pub open spec fn is_blank(t: Seq<char>) -> bool {
    forall|i: int| 0 <= i < t.len() ==> is_ws(#[trigger] t[i])
}

/// Index of the first non-whitespace character of `t[a..b]`, or `b`.
pub fn skip_ws_forward(t: &[char], a: usize, b: usize) -> (r: usize)
    requires
        a <= b <= t@.len(),
    ensures
        a <= r <= b,
        trim_start(t@.subrange(a as int, b as int)) == t@.subrange(r as int, b as int),
{
    let mut i = a;
    while i < b && is_whitespace(t[i])
        invariant
            a <= i <= b <= t@.len(),
            trim_start(t@.subrange(a as int, b as int)) == trim_start(t@.subrange(i as int, b as int)),
        decreases b - i,
    {
        proof {
            assert(t@.subrange(i as int, b as int).drop_first() =~= t@.subrange(i + 1, b as int));
        }
        i = i + 1;
    }
    i
}

/// End index after removing trailing whitespace from `t[a..b]`.
pub fn skip_ws_backward(t: &[char], a: usize, b: usize) -> (r: usize)
    requires
        a <= b <= t@.len(),
    ensures
        a <= r <= b,
        trim_end(t@.subrange(a as int, b as int)) == t@.subrange(a as int, r as int),
{
    let mut j = b;
    while j > a && is_whitespace(t[j - 1])
        invariant
            a <= j <= b <= t@.len(),
            trim_end(t@.subrange(a as int, b as int)) == trim_end(t@.subrange(a as int, j as int)),
        decreases j - a,
    {
        proof {
            assert(t@.subrange(a as int, j as int).drop_last() =~= t@.subrange(a as int, j - 1));
        }
        j = j - 1;
    }
    j
}

/// Bounds `(a', b')` of `trim(t[a..b])`.
pub fn trim_bounds(t: &[char], a: usize, b: usize) -> (r: (usize, usize))
    requires
        a <= b <= t@.len(),
    ensures
        a <= r.0 <= r.1 <= b,
        trim(t@.subrange(a as int, b as int)) == t@.subrange(r.0 as int, r.1 as int),
{
    let s = skip_ws_forward(t, a, b);
    let e = skip_ws_backward(t, s, b);
    (s, e)
}

/// Whether a character sequence is blank (executable).
pub fn is_blank_exec(t: &[char]) -> (r: bool)
    ensures
        r == is_blank(t@),
{
    let mut i: usize = 0;
    while i < t.len()
        invariant
            0 <= i <= t@.len(),
            forall|k: int| 0 <= k < i ==> is_ws(#[trigger] t@[k]),
        decreases t@.len() - i,
    {
        if !is_whitespace(t[i]) {
            return false;
        }
        i = i + 1;
    }
    true
}

pub proof fn lemma_trim_start_blank(t: Seq<char>)
    ensures
        (trim_start(t).len() == 0) == is_blank(t),
        trim_start(t).len() == 0 || !is_ws(trim_start(t)[0]),
    decreases t.len(),
{
    if t.len() > 0 && is_ws(t[0]) {
        lemma_trim_start_blank(t.drop_first());
        if is_blank(t.drop_first()) {
            assert forall|i: int| 0 <= i < t.len() implies is_ws(#[trigger] t[i]) by {
                if i > 0 {
                    assert(t[i] == t.drop_first()[i - 1]);
                }
            }
        } else {
            let k = choose|k: int| 0 <= k < t.drop_first().len() && !is_ws(#[trigger] t.drop_first()[k]);
            assert(t[k + 1] == t.drop_first()[k]);
        }
    } else if t.len() > 0 {
        assert(!is_ws(t[0]));
    }
}



/// Whether `tok` is one of the whitespace-separated words of `s`.
pub open spec fn has_word(s: Seq<char>, tok: Seq<char>) -> bool {
    exists|i: int|
        #![trigger occurs_at(s, tok, i)]
        occurs_at(s, tok, i) && (i == 0 || is_ws(s[i - 1])) && (i + tok.len() == s.len() || is_ws(
            s[i + tok.len()],
        ))
}

/// Whether `tok` (non-empty, without whitespace) is one of the words of `s`
/// (what `split_whitespace().any(|w| w == tok)` tests).
pub fn has_word_exec(s: &[char], tok: &[char]) -> (r: bool)
    ensures
        r == has_word(s@, tok@),
{
    let n = s.len();
    let mut i: usize = 0;
    loop
        invariant
            n == s@.len(),
            i <= n,
            forall|j: int|
                #![trigger occurs_at(s@, tok@, j)]
                0 <= j < i ==> !(occurs_at(s@, tok@, j) && (j == 0 || is_ws(s@[j - 1])) && (j
                    + tok@.len() == s@.len() || is_ws(s@[j + tok@.len()]))),
        decreases n - i,
    {
        if occurs_at_exec(s, tok, i) {
            let left_ok = i == 0 || is_whitespace(s[i - 1]);
            let e = i + tok.len();
            let right_ok = e == n || is_whitespace(s[e]);
            if left_ok && right_ok {
                return true;
            }
        }
        if i == n {
            proof {
                assert forall|j: int|
                    !(#[trigger] occurs_at(s@, tok@, j) && (j == 0 || is_ws(s@[j - 1])) && (j
                        + tok@.len() == s@.len() || is_ws(s@[j + tok@.len()]))) by {
                    if 0 <= j <= n {
                    }
                }
            }
            return false;
        }
        i = i + 1;
    }
}


pub proof fn lemma_trim_start_len(t: Seq<char>)
    ensures
        trim_start(t).len() <= t.len(),
        exists|k: int| 0 <= k <= t.len() && trim_start(t) == t.skip(k),
    decreases t.len(),
{
    if t.len() > 0 && is_ws(t[0]) {
        lemma_trim_start_len(t.drop_first());
        let k = choose|k: int| 0 <= k <= t.drop_first().len() && trim_start(t.drop_first()) == t.drop_first().skip(k);
        assert(t.drop_first().skip(k) =~= t.skip(k + 1));
    } else {
        assert(t.skip(0) =~= t);
    }
}

/// The longest prefix without whitespace (and, when `stop_slash`, without `'/'`).
pub open spec fn name_prefix(t: Seq<char>, stop_slash: bool) -> Seq<char>
    decreases t.len(),
{
    if t.len() == 0 || is_ws(t[0]) || (stop_slash && t[0] == '/') {
        seq![]
    } else {
        seq![t[0]] + name_prefix(t.drop_first(), stop_slash)
    }
}

pub proof fn lemma_name_prefix(t: Seq<char>, stop_slash: bool)
    ensures
        name_prefix(t, stop_slash).len() <= t.len(),
        name_prefix(t, stop_slash) == t.take(name_prefix(t, stop_slash).len() as int),
        t.len() > 0 && !is_ws(t[0]) && !(stop_slash && t[0] == '/') ==> name_prefix(t, stop_slash).len() >= 1,
        forall|i: int| 0 <= i < name_prefix(t, stop_slash).len() ==> !is_ws(#[trigger] t[i]),
        name_prefix(t, stop_slash).len() < t.len() ==> is_ws(t[name_prefix(t, stop_slash).len() as int]) || (stop_slash && t[name_prefix(t, stop_slash).len() as int] == '/'),
    decreases t.len(),
{
    if t.len() == 0 || is_ws(t[0]) || (stop_slash && t[0] == '/') {
        assert(t.take(0) =~= seq![]);
    } else {
        lemma_name_prefix(t.drop_first(), stop_slash);
        let r = name_prefix(t.drop_first(), stop_slash);
        assert(t.take(r.len() as int + 1) =~= seq![t[0]] + t.drop_first().take(r.len() as int));
        assert forall|i: int| 0 <= i < r.len() + 1 implies !is_ws(#[trigger] t[i]) by {
            if i > 0 {
                assert(t[i] == t.drop_first()[i - 1]);
            }
        }
        if r.len() + 1 < t.len() {
            assert(t[r.len() as int + 1] == t.drop_first()[r.len() as int]);
        }
    }
}

/// The whitespace-separated words of a text (what `split_whitespace` yields).
pub open spec fn words(s: Seq<char>) -> Seq<Seq<char>>
    decreases s.len(),
{
    let t = trim_start(s);
    if t.len() == 0 {
        seq![]
    } else {
        let w = name_prefix(t, false);
        proof {
            lemma_trim_start_len(s);
            lemma_trim_start_blank(s);
            lemma_name_prefix(t, false);
        }
        seq![w] + words(t.skip(w.len() as int))
    }
}

pub fn name_prefix_end(t: &[char], a: usize, b: usize, stop_slash: bool) -> (r: usize)
    requires
        a <= b <= t@.len(),
    ensures
        a <= r <= b,
        name_prefix(t@.subrange(a as int, b as int), stop_slash) == t@.subrange(a as int, r as int),
    decreases b - a,
{
    if a == b || is_whitespace(t[a]) || (stop_slash && t[a] == '/') {
        proof {
            assert(t@.subrange(a as int, a as int) =~= seq![]);
        }
        a
    } else {
        let r = name_prefix_end(t, a + 1, b, stop_slash);
        proof {
            let u = t@.subrange(a as int, b as int);
            assert(u.drop_first() =~= t@.subrange(a + 1, b as int));
            assert(t@.subrange(a as int, r as int) =~= seq![t@[a as int]] + t@.subrange(a + 1, r as int));
        }
        r
    }
}

/// The words of a text (executable).
pub fn words_exec(s: &[char]) -> (r: Vec<Vec<char>>)
    ensures
        views(r@) == words(s@),
{
    let n = s.len();
    let mut r: Vec<Vec<char>> = Vec::new();
    let mut pos: usize = 0;
    proof {
        assert(s@.skip(0) =~= s@);
        assert(views(r@) =~= seq![]);
    }
    while pos < n
        invariant
            n == s@.len(),
            pos <= n,
            views(r@) + words(s@.skip(pos as int)) == words(s@),
        decreases n - pos,
    {
        let a = skip_ws_forward(s, pos, n);
        proof {
            assert(s@.subrange(pos as int, n as int) =~= s@.skip(pos as int));
            assert(s@.subrange(a as int, n as int) =~= s@.skip(a as int));
        }
        if a == n {
            proof {
                assert(trim_start(s@.skip(pos as int)).len() == 0);
                assert(words(s@.skip(pos as int)) =~= seq![]);
                assert(views(r@) =~= words(s@));
            }
            return r;
        }
        let b = name_prefix_end(s, a, n, false);
        let w = copy_range(s, a, b);
        proof {
            let t = s@.skip(a as int);
            lemma_trim_start_blank(s@.skip(pos as int));
            assert(!is_ws(t[0]));
            lemma_name_prefix(t, false);
            assert(b > a);
            assert(t.skip(w@.len() as int) =~= s@.skip(b as int));
            assert(words(s@.skip(pos as int)) == seq![w@] + words(s@.skip(b as int)));
        }
        let ghost before = r@;
        r.push(w);
        proof {
            assert(views(r@) =~= views(before).push(w@));
            assert(views(r@) + words(s@.skip(b as int)) =~= views(before) + (seq![w@] + words(s@.skip(b as int))));
        }
        pos = b;
    }
    proof {
        assert(s@.skip(n as int) =~= seq![]);
        assert(trim_start(s@.skip(n as int)) =~= seq![]);
        assert(words(s@.skip(n as int)) =~= seq![]);
        assert(views(r@) =~= words(s@));
    }
    r
}

/// `trim` of a character slice.
pub fn trim_chars(s: &[char]) -> (r: Vec<char>)
    ensures
        r@ == trim(s@),
{
    let (a, b) = trim_bounds(s, 0, s.len());
    proof {
        assert(s@.subrange(0, s@.len() as int) =~= s@);
    }
    copy_range(s, a, b)
}

/// `str::trim`, as an owned string.
pub fn trim_string(s: &str) -> (r: String)
    ensures
        r@ == trim(s@),
{
    let v = chars_of(s);
    let t = trim_chars(v.as_slice());
    string_of(t.as_slice())
}

/// The character views of a list of strings.
pub open spec fn string_views(v: Seq<String>) -> Seq<Seq<char>> {
    v.map_values(|s: String| s@)
}

/// Strings of a list of character vectors.
pub fn strings_of(v: &Vec<Vec<char>>) -> (r: Vec<String>)
    ensures
        string_views(r@) == views(v@),
{
    let mut r: Vec<String> = Vec::new();
    let mut i: usize = 0;
    while i < v.len()
        invariant
            0 <= i <= v@.len(),
            string_views(r@) == views(v@.take(i as int)),
        decreases v@.len() - i,
    {
        r.push(string_of(v[i].as_slice()));
        proof {
            assert(views(v@.take(i + 1)) =~= views(v@.take(i as int)).push(v@[i as int]@));
            assert(string_views(r@) =~= views(v@.take(i + 1)));
        }
        i = i + 1;
    }
    proof {
        assert(v@.take(v@.len() as int) =~= v@);
    }
    r
}

/// Character vectors of a list of strings.
pub fn chars_of_all(v: &Vec<String>) -> (r: Vec<Vec<char>>)
    ensures
        views(r@) == string_views(v@),
{
    let mut r: Vec<Vec<char>> = Vec::new();
    let mut i: usize = 0;
    while i < v.len()
        invariant
            0 <= i <= v@.len(),
            views(r@) == string_views(v@.take(i as int)),
        decreases v@.len() - i,
    {
        r.push(chars_of(v[i].as_str()));
        proof {
            assert(string_views(v@.take(i + 1)) =~= string_views(v@.take(i as int)).push(v@[i as int]@));
            assert(views(r@) =~= string_views(v@.take(i + 1)));
        }
        i = i + 1;
    }
    proof {
        assert(v@.take(v@.len() as int) =~= v@);
    }
    r
}

/// Appends the characters of a string slice.
pub fn push_text(v: &mut Vec<char>, t: &str)
    ensures
        final(v)@ == old(v)@ + t@,
{
    let c = chars_of(t);
    extend_chars(v, c.as_slice());
}

} // verus!
