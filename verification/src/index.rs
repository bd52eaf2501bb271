//! Index construction: text chunking for the vector index, the text written
//! to the full-text index, and the vector lookup statement.

use vstd::prelude::*;

use crate::sql::{arg_views, int_args, placeholders, push_placeholders, ArgView, SqlArg};
use crate::text::{chars_of, chars_of_all, copy_range, extend_chars, join_chars, join_with, push_text, string_of,
    string_views, views};

verus! {

/// Dimension of the stored embeddings; vectors of any other length are not
/// written to, nor looked up in, the vector index.
pub const EMBEDDING_DIM: usize = 1024;

/// Whether an embedding of `len` components may be stored.
pub fn accepts_embedding(len: usize) -> (r: bool)
    ensures
        r == (len == EMBEDDING_DIM),
{
    len == EMBEDDING_DIM
}

/// A chunk: start and end character offsets, and the text between them.
pub open spec fn chunk_at(t: Seq<char>, start: int, window: int) -> (int, int, Seq<char>) {
    let end = if start + window < t.len() { start + window } else { t.len() as int };
    (start, end, t.subrange(start, end))
}

/// The chunks from `start` on: windows of `window` characters, each starting
/// `step` after the previous one, until one reaches the end of the text.
pub open spec fn chunks_from(t: Seq<char>, start: int, window: int, step: int) -> Seq<(int, int, Seq<char>)>
    decreases t.len() - start,
{
    let c = chunk_at(t, start, window);
    if c.1 >= t.len() || step <= 0 || start + step > t.len() || start < 0 {
        seq![c]
    } else {
        seq![c] + chunks_from(t, start + step, window, step)
    }
}

/// The chunks of a text (none for an empty text).
pub open spec fn chunks_of(t: Seq<char>, window: int, step: int) -> Seq<(int, int, Seq<char>)> {
    if t.len() == 0 {
        seq![]
    } else {
        chunks_from(t, 0, window, step)
    }
}

/// From `start` on, every window that stops short of the end is followed by
/// a start still within the text.
pub open spec fn steps_fit(n: int, start: int, window: int, step: int) -> bool
    decreases n - start,
{
    if start + window >= n {
        true
    } else if step <= 0 || start + step > n {
        false
    } else {
        steps_fit(n, start + step, window, step)
    }
}

/// The chunking parameters work on a text of `n` characters: it fits one
/// window, or the steps are positive and never start a chunk past its end.
pub open spec fn chunking_ok(n: int, window: int, step: int) -> bool {
    n <= window || (0 < step && steps_fit(n, 0, window, step))
}

/// Overlapping (or adjacent) windows: the text fits one window, or windows
/// advance by a positive step no longer than a window.
pub open spec fn overlapping(n: int, window: int, step: int) -> bool {
    n <= window || (0 < step && step <= window)
}

proof fn lemma_steps_fit(n: int, start: int, window: int, step: int)
    requires
        0 < step <= window,
        0 <= start,
    ensures
        steps_fit(n, start, window, step),
    decreases n - start,
{
    if start + window < n {
        lemma_steps_fit(n, start + step, window, step);
    }
}

/// Overlapping windows always work.
pub proof fn lemma_overlapping_chunks_ok(n: int, window: int, step: int)
    requires
        overlapping(n, window, step),
    ensures
        chunking_ok(n, window, step),
{
    if n > window {
        lemma_steps_fit(n, 0, window, step);
    }
}

pub open spec fn chunk_views(v: Seq<(usize, usize, String)>) -> Seq<(int, int, Seq<char>)> {
    v.map_values(|c: (usize, usize, String)| (c.0 as int, c.1 as int, c.2@))
}

/// Cuts a text into overlapping chunks with their character offsets.
pub fn chunk_text(text: &str, window: usize, step: usize) -> (r: Vec<(usize, usize, String)>)
    requires
        chunking_ok(text@.len() as int, window as int, step as int),
    ensures
        chunk_views(r@) == chunks_of(text@, window as int, step as int),
        0 < step <= window && text@.len() > 0 ==> forall|i: int|
            0 <= i < r@.len() ==> #[trigger] chunk_views(r@)[i] == chunk_at(text@, i * step, window as int),
{
    proof {
        if 0 < step <= window && text@.len() > 0 {
            lemma_chunks_closed_form(text@, window as int, step as int);
        }
    }
    let chars = chars_of(text);
    let n = chars.len();
    let mut out: Vec<(usize, usize, String)> = Vec::new();
    if n == 0 {
        proof {
            assert(chunk_views(out@) =~= seq![]);
        }
        return out;
    }
    let ghost t = text@;
    let ghost w = window as int;
    let ghost st = step as int;
    let mut start: usize = 0;
    loop
        invariant_except_break
            chunk_views(out@) + chunks_from(t, start as int, w, st) == chunks_of(t, w, st),
        invariant
            chars@ == t,
            n == t.len(),
            n > 0,
            start <= n,
            chunking_ok(n as int, w, st),
            n > w ==> steps_fit(n as int, start as int, w, st),
            w == window,
            st == step,
        ensures
            chunk_views(out@) == chunks_of(t, w, st),
        decreases n - start,
    {
        let end = if window >= n - start { n } else { start + window };
        let piece = copy_range(chars.as_slice(), start, end);
        let ghost before = out@;
        let s = string_of(piece.as_slice());
        out.push((start, end, s));
        proof {
            let c = chunk_at(t, start as int, w);
            assert(c == (start as int, end as int, piece@));
            assert(chunk_views(out@) =~= chunk_views(before).push(c));
        }
        if end >= n {
            proof {
                assert(chunks_from(t, start as int, w, st) == seq![chunk_at(t, start as int, w)]);
                assert(chunk_views(out@) =~= chunk_views(before) + chunks_from(t, start as int, w, st));
            }
            break;
        }
        proof {
            assert(st > 0 && start + st <= n);
            assert(chunks_from(t, start as int, w, st) == seq![chunk_at(t, start as int, w)] + chunks_from(
                t,
                start + st,
                w,
                st,
            ));
            assert(chunk_views(out@) + chunks_from(t, start + st, w, st) =~= chunk_views(before) + chunks_from(
                t,
                start as int,
                w,
                st,
            ));
        }
        start = start + step;
    }
    out
}

proof fn lemma_chunks_from_closed(t: Seq<char>, start: int, window: int, step: int)
    requires
        0 < step <= window,
        0 <= start < t.len(),
    ensures
        ({
            let cs = chunks_from(t, start, window, step);
            &&& cs.len() > 0
            &&& forall|i: int| 0 <= i < cs.len() ==> #[trigger] cs[i] == chunk_at(t, start + i * step, window)
            &&& forall|i: int| 0 <= i < cs.len() - 1 ==> #[trigger] (start + i * step) + window < t.len()
            &&& start + (cs.len() - 1) * step + window >= t.len()
        }),
    decreases t.len() - start,
{
    let cs = chunks_from(t, start, window, step);
    let c = chunk_at(t, start, window);
    if c.1 >= t.len() {
        assert(cs == seq![c]);
        assert forall|i: int| 0 <= i < cs.len() implies #[trigger] cs[i] == chunk_at(t, start + i * step, window) by {
            assert(i == 0);
            assert(start + 0 * step == start);
        }
        assert(start + (cs.len() - 1) * step == start) by {
            assert(cs.len() - 1 == 0);
            assert(0 * step == 0);
        }
    } else {
        let rest = chunks_from(t, start + step, window, step);
        assert(cs == seq![c] + rest);
        lemma_chunks_from_closed(t, start + step, window, step);
        assert forall|i: int| 0 <= i < cs.len() implies #[trigger] cs[i] == chunk_at(t, start + i * step, window) by {
            if i > 0 {
                assert(cs[i] == rest[i - 1]);
                assert((start + step) + (i - 1) * step == start + i * step) by (nonlinear_arith);
            } else {
                assert(start + 0 * step == start);
            }
        }
        assert forall|i: int| 0 <= i < cs.len() - 1 implies #[trigger] (start + i * step) + window < t.len() by {
            if i > 0 {
                assert((start + step) + (i - 1) * step == start + i * step) by (nonlinear_arith);
                assert(0 <= i - 1 < rest.len() - 1);
                assert(((start + step) + (i - 1) * step) + window < t.len());
            } else {
                assert(start + 0 * step == start);
            }
        }
        let k = rest.len() as int;
        assert((start + step) + (k - 1) * step == start + (cs.len() - 1) * step) by (nonlinear_arith)
            requires cs.len() == k + 1;
    }
}

/// The closed form of the chunks: with a positive step no longer than the
/// window, chunk `i` starts at `i * step` and ends `window` later or at the
/// end of the text, and the chunks stop at the first one that reaches the end.
pub proof fn lemma_chunks_closed_form(t: Seq<char>, window: int, step: int)
    requires
        0 < step <= window,
        t.len() > 0,
    ensures
        ({
            let cs = chunks_of(t, window, step);
            &&& cs.len() > 0
            &&& forall|i: int| 0 <= i < cs.len() ==> #[trigger] cs[i] == chunk_at(t, i * step, window)
            &&& forall|i: int| 0 <= i < cs.len() - 1 ==> #[trigger] (i * step) + window < t.len()
            &&& (cs.len() - 1) * step + window >= t.len()
        }),
{
    lemma_chunks_from_closed(t, 0, window, step);
    let cs = chunks_of(t, window, step);
    assert forall|i: int| 0 <= i < cs.len() implies #[trigger] cs[i] == chunk_at(t, i * step, window) by {
        assert(0 + i * step == i * step);
    }
    assert forall|i: int| 0 <= i < cs.len() - 1 implies #[trigger] (i * step) + window < t.len() by {
        assert((0 + i * step) + window < t.len());
    }
}

/// With overlapping (or adjacent) windows, every character of the text lies in
/// some chunk; and every chunk is the text between its offsets.
pub proof fn lemma_chunks_cover(t: Seq<char>, window: int, step: int, p: int)
    requires
        overlapping(t.len() as int, window, step),
        window > 0,
        0 <= p < t.len(),
    ensures
        exists|k: int|
            0 <= k < chunks_of(t, window, step).len() && (#[trigger] chunks_of(t, window, step)[k]).0 <= p
                < chunks_of(t, window, step)[k].1,
        forall|k: int|
            0 <= k < chunks_of(t, window, step).len() ==> #[trigger] chunks_of(t, window, step)[k].2 == t.subrange(
                chunks_of(t, window, step)[k].0,
                chunks_of(t, window, step)[k].1,
            ),
{
    assert(chunks_of(t, window, step) == chunks_from(t, 0, window, step));
    lemma_cover_from(t, 0, window, step, p);
}

proof fn lemma_cover_from(t: Seq<char>, start: int, window: int, step: int, p: int)
    requires
        overlapping(t.len() as int, window, step),
        window > 0,
        0 <= start <= p < t.len(),
    ensures
        exists|k: int|
            0 <= k < chunks_from(t, start, window, step).len() && (#[trigger] chunks_from(t, start, window, step)[k]).0
                <= p < chunks_from(t, start, window, step)[k].1,
        forall|k: int|
            0 <= k < chunks_from(t, start, window, step).len() ==> #[trigger] chunks_from(t, start, window, step)[k].2
                == t.subrange(chunks_from(t, start, window, step)[k].0, chunks_from(t, start, window, step)[k].1),
    decreases t.len() - start,
{
    let cs = chunks_from(t, start, window, step);
    let c = chunk_at(t, start, window);
    if c.1 >= t.len() || step <= 0 || start + step > t.len() {
        assert(cs == seq![c]);
        assert(c.1 >= t.len()) by {
            if c.1 < t.len() {
                assert(0 < step <= window);
            }
        }
        assert(cs[0].0 <= p < cs[0].1);
    } else {
        let rest = chunks_from(t, start + step, window, step);
        assert(cs == seq![c] + rest);
        if p < c.1 {
            assert(cs[0].0 <= p < cs[0].1);
        } else {
            lemma_cover_from(t, start + step, window, step, p);
            let k = choose|k: int| 0 <= k < rest.len() && (#[trigger] rest[k]).0 <= p < rest[k].1;
            assert(cs[k + 1] == rest[k]);
        }
        lemma_cover_from(t, start + step, window, step, start + step);
        assert forall|k: int| 0 <= k < cs.len() implies #[trigger] cs[k].2 == t.subrange(cs[k].0, cs[k].1) by {
            if k > 0 {
                assert(cs[k] == rest[k - 1]);
            }
        }
    }
}

/// The text written to the full-text index for a document: its content, then
/// its custom field values, space-separated.
pub open spec fn fts_content_of(content: Seq<char>, field_values: Seq<Seq<char>>) -> Seq<char> {
    let fields = join_with(field_values, " "@);
    if fields.len() == 0 {
        content
    } else {
        content + " "@ + fields
    }
}

pub fn fts_content(content: &str, field_values: &Vec<String>) -> (r: String)
    ensures
        r@ == fts_content_of(content@, string_views(field_values@)),
{
    let cv = chars_of_all(field_values);
    let sep = chars_of(" ");
    let fields = join_chars(&cv, sep.as_slice());
    proof {
        assert(cv@.map_values(|v: Vec<char>| v@) =~= views(cv@));
    }
    let mut out = chars_of(content);
    if fields.len() > 0 {
        push_text(&mut out, " ");
        extend_chars(&mut out, fields.as_slice());
    }
    string_of(out.as_slice())
}

/// The nearest-neighbour statement: `k` nearest vectors, restricted to the
/// given chunks when there are any. The first two arguments, the query vector
/// and `k`, are bound by the caller; the chunk ids follow.
pub open spec fn knn_sql(subset_len: nat) -> Seq<char> {
    "SELECT rowid, distance FROM vec_items WHERE embedding MATCH ? AND k = ?"@ + (if subset_len > 0 {
        " AND rowid IN ("@ + placeholders(subset_len) + ")"@
    } else {
        seq![]
    })
}

pub fn knn_query(subset: &Vec<i64>) -> (r: (String, Vec<SqlArg>))
    ensures
        r.0@ == knn_sql(subset@.len() as nat),
        arg_views(r.1@) == int_args(subset@),
{
    let mut sql = chars_of("SELECT rowid, distance FROM vec_items WHERE embedding MATCH ? AND k = ?");
    if subset.len() > 0 {
        push_text(&mut sql, " AND rowid IN (");
        push_placeholders(&mut sql, subset.len());
        push_text(&mut sql, ")");
    }
    proof {
        assert(sql@ =~= knn_sql(subset@.len() as nat));
    }
    (string_of(sql.as_slice()), crate::sql::int_arg_vec(subset))
}

} // verus!
