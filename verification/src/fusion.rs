//! Reciprocal-rank fusion of the full-text and the vector ranking.
//!
//! Each path yields document ids, most relevant first. A document's score is
//! the sum over the paths that found it of `1 / (RRF_K + rank)`, rank counted
//! from 1. Scores are kept as exact fractions, so the ordering is exact.

use vstd::prelude::*;

use crate::search::{dedup, distinct, lemma_dedup, append_new, RRF_K};

verus! {

/// A fused candidate: its rank on each path (1-based), 0 where that path did
/// not find it.
#[derive(Debug, Clone, Copy, PartialEq, Eq, Structural)]
pub struct FusedHit {
    pub doc_id: i64,
    pub fts_rank: u64,
    pub vec_rank: u64,
}

/// 1-based position of `id` in `list`, 0 where it is absent.
pub open spec fn rank_of(list: Seq<i64>, id: i64) -> nat
    decreases list.len(),
{
    if list.len() == 0 {
        0
    } else if list[0] == id {
        1
    } else {
        let r = rank_of(list.drop_first(), id);
        if r == 0 {
            0
        } else {
            r + 1
        }
    }
}

/// The candidate record of `id`.
pub open spec fn hit_of(fts: Seq<i64>, vec: Seq<i64>, id: i64) -> FusedHit {
    FusedHit { doc_id: id, fts_rank: rank_of(fts, id) as u64, vec_rank: rank_of(vec, id) as u64 }
}

/// Numerator of the score, over the denominator below.
pub open spec fn score_num(h: FusedHit) -> int {
    (if h.fts_rank > 0 { RRF_K + h.vec_rank } else { 0 }) + (if h.vec_rank > 0 {
        RRF_K + h.fts_rank
    } else {
        0
    })
}

/// Denominator of the score: `(RRF_K + fts_rank) * (RRF_K + vec_rank)`.
pub open spec fn score_den(h: FusedHit) -> int {
    (RRF_K + h.fts_rank) * (RRF_K + h.vec_rank)
}

/// `a` scores at most what `b` scores.
pub open spec fn score_le(a: FusedHit, b: FusedHit) -> bool {
    score_num(a) * score_den(b) <= score_num(b) * score_den(a)
}

/// Ranks small enough for exact arithmetic.
pub open spec fn bounded(h: FusedHit) -> bool {
    h.fts_rank < 0x1_0000_0000 && h.vec_rank < 0x1_0000_0000
}

/// Whether the allow-list admits `id` (no list admits everything).
pub open spec fn allowed_in(allowed: Option<Seq<i64>>, id: i64) -> bool {
    match allowed {
        None => true,
        Some(a) => a.contains(id),
    }
}

pub open spec fn allowed_view(allowed: Option<Vec<i64>>) -> Option<Seq<i64>> {
    match allowed {
        None => None,
        Some(v) => Some(v@),
    }
}

/// The ids of `s` that the allow-list admits, in order.
pub open spec fn keep_allowed(s: Seq<i64>, allowed: Option<Seq<i64>>) -> Seq<i64>
    decreases s.len(),
{
    if s.len() == 0 {
        seq![]
    } else {
        let p = keep_allowed(s.drop_last(), allowed);
        if allowed_in(allowed, s.last()) {
            p.push(s.last())
        } else {
            p
        }
    }
}

/// The fusion candidates: every id either path found, once, in first-seen
/// order (full-text first), that the allow-list admits.
pub open spec fn candidates(fts: Seq<i64>, vec: Seq<i64>, allowed: Option<Seq<i64>>) -> Seq<i64> {
    keep_allowed(dedup(fts + vec), allowed)
}

/// Score order is transitive.
pub proof fn lemma_score_le_trans(a: FusedHit, b: FusedHit, c: FusedHit)
    requires
        score_le(a, b),
        score_le(b, c),
    ensures
        score_le(a, c),
{
    let na = score_num(a);
    let nb = score_num(b);
    let nc = score_num(c);
    let da = score_den(a);
    let db = score_den(b);
    let dc = score_den(c);
    assert(da > 0 && db > 0 && dc > 0) by (nonlinear_arith)
        requires
            da == (RRF_K + a.fts_rank) * (RRF_K + a.vec_rank),
            db == (RRF_K + b.fts_rank) * (RRF_K + b.vec_rank),
            dc == (RRF_K + c.fts_rank) * (RRF_K + c.vec_rank),
    ;
    lemma_cross_trans(na, da, nb, db, nc, dc);
}

proof fn lemma_cross_trans(na: int, da: int, nb: int, db: int, nc: int, dc: int)
    requires
        da > 0,
        db > 0,
        dc > 0,
        na * db <= nb * da,
        nb * dc <= nc * db,
    ensures
        na * dc <= nc * da,
{
    assert(na * db * dc <= nb * da * dc) by (nonlinear_arith)
        requires
            na * db <= nb * da,
            dc > 0,
    ;
    assert(nb * dc * da <= nc * db * da) by (nonlinear_arith)
        requires
            nb * dc <= nc * db,
            da > 0,
    ;
    assert(db * (na * dc) <= db * (nc * da)) by (nonlinear_arith)
        requires
            na * db * dc <= nb * da * dc,
            nb * dc * da <= nc * db * da,
    ;
    assert(na * dc <= nc * da) by (nonlinear_arith)
        requires
            db * (na * dc) <= db * (nc * da),
            db > 0,
    ;
}

/// A better full-text rank never scores lower: with the vector rank fixed, a
/// hit at full-text rank `a` scores at least what one at rank `b >= a` does.
pub proof fn lemma_rank_monotone(x: FusedHit, y: FusedHit)
    requires
        0 < y.fts_rank <= x.fts_rank,
        x.vec_rank == y.vec_rank,
    ensures
        score_le(x, y),
{
    let a = RRF_K + y.fts_rank;
    let b = RRF_K + x.fts_rank;
    let v = RRF_K + x.vec_rank;
    let c: int = if x.vec_rank > 0 { 1 } else { 0 };
    assert(score_num(x) == v + c * b);
    assert(score_num(y) == v + c * a);
    assert(score_den(x) == b * v);
    assert(score_den(y) == a * v);
    assert((v + c * b) * (a * v) <= (v + c * a) * (b * v)) by (nonlinear_arith)
        requires
            0 < a <= b,
            v > 0,
            0 <= c <= 1,
    ;
}

/// Being found by both paths beats being found by the full-text path alone at
/// the same rank.
pub proof fn lemma_both_paths_win(x: FusedHit, y: FusedHit)
    requires
        x.fts_rank == y.fts_rank > 0,
        x.vec_rank == 0,
        y.vec_rank > 0,
    ensures
        score_le(x, y),
        !score_le(y, x),
{
    let a = RRF_K + x.fts_rank;
    let v = RRF_K + y.vec_rank;
    assert(score_num(x) == RRF_K);
    assert(score_den(x) == a * RRF_K);
    assert(score_num(y) == v + a);
    assert(score_den(y) == a * v);
    assert(RRF_K * (a * v) < (v + a) * (a * RRF_K)) by (nonlinear_arith)
        requires
            a > 0,
            v > 0,
    ;
}

/// The score is the reciprocal-rank sum: each path that found the document
/// adds `1 / (RRF_K + rank)`. As fractions over the common denominator
/// `(RRF_K + fts_rank) * (RRF_K + vec_rank)`: the score times that
/// denominator is the sum of each found path's share.
pub proof fn lemma_score_is_rrf_sum(h: FusedHit)
    ensures
        score_den(h) > 0,
        h.fts_rank > 0 && h.vec_rank == 0 ==> score_num(h) * (RRF_K + h.fts_rank) == score_den(h),
        h.fts_rank == 0 && h.vec_rank > 0 ==> score_num(h) * (RRF_K + h.vec_rank) == score_den(h),
        h.fts_rank > 0 && h.vec_rank > 0 ==> score_num(h) * (RRF_K + h.fts_rank) * (RRF_K + h.vec_rank) == score_den(
            h,
        ) * ((RRF_K + h.fts_rank) + (RRF_K + h.vec_rank)),
        h.fts_rank == 0 && h.vec_rank == 0 ==> score_num(h) == 0,
{
    let f = RRF_K + h.fts_rank;
    let v = RRF_K + h.vec_rank;
    assert(score_den(h) == f * v);
    assert(f * v > 0) by (nonlinear_arith)
        requires
            f > 0,
            v > 0,
    ;
    if h.fts_rank > 0 && h.vec_rank == 0 {
        assert(score_num(h) == v);
        assert(v * f == f * v) by (nonlinear_arith);
    }
    if h.fts_rank == 0 && h.vec_rank > 0 {
        assert(score_num(h) == f);
        assert(f * v == f * v);
    }
    if h.fts_rank > 0 && h.vec_rank > 0 {
        assert(score_num(h) == v + f);
        assert((v + f) * f * v == (f * v) * (f + v)) by (nonlinear_arith);
    }
}

/// A better vector rank never scores lower: with the full-text rank fixed, a
/// hit at vector rank `a` scores at least what one at rank `b >= a` does.
pub proof fn lemma_vec_rank_monotone(x: FusedHit, y: FusedHit)
    requires
        0 < y.vec_rank <= x.vec_rank,
        x.fts_rank == y.fts_rank,
    ensures
        score_le(x, y),
{
    let a = RRF_K + y.vec_rank;
    let b = RRF_K + x.vec_rank;
    let f = RRF_K + x.fts_rank;
    let c: int = if x.fts_rank > 0 { 1 } else { 0 };
    assert(score_num(x) == c * b + f);
    assert(score_num(y) == c * a + f);
    assert(score_den(x) == f * b);
    assert(score_den(y) == f * a);
    assert((c * b + f) * (f * a) <= (c * a + f) * (f * b)) by (nonlinear_arith)
        requires
            0 < a <= b,
            f > 0,
            0 <= c <= 1,
    ;
}

/// Score order is total.
pub proof fn lemma_score_le_total(a: FusedHit, b: FusedHit)
    ensures
        score_le(a, b) || score_le(b, a),
{
}

proof fn lemma_rank_of(list: Seq<i64>, id: i64, i: int)
    requires
        0 <= i <= list.len(),
        forall|k: int| 0 <= k < i ==> list[k] != id,
    ensures
        i < list.len() && list[i] == id ==> rank_of(list, id) == i + 1,
        i == list.len() ==> rank_of(list, id) == 0,
    decreases i,
{
    if i > 0 {
        lemma_rank_of(list.drop_first(), id, i - 1);
    } else if list.len() > 0 && list[0] != id {
        // nothing to show for the first position
    }
}

fn rank_exec(list: &Vec<i64>, id: i64) -> (r: u64)
    requires
        list@.len() < 0x1_0000_0000,
    ensures
        r == rank_of(list@, id),
        r <= list@.len(),
{
    let mut i: usize = 0;
    while i < list.len()
        invariant
            0 <= i <= list@.len(),
            list@.len() < 0x1_0000_0000,
            forall|k: int| 0 <= k < i ==> list@[k] != id,
        decreases list@.len() - i,
    {
        if list[i] == id {
            proof {
                lemma_rank_of(list@, id, i as int);
            }
            return (i + 1) as u64;
        }
        i = i + 1;
    }
    proof {
        lemma_rank_of(list@, id, i as int);
    }
    0
}

proof fn lemma_keep_allowed(s: Seq<i64>, allowed: Option<Seq<i64>>)
    requires
        distinct(s),
    ensures
        distinct(keep_allowed(s, allowed)),
        forall|x: i64| keep_allowed(s, allowed).contains(x) <==> (s.contains(x) && allowed_in(allowed, x)),
    decreases s.len(),
{
    if s.len() > 0 {
        let init = s.drop_last();
        assert(distinct(init));
        lemma_keep_allowed(init, allowed);
        let p = keep_allowed(init, allowed);
        assert forall|x: i64| keep_allowed(s, allowed).contains(x) <==> (s.contains(x) && allowed_in(allowed, x)) by {
            if s.contains(x) {
                let k = choose|k: int| 0 <= k < s.len() && s[k] == x;
                if k < s.len() - 1 {
                    assert(init[k] == x);
                }
            }
            if init.contains(x) {
                let k = choose|k: int| 0 <= k < init.len() && init[k] == x;
                assert(s[k] == x);
            }
            if x == s.last() {
                assert(s[s.len() - 1] == x);
            }
            if allowed_in(allowed, s.last()) {
                let p2 = p.push(s.last());
                if p2.contains(x) {
                    let k = choose|k: int| 0 <= k < p2.len() && p2[k] == x;
                    if k < p.len() {
                        assert(p[k] == x);
                    }
                }
                if p.contains(x) {
                    let k = choose|k: int| 0 <= k < p.len() && p[k] == x;
                    assert(p2[k] == x);
                }
                if x == s.last() {
                    assert(p2[p.len() as int] == x);
                }
            }
        }
        if allowed_in(allowed, s.last()) {
            let p2 = p.push(s.last());
            assert(!init.contains(s.last())) by {
                if init.contains(s.last()) {
                    let k = choose|k: int| 0 <= k < init.len() && init[k] == s.last();
                    assert(s[k] == s[s.len() - 1]);
                }
            }
            assert forall|i: int, j: int| 0 <= i < j < p2.len() implies p2[i] != p2[j] by {
                if j == p.len() {
                    assert(p.contains(p2[i]));
                }
            }
        }
    } else {
        assert(keep_allowed(s, allowed) =~= seq![]);
    }
}

fn allow_contains(allowed: &Vec<i64>, id: i64) -> (r: bool)
    ensures
        r == allowed@.contains(id),
{
    let mut i: usize = 0;
    while i < allowed.len()
        invariant
            0 <= i <= allowed@.len(),
            forall|k: int| 0 <= k < i ==> allowed@[k] != id,
        decreases allowed@.len() - i,
    {
        if allowed[i] == id {
            assert(allowed@[i as int] == id);
            return true;
        }
        i = i + 1;
    }
    false
}

proof fn lemma_keep_allowed_distinct(fts: Seq<i64>, vec: Seq<i64>, allowed: Option<Seq<i64>>)
    ensures
        distinct(candidates(fts, vec, allowed)),
{
    lemma_dedup(fts + vec);
    lemma_keep_allowed(dedup(fts + vec), allowed);
}

/// The fusion candidates, computed.
fn candidate_ids(fts: &Vec<i64>, vec: &Vec<i64>, allowed: &Option<Vec<i64>>) -> (r: Vec<i64>)
    ensures
        r@ == candidates(fts@, vec@, allowed_view(*allowed)),
        distinct(r@),
        forall|x: i64| r@.contains(x) <==> ((fts@.contains(x) || vec@.contains(x)) && allowed_in(allowed_view(*allowed), x)),
{
    let mut all: Vec<i64> = Vec::new();
    let ghost empty: Seq<i64> = seq![];
    proof {
        assert(dedup(empty) =~= seq![]);
    }
    append_new(&mut all, fts, Ghost(empty));
    proof {
        assert(empty + fts@ =~= fts@);
    }
    append_new(&mut all, vec, Ghost(fts@));
    proof {
        lemma_dedup(fts@ + vec@);
    }
    let ghost av = allowed_view(*allowed);
    let mut out: Vec<i64> = Vec::new();
    let mut i: usize = 0;
    while i < all.len()
        invariant
            0 <= i <= all@.len(),
            av == allowed_view(*allowed),
            out@ == keep_allowed(all@.take(i as int), av),
        decreases all@.len() - i,
    {
        proof {
            assert(all@.take(i + 1).drop_last() =~= all@.take(i as int));
        }
        let x = all[i];
        let keep = match allowed {
            None => true,
            Some(a) => allow_contains(a, x),
        };
        if keep {
            out.push(x);
        }
        i = i + 1;
    }
    proof {
        assert(all@.take(all@.len() as int) =~= all@);
        lemma_keep_allowed(all@, av);
        assert forall|x: i64| (fts@ + vec@).contains(x) <==> (fts@.contains(x) || vec@.contains(x)) by {
            let fv = fts@ + vec@;
            if fv.contains(x) {
                let k = choose|k: int| 0 <= k < fv.len() && fv[k] == x;
                if k < fts@.len() {
                    assert(fts@[k] == x);
                } else {
                    assert(vec@[k - fts@.len()] == x);
                }
            }
            if fts@.contains(x) {
                let k = choose|k: int| 0 <= k < fts@.len() && fts@[k] == x;
                assert(fv[k] == x);
            }
            if vec@.contains(x) {
                let k = choose|k: int| 0 <= k < vec@.len() && vec@[k] == x;
                assert(fv[k + fts@.len()] == x);
            }
        }
    }
    out
}

/// Exact score comparison: whether `a` scores at most what `b` scores.
pub fn score_le_exec(a: &FusedHit, b: &FusedHit) -> (r: bool)
    requires
        bounded(*a),
        bounded(*b),
    ensures
        r == score_le(*a, *b),
{
    let (na, da) = a.score_fraction();
    let (nb, db) = b.score_fraction();
    assert(na * db < 0x1_0000_0000_0000_0000_0000_0000_0000) by (nonlinear_arith)
        requires
            na < 0x4_0000_0000,
            db < 0x4_0000_0000_0000_0000,
    ;
    assert(nb * da < 0x1_0000_0000_0000_0000_0000_0000_0000) by (nonlinear_arith)
        requires
            nb < 0x4_0000_0000,
            da < 0x4_0000_0000_0000_0000,
    ;
    na * db <= nb * da
}

impl FusedHit {
    /// The score as an exact fraction `(numerator, denominator)`.
    pub fn score_fraction(&self) -> (r: (u128, u128))
        requires
            bounded(*self),
        ensures
            r.0 == score_num(*self),
            r.1 == score_den(*self),
            r.0 < 0x4_0000_0000,
            0 < r.1 < 0x4_0000_0000_0000_0000,
    {
        let f: u128 = RRF_K as u128 + self.fts_rank as u128;
        let v: u128 = RRF_K as u128 + self.vec_rank as u128;
        let mut num: u128 = 0;
        if self.fts_rank > 0 {
            num = num + v;
        }
        if self.vec_rank > 0 {
            num = num + f;
        }
        assert(f * v < 0x4_0000_0000_0000_0000 && f * v > 0) by (nonlinear_arith)
            requires
                0 < f < 0x2_0000_0000,
                0 < v < 0x2_0000_0000,
        ;
        (num, f * v)
    }

    /// Whether the hit came from the vector path alone (when that path ran).
    pub fn is_semantic(&self, use_vec: bool) -> (r: bool)
        ensures
            r == (use_vec && self.vec_rank > 0 && self.fts_rank == 0),
    {
        use_vec && self.vec_rank > 0 && self.fts_rank == 0
    }
}

/// Membership of a hit in a list, by value.
pub open spec fn holds_hit(s: Seq<FusedHit>, h: FusedHit) -> bool {
    exists|k: int| 0 <= k < s.len() && s[k] == h
}

/// Fuses the two rankings: the allowed candidates, best score first, at most
/// `limit` of them.
pub fn fuse(fts: &Vec<i64>, vec: &Vec<i64>, allowed: &Option<Vec<i64>>, limit: usize) -> (r: Vec<FusedHit>)
    requires
        distinct(fts@),
        distinct(vec@),
        fts@.len() < 0x1_0000_0000,
        vec@.len() < 0x1_0000_0000,
    ensures
        ({
            let c = candidates(fts@, vec@, allowed_view(*allowed));
            &&& r@.len() == (if limit < c.len() { limit as int } else { c.len() as int })
            &&& forall|i: int| 0 <= i < r@.len() ==> r@[i] == hit_of(fts@, vec@, r@[i].doc_id)
                && c.contains(#[trigger] r@[i].doc_id)
            &&& forall|i: int, j: int| 0 <= i < j < r@.len() ==> r@[i].doc_id != r@[j].doc_id
            &&& forall|i: int, j: int| 0 <= i < j < r@.len() ==> score_le(r@[j], r@[i])
            &&& forall|id: i64, i: int|
                #[trigger] c.contains(id) && (forall|k: int| 0 <= k < r@.len() ==> r@[k].doc_id != id) && 0 <= i
                    < r@.len() ==> score_le(hit_of(fts@, vec@, id), #[trigger] r@[i])
        }),
{
    let cands = candidate_ids(fts, vec, allowed);
    let ghost c = candidates(fts@, vec@, allowed_view(*allowed));
    let mut hits: Vec<FusedHit> = Vec::new();
    let mut i: usize = 0;
    while i < cands.len()
        invariant
            0 <= i <= cands@.len(),
            cands@ == c,
            fts@.len() < 0x1_0000_0000,
            vec@.len() < 0x1_0000_0000,
            hits@.len() == i,
            forall|k: int| 0 <= k < i ==> hits@[k] == hit_of(fts@, vec@, cands@[k]) && bounded(#[trigger] hits@[k]),
        decreases cands@.len() - i,
    {
        let id = cands[i];
        let fr = rank_exec(fts, id);
        let vr = rank_exec(vec, id);
        hits.push(FusedHit { doc_id: id, fts_rank: fr, vec_rank: vr });
        i = i + 1;
    }
    let ghost all = hits@;
    let mut rest = hits;
    let mut out: Vec<FusedHit> = Vec::new();
    proof {
        lemma_keep_allowed_distinct(fts@, vec@, allowed_view(*allowed));
        assert forall|k: int| 0 <= k < all.len() implies holds_hit(out@, #[trigger] all[k]) || holds_hit(
            rest@,
            all[k],
        ) by {
            assert(rest@[k] == all[k]);
        }
    }
    while out.len() < limit && rest.len() > 0
        invariant
            c == candidates(fts@, vec@, allowed_view(*allowed)),
            distinct(c),
            all.len() == c.len(),
            forall|k: int| 0 <= k < all.len() ==> all[k] == hit_of(fts@, vec@, c[k]) && bounded(#[trigger] all[k]),
            out@.len() + rest@.len() == all.len(),
            out@.len() <= limit,
            forall|k: int| 0 <= k < out@.len() ==> #[trigger] out@[k] == hit_of(fts@, vec@, out@[k].doc_id)
                && c.contains(out@[k].doc_id) && bounded(out@[k]),
            forall|k: int| 0 <= k < rest@.len() ==> #[trigger] rest@[k] == hit_of(fts@, vec@, rest@[k].doc_id)
                && c.contains(rest@[k].doc_id) && bounded(rest@[k]),
            forall|a: int, b: int| 0 <= a < b < out@.len() ==> out@[a].doc_id != out@[b].doc_id,
            forall|a: int, b: int| 0 <= a < b < rest@.len() ==> rest@[a].doc_id != rest@[b].doc_id,
            forall|a: int, b: int| 0 <= a < out@.len() && 0 <= b < rest@.len() ==> out@[a].doc_id != rest@[b].doc_id,
            forall|a: int, b: int| 0 <= a < b < out@.len() ==> score_le(out@[b], out@[a]),
            forall|a: int, b: int| 0 <= a < out@.len() && 0 <= b < rest@.len() ==> score_le(rest@[b], out@[a]),
            forall|k: int| 0 <= k < all.len() ==> holds_hit(out@, #[trigger] all[k]) || holds_hit(rest@, all[k]),
        decreases rest@.len(),
    {
        let mut best: usize = 0;
        let mut j: usize = 1;
        while j < rest.len()
            invariant
                0 < j <= rest@.len(),
                best < j,
                forall|k: int| 0 <= k < rest@.len() ==> bounded(#[trigger] rest@[k]),
                forall|k: int| 0 <= k < j ==> score_le(#[trigger] rest@[k], rest@[best as int]),
            decreases rest@.len() - j,
        {
            if !score_le_exec(&rest[j], &rest[best]) {
                proof {
                    lemma_score_le_total(rest@[j as int], rest@[best as int]);
                    assert forall|k: int| 0 <= k < j + 1 implies score_le(#[trigger] rest@[k], rest@[j as int]) by {
                        if k < j {
                            lemma_score_le_trans(rest@[k], rest@[best as int], rest@[j as int]);
                        }
                    }
                }
                best = j;
            }
            j = j + 1;
        }
        let ghost old_out = out@;
        let ghost old_rest = rest@;
        let x = rest.remove(best);
        out.push(x);
        proof {
            let b = best as int;
            assert(x == old_rest[b]);
            assert forall|k: int| 0 <= k < rest@.len() implies #[trigger] rest@[k] == (if k < b {
                old_rest[k]
            } else {
                old_rest[k + 1]
            }) by {}
            assert forall|k: int| 0 <= k < all.len() implies holds_hit(out@, #[trigger] all[k]) || holds_hit(
                rest@,
                all[k],
            ) by {
                if holds_hit(old_out, all[k]) {
                    let w = choose|w: int| 0 <= w < old_out.len() && old_out[w] == all[k];
                    assert(out@[w] == all[k]);
                } else {
                    let w = choose|w: int| 0 <= w < old_rest.len() && old_rest[w] == all[k];
                    if w < b {
                        assert(rest@[w] == all[k]);
                    } else if w == b {
                        assert(out@[old_out.len() as int] == all[k]);
                    } else {
                        assert(rest@[w - 1] == all[k]);
                    }
                }
            }
            assert forall|a: int, bb: int| 0 <= a < bb < out@.len() implies score_le(out@[bb], out@[a]) by {
                if bb == old_out.len() {
                    assert(score_le(old_rest[b], old_out[a]));
                }
            }
            assert forall|a: int, bb: int| 0 <= a < out@.len() && 0 <= bb < rest@.len() implies score_le(
                rest@[bb],
                out@[a],
            ) by {
                let ob = if bb < b { bb } else { bb + 1 };
                assert(rest@[bb] == old_rest[ob]);
                if a == old_out.len() {
                    assert(score_le(old_rest[ob], old_rest[b]));
                }
            }
            assert forall|a: int, bb: int| 0 <= a < bb < out@.len() implies out@[a].doc_id != out@[bb].doc_id by {
                if bb == old_out.len() {
                    assert(old_out[a].doc_id != old_rest[b].doc_id);
                }
            }
            assert forall|a: int, bb: int| 0 <= a < out@.len() && 0 <= bb < rest@.len() implies out@[a].doc_id
                != rest@[bb].doc_id by {
                let ob = if bb < b { bb } else { bb + 1 };
                assert(rest@[bb] == old_rest[ob]);
            }
            assert forall|a: int, bb: int| 0 <= a < bb < rest@.len() implies rest@[a].doc_id != rest@[bb].doc_id by {
                let oa = if a < b { a } else { a + 1 };
                let ob = if bb < b { bb } else { bb + 1 };
                assert(rest@[a] == old_rest[oa]);
                assert(rest@[bb] == old_rest[ob]);
            }
            assert forall|k: int| 0 <= k < out@.len() implies #[trigger] out@[k] == hit_of(fts@, vec@, out@[k].doc_id)
                && c.contains(out@[k].doc_id) && bounded(out@[k]) by {
                if k == old_out.len() {
                    assert(out@[k] == old_rest[b]);
                }
            }
            assert forall|k: int| 0 <= k < rest@.len() implies #[trigger] rest@[k] == hit_of(fts@, vec@, rest@[k].doc_id)
                && c.contains(rest@[k].doc_id) && bounded(rest@[k]) by {
                let ok = if k < b { k } else { k + 1 };
                assert(rest@[k] == old_rest[ok]);
            }
        }
    }
    proof {
        assert forall|id: i64, i: int|
            #[trigger] c.contains(id) && (forall|k: int| 0 <= k < out@.len() ==> out@[k].doc_id != id) && 0 <= i
                < out@.len() implies score_le(hit_of(fts@, vec@, id), #[trigger] out@[i]) by {
            let k = choose|k: int| 0 <= k < c.len() && c[k] == id;
            assert(all[k] == hit_of(fts@, vec@, id));
            if holds_hit(out@, all[k]) {
                let w = choose|w: int| 0 <= w < out@.len() && out@[w] == all[k];
                assert(out@[w].doc_id == id);
            } else {
                let w = choose|w: int| 0 <= w < rest@.len() && rest@[w] == all[k];
                assert(score_le(rest@[w], out@[i]));
            }
        }
    }
    out
}

} // verus!
