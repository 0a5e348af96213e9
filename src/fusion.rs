//! Reciprocal Rank Fusion of a keyword ranking and a semantic ranking of
//! chunks, with exact fractional scores.
use vstd::prelude::*;

verus! {

/// The fusion constant: a chunk at rank `r` (from 0) of a list contributes
/// `1 / (RRF_K + r + 1)`.
pub const RRF_K: u128 = 60;

/// A ranked chunk.
#[derive(Clone, Debug)]
pub struct ChunkRef {
    pub path: String,
    pub chunk_id: String,
    pub start_byte: i64,
    pub end_byte: i64,
}

/// A fused result: the chunk and its score `score_num / score_den`.
#[derive(Clone, Debug)]
pub struct FusedHit {
    pub hit: ChunkRef,
    pub score_num: u128,
    pub score_den: u128,
}

/// A chunk of the fused list with its score `num / den`.
pub struct Fused {
    pub hit: ChunkRef,
    pub num: int,
    pub den: int,
}

/// Fused numerators and denominators stay below this bound, so that the
/// cross products that compare two scores fit in 128 bits.
pub const SCORE_BOUND: u128 = 0x1_0000_0000_0000_0000;

/// The first position of chunk `id` in a ranked list.
pub open spec fn index_of(l: Seq<ChunkRef>, id: Seq<char>) -> Option<int>
    decreases l.len(),
{
    if l.len() == 0 {
        None
    } else {
        match index_of(l.drop_last(), id) {
            Some(i) => Some(i),
            None => if l.last().chunk_id@ == id {
                Some(l.len() - 1)
            } else {
                None
            },
        }
    }
}

/// The rank (from 0) of position `p` of the two lists one after the other,
/// within its own list.
pub open spec fn rank_at(na: int, p: int) -> int {
    if p < na { p } else { p - na }
}

/// The score of chunk `id` over positions below `n` of `all` (the two lists
/// one after the other), as (numerator, denominator): the sum of
/// `1 / (61 + rank)` over its occurrences.
pub open spec fn acc(all: Seq<ChunkRef>, na: int, id: Seq<char>, n: int) -> (int, int)
    decreases n,
{
    if n <= 0 {
        (0, 1)
    } else {
        let (x, y) = acc(all, na, id, n - 1);
        if all[n - 1].chunk_id@ == id {
            let c = RRF_K + 1 + rank_at(na, n - 1);
            (x * c + y, y * c)
        } else {
            (x, y)
        }
    }
}

/// The chunk at `p` appeared earlier.
pub open spec fn seen_before(all: Seq<ChunkRef>, p: int) -> bool {
    exists|q: int| 0 <= q < p && #[trigger] all[q].chunk_id@ == all[p].chunk_id@
}

/// The positions below `n` where a chunk appears for the first time.
pub open spec fn firsts(all: Seq<ChunkRef>, n: int) -> Seq<int>
    decreases n,
{
    if n <= 0 {
        Seq::empty()
    } else if seen_before(all, n - 1) {
        firsts(all, n - 1)
    } else {
        firsts(all, n - 1).push(n - 1)
    }
}

/// Every chunk of either list once, in order of first appearance (first list
/// first), with its fused score.
pub open spec fn fused_list(a: Seq<ChunkRef>, b: Seq<ChunkRef>) -> Seq<Fused> {
    let all = a + b;
    firsts(all, all.len() as int).map_values(
        |p: int|
            Fused {
                hit: all[p],
                num: acc(all, a.len() as int, all[p].chunk_id@, all.len() as int).0,
                den: acc(all, a.len() as int, all[p].chunk_id@, all.len() as int).1,
            },
    )
}

/// Every fused score is held exactly in 64-bit numerator and denominator.
pub open spec fn scores_fit(fl: Seq<Fused>) -> bool {
    forall|i: int| 0 <= i < fl.len() ==> (#[trigger] fl[i]).num < SCORE_BOUND && fl[i].den < SCORE_BOUND
}

/// The numerator of a chunk's fused score.
pub open spec fn score_num(e: Fused) -> int {
    e.num
}

/// The denominator of a chunk's fused score.
pub open spec fn score_den(e: Fused) -> int {
    e.den
}

/// `x` scores strictly higher than `y`.
pub open spec fn scores_above(x: Fused, y: Fused) -> bool {
    score_num(x) * score_den(y) > score_num(y) * score_den(x)
}

/// Entry `i` of `fl` comes before entry `j`: a higher score, or an equal one
/// and an earlier first appearance.
pub open spec fn ahead(fl: Seq<Fused>, i: int, j: int) -> bool {
    scores_above(fl[i], fl[j]) || (!scores_above(fl[j], fl[i]) && i < j)
}

/// `idx` picks, one after the other, the best entry of `fl` not picked yet,
/// `min(k, |fl|)` times.
pub open spec fn top_k_of(fl: Seq<Fused>, k: int, idx: Seq<int>) -> bool {
    &&& idx.len() == if k < fl.len() { k } else { fl.len() as int }
    &&& forall|m: int| 0 <= m < idx.len() ==> 0 <= #[trigger] idx[m] < fl.len()
    &&& forall|m: int, n: int| 0 <= m < n < idx.len() ==> #[trigger] idx[m] != #[trigger] idx[n]
    &&& forall|m: int, j: int|
        0 <= m < idx.len() && 0 <= j < fl.len() && j != idx[m] && (forall|p: int|
            0 <= p < m ==> #[trigger] idx[p] != j) ==> #[trigger] ahead(fl, idx[m], j)
}

/// `h` is entry `e` with its exact score.
pub open spec fn hit_is(h: FusedHit, e: Fused) -> bool {
    &&& h.hit.path@ == e.hit.path@
    &&& h.hit.chunk_id@ == e.hit.chunk_id@
    &&& h.hit.start_byte == e.hit.start_byte
    &&& h.hit.end_byte == e.hit.end_byte
    &&& h.score_num == score_num(e)
    &&& h.score_den == score_den(e)
}

/// No two chunks of the fused list score the same.
pub open spec fn scores_distinct(fl: Seq<Fused>) -> bool {
    forall|i: int, j: int|
        0 <= i < j < fl.len() ==> score_num(#[trigger] fl[i]) * score_den(#[trigger] fl[j])
            != score_num(fl[j]) * score_den(fl[i])
}

/// `h` has a score at least that of `g`.
pub open spec fn scores_at_least(h: FusedHit, g: FusedHit) -> bool {
    h.score_num * g.score_den >= g.score_num * h.score_den
}

proof fn lemma_above_trans(x: Fused, y: Fused, z: Fused)
    requires
        score_den(x) > 0,
        score_den(y) > 0,
        score_den(z) > 0,
        score_num(x) > 0,
        score_num(y) > 0,
        score_num(z) > 0,
    ensures
        scores_above(x, y) && !scores_above(z, y) ==> scores_above(x, z),
        !scores_above(y, x) && scores_above(y, z) ==> scores_above(x, z),
        !scores_above(y, x) && !scores_above(z, y) ==> !scores_above(z, x),
{
    let (nx, ny, nz, dx, dy, dz) = (
        score_num(x),
        score_num(y),
        score_num(z),
        score_den(x),
        score_den(y),
        score_den(z),
    );
    assert(nx * dy > ny * dx && nz * dy <= ny * dz ==> nx * dz > nz * dx) by (nonlinear_arith)
        requires
            dx > 0,
            dy > 0,
            dz > 0,
            nx > 0,
            ny > 0,
            nz > 0,
    ;
    assert(ny * dx <= nx * dy && ny * dz > nz * dy ==> nx * dz > nz * dx) by (nonlinear_arith)
        requires
            dx > 0,
            dy > 0,
            dz > 0,
            nx > 0,
            ny > 0,
            nz > 0,
    ;
    assert(ny * dx <= nx * dy && nz * dy <= ny * dz ==> nz * dx <= nx * dz) by (nonlinear_arith)
        requires
            dx > 0,
            dy > 0,
            dz > 0,
            nx > 0,
            ny > 0,
            nz > 0,
    ;
}

proof fn lemma_score_pos(e: Fused)
    requires
        1 <= e.num,
        1 <= e.den,
    ensures
        score_num(e) > 0,
        score_den(e) > 0,
{
}

/// Every fused score is positive and held in 64 bits.
pub open spec fn well_ranked(fl: Seq<Fused>) -> bool {
    forall|i: int|
        0 <= i < fl.len() ==> 1 <= (#[trigger] fl[i]).num < SCORE_BOUND && 1 <= fl[i].den < SCORE_BOUND
}

proof fn lemma_ahead_trans(fl: Seq<Fused>, i: int, j: int, k: int)
    requires
        well_ranked(fl),
        0 <= i < fl.len(),
        0 <= j < fl.len(),
        0 <= k < fl.len(),
        ahead(fl, i, j),
        ahead(fl, j, k),
    ensures
        ahead(fl, i, k),
{
    lemma_score_pos(fl[i]);
    lemma_score_pos(fl[j]);
    lemma_score_pos(fl[k]);
    lemma_above_trans(fl[i], fl[j], fl[k]);
    lemma_above_trans(fl[k], fl[j], fl[i]);
    lemma_above_trans(fl[j], fl[k], fl[i]);
    lemma_above_trans(fl[i], fl[k], fl[j]);
}

proof fn lemma_ahead_total(fl: Seq<Fused>, i: int, j: int)
    requires
        well_ranked(fl),
        0 <= i < fl.len(),
        0 <= j < fl.len(),
        i != j,
    ensures
        ahead(fl, i, j) || ahead(fl, j, i),
        !(ahead(fl, i, j) && ahead(fl, j, i)),
{
    lemma_score_pos(fl[i]);
    lemma_score_pos(fl[j]);
    let (ni, nj, di, dj) = (score_num(fl[i]), score_num(fl[j]), score_den(fl[i]), score_den(fl[j]));
}

fn above(n1: u128, d1: u128, n2: u128, d2: u128) -> (r: bool)
    requires
        n1 < SCORE_BOUND,
        n2 < SCORE_BOUND,
        d1 < SCORE_BOUND,
        d2 < SCORE_BOUND,
    ensures
        r == (n1 * d2 > n2 * d1),
{
    assert(n1 * d2 < 0x1_0000_0000_0000_0000_0000_0000_0000_0000) by (nonlinear_arith)
        requires
            n1 < 0x1_0000_0000_0000_0000,
            d2 < 0x1_0000_0000_0000_0000,
    ;
    assert(n2 * d1 < 0x1_0000_0000_0000_0000_0000_0000_0000_0000) by (nonlinear_arith)
        requires
            n2 < 0x1_0000_0000_0000_0000,
            d1 < 0x1_0000_0000_0000_0000,
    ;
    n1 * d2 > n2 * d1
}

fn copy_ref(c: &ChunkRef) -> (r: ChunkRef)
    ensures
        r.path@ == c.path@,
        r.chunk_id@ == c.chunk_id@,
        r.start_byte == c.start_byte,
        r.end_byte == c.end_byte,
{
    ChunkRef {
        path: c.path.clone(),
        chunk_id: c.chunk_id.clone(),
        start_byte: c.start_byte,
        end_byte: c.end_byte,
    }
}

proof fn lemma_index_of_some(l: Seq<ChunkRef>, i: int)
    requires
        0 <= i < l.len(),
    ensures
        index_of(l, l[i].chunk_id@) is Some,
    decreases l.len(),
{
    if i < l.len() - 1 {
        lemma_index_of_some(l.drop_last(), i);
        assert(l.drop_last()[i] == l[i]);
    }
}

/// `x` and `y` name the same chunk at the same place.
pub open spec fn same_ref(x: ChunkRef, y: ChunkRef) -> bool {
    x.path@ == y.path@ && x.chunk_id@ == y.chunk_id@ && x.start_byte == y.start_byte && x.end_byte == y.end_byte
}

/// Entry `k` of `es` is the chunk first seen at `firsts(all, p)[k]`, with its
/// score over the first `p` positions.
pub open spec fn entry_ok(es: Seq<FusedHit>, all: Seq<ChunkRef>, na: int, p: int, k: int) -> bool {
    &&& 0 <= firsts(all, p)[k] < p
    &&& same_ref(es[k].hit, all[firsts(all, p)[k]])
    &&& es[k].score_num == acc(all, na, es[k].hit.chunk_id@, p).0
    &&& es[k].score_den == acc(all, na, es[k].hit.chunk_id@, p).1
    &&& 1 <= es[k].score_num < SCORE_BOUND
    &&& 1 <= es[k].score_den < SCORE_BOUND
}

pub open spec fn inv_entries(es: Seq<FusedHit>, all: Seq<ChunkRef>, na: int, p: int) -> bool {
    forall|k: int| 0 <= k < es.len() ==> #[trigger] entry_ok(es, all, na, p, k)
}

pub open spec fn inv_distinct(es: Seq<FusedHit>) -> bool {
    forall|k: int, l: int|
        0 <= k < l < es.len() ==> (#[trigger] es[k]).hit.chunk_id@ != (#[trigger] es[l]).hit.chunk_id@
}

pub open spec fn inv_cover(es: Seq<FusedHit>, all: Seq<ChunkRef>, p: int) -> bool {
    forall|q: int|
        0 <= q < p ==> exists|k: int|
            0 <= k < es.len() && (#[trigger] es[k]).hit.chunk_id@ == (#[trigger] all[q]).chunk_id@
}

/// After the first `p` positions of `all`, `es` holds each chunk seen so far
/// once, in order of first appearance, with its score so far.
pub open spec fn agg_inv(es: Seq<FusedHit>, all: Seq<ChunkRef>, na: int, p: int) -> bool {
    &&& es.len() == firsts(all, p).len()
    &&& inv_entries(es, all, na, p)
    &&& inv_distinct(es)
    &&& inv_cover(es, all, p)
}

/// Every chunk of the fused list is named once, and comes from one of the
/// two lists.
pub open spec fn fl_sound(fl: Seq<Fused>, a: Seq<ChunkRef>, b: Seq<ChunkRef>) -> bool {
    &&& forall|i: int, j: int|
        0 <= i < j < fl.len() ==> (#[trigger] fl[i]).hit.chunk_id@ != (#[trigger] fl[j]).hit.chunk_id@
    &&& forall|i: int|
        0 <= i < fl.len() ==> index_of(a, (#[trigger] fl[i]).hit.chunk_id@) is Some || index_of(
            b,
            fl[i].hit.chunk_id@,
        ) is Some
}

proof fn lemma_acc_mono(all: Seq<ChunkRef>, na: int, id: Seq<char>, n: int, m: int)
    requires
        0 <= na,
        0 <= n <= m <= all.len(),
    ensures
        0 <= acc(all, na, id, n).0 <= acc(all, na, id, m).0,
        1 <= acc(all, na, id, n).1 <= acc(all, na, id, m).1,
    decreases m,
{
    if m > n {
        lemma_acc_mono(all, na, id, n, m - 1);
        let (x, y) = acc(all, na, id, m - 1);
        let c = RRF_K + 1 + rank_at(na, m - 1);
        assert(x * c + y >= x && y * c >= y) by (nonlinear_arith)
            requires
                x >= 0,
                y >= 1,
                c >= 1,
        ;
    } else if n > 0 {
        lemma_acc_mono(all, na, id, n - 1, n - 1);
        let (x, y) = acc(all, na, id, n - 1);
        let c = RRF_K + 1 + rank_at(na, n - 1);
        assert(x * c + y >= 0 && y * c >= 1) by (nonlinear_arith)
            requires
                x >= 0,
                y >= 1,
                c >= 1,
        ;
    }
}

proof fn lemma_acc_absent(all: Seq<ChunkRef>, na: int, id: Seq<char>, n: int)
    requires
        0 <= n <= all.len(),
        forall|q: int| 0 <= q < n ==> (#[trigger] all[q]).chunk_id@ != id,
    ensures
        acc(all, na, id, n) == (0int, 1int),
    decreases n,
{
    if n > 0 {
        lemma_acc_absent(all, na, id, n - 1);
    }
}

proof fn lemma_firsts_prefix(all: Seq<ChunkRef>, n: int, m: int)
    requires
        0 <= n <= m,
    ensures
        firsts(all, n).len() <= firsts(all, m).len(),
        forall|k: int| 0 <= k < firsts(all, n).len() ==> #[trigger] firsts(all, m)[k] == firsts(all, n)[k],
    decreases m,
{
    if m > n {
        lemma_firsts_prefix(all, n, m - 1);
    }
}

proof fn lemma_overflow_final(a: Seq<ChunkRef>, b: Seq<ChunkRef>, n: int, k: int)
    requires
        0 <= n <= (a + b).len(),
        0 <= k < firsts(a + b, n).len(),
        firsts(a + b, n)[k] < n,
        acc(a + b, a.len() as int, (a + b)[firsts(a + b, n)[k]].chunk_id@, n).0 >= SCORE_BOUND
            || acc(a + b, a.len() as int, (a + b)[firsts(a + b, n)[k]].chunk_id@, n).1 >= SCORE_BOUND,
    ensures
        !scores_fit(fused_list(a, b)),
{
    let all = a + b;
    let l = all.len() as int;
    lemma_firsts_prefix(all, n, l);
    let id = all[firsts(all, n)[k]].chunk_id@;
    lemma_acc_mono(all, a.len() as int, id, n, l);
    let fl = fused_list(a, b);
    assert(fl[k].num == acc(all, a.len() as int, id, l).0);
}

fn find_entry(es: &Vec<FusedHit>, id: &String) -> (r: Option<usize>)
    ensures
        match r {
            Some(k) => k < es@.len() && es@[k as int].hit.chunk_id@ == id@,
            None => forall|q: int| 0 <= q < es@.len() ==> (#[trigger] es@[q]).hit.chunk_id@ != id@,
        },
{
    let mut k: usize = 0;
    while k < es.len()
        invariant
            k <= es@.len(),
            forall|q: int| 0 <= q < k ==> (#[trigger] es@[q]).hit.chunk_id@ != id@,
        decreases es.len() - k,
    {
        if es[k].hit.chunk_id == *id {
            return Some(k);
        }
        k = k + 1;
    }
    None
}

/// Entry `k` of the first-appearance list after `n` positions has a score
/// that does not fit.
pub open spec fn entry_overflow(all: Seq<ChunkRef>, na: int, n: int, k: int) -> bool {
    &&& 0 <= k < firsts(all, n).len()
    &&& firsts(all, n)[k] < n
    &&& (acc(all, na, all[firsts(all, n)[k]].chunk_id@, n).0 >= SCORE_BOUND || acc(
        all,
        na,
        all[firsts(all, n)[k]].chunk_id@,
        n,
    ).1 >= SCORE_BOUND)
}

proof fn lemma_inv_update(old_es: Seq<FusedHit>, e: FusedHit, all: Seq<ChunkRef>, na: int, p: int, k: int)
    requires
        agg_inv(old_es, all, na, p),
        0 <= p < all.len(),
        0 <= k < old_es.len(),
        old_es[k].hit.chunk_id@ == all[p].chunk_id@,
        same_ref(e.hit, old_es[k].hit),
        e.score_num == acc(all, na, all[p].chunk_id@, p + 1).0,
        e.score_den == acc(all, na, all[p].chunk_id@, p + 1).1,
        1 <= e.score_num < SCORE_BOUND,
        1 <= e.score_den < SCORE_BOUND,
    ensures
        firsts(all, p + 1) == firsts(all, p),
        agg_inv(old_es.update(k, e), all, na, p + 1),
{
    let es = old_es.update(k, e);
    assert(entry_ok(old_es, all, na, p, k));
    assert(seen_before(all, p));
    assert forall|j: int| 0 <= j < es.len() implies #[trigger] entry_ok(es, all, na, p + 1, j) by {
        assert(entry_ok(old_es, all, na, p, j));
        if j != k {
            assert(old_es[j].hit.chunk_id@ != old_es[k].hit.chunk_id@);
            assert(es[j] == old_es[j]);
        }
    }
    lemma_update_cover(old_es, e, all, p, k);
    assert forall|j: int, l: int| 0 <= j < l < es.len() implies (#[trigger] es[j]).hit.chunk_id@
        != (#[trigger] es[l]).hit.chunk_id@ by {
        assert(old_es[j].hit.chunk_id@ != old_es[l].hit.chunk_id@);
    }
}

proof fn lemma_update_cover(old_es: Seq<FusedHit>, e: FusedHit, all: Seq<ChunkRef>, p: int, k: int)
    requires
        inv_cover(old_es, all, p),
        0 <= k < old_es.len(),
        old_es[k].hit.chunk_id@ == all[p].chunk_id@,
        e.hit.chunk_id@ == old_es[k].hit.chunk_id@,
    ensures
        inv_cover(old_es.update(k, e), all, p + 1),
{
    let es = old_es.update(k, e);
    assert forall|q: int| 0 <= q < p + 1 implies exists|j: int|
        0 <= j < es.len() && (#[trigger] es[j]).hit.chunk_id@ == (#[trigger] all[q]).chunk_id@ by {
        if q < p {
            let j = choose|j: int| 0 <= j < old_es.len() && (#[trigger] old_es[j]).hit.chunk_id@ == all[q].chunk_id@;
            assert(es[j].hit.chunk_id@ == old_es[j].hit.chunk_id@);
        } else {
            assert(es[k].hit.chunk_id@ == all[q].chunk_id@);
        }
    }
}

proof fn lemma_inv_push(old_es: Seq<FusedHit>, e: FusedHit, all: Seq<ChunkRef>, na: int, p: int)
    requires
        agg_inv(old_es, all, na, p),
        0 <= p < all.len(),
        forall|q: int| 0 <= q < old_es.len() ==> (#[trigger] old_es[q]).hit.chunk_id@ != all[p].chunk_id@,
        same_ref(e.hit, all[p]),
        e.score_num == acc(all, na, all[p].chunk_id@, p + 1).0,
        e.score_den == acc(all, na, all[p].chunk_id@, p + 1).1,
        1 <= e.score_num < SCORE_BOUND,
        1 <= e.score_den < SCORE_BOUND,
    ensures
        firsts(all, p + 1) == firsts(all, p).push(p),
        agg_inv(old_es.push(e), all, na, p + 1),
{
    let es = old_es.push(e);
    lemma_not_seen(old_es, all, na, p);
    let n = old_es.len() as int;
    assert(firsts(all, p + 1)[n] == p);
    assert forall|j: int| 0 <= j < es.len() implies #[trigger] entry_ok(es, all, na, p + 1, j) by {
        if j < n {
            assert(entry_ok(old_es, all, na, p, j));
            assert(es[j] == old_es[j]);
            assert(firsts(all, p + 1)[j] == firsts(all, p)[j]);
            assert(old_es[j].hit.chunk_id@ != all[p].chunk_id@);
        }
    }
    lemma_push_cover(old_es, e, all, p);
    assert forall|j: int, l: int| 0 <= j < l < es.len() implies (#[trigger] es[j]).hit.chunk_id@
        != (#[trigger] es[l]).hit.chunk_id@ by {
        if l < n {
            assert(old_es[j].hit.chunk_id@ != old_es[l].hit.chunk_id@);
        } else {
            assert(es[j] == old_es[j]);
        }
    }
}

proof fn lemma_push_cover(old_es: Seq<FusedHit>, e: FusedHit, all: Seq<ChunkRef>, p: int)
    requires
        inv_cover(old_es, all, p),
        e.hit.chunk_id@ == all[p].chunk_id@,
    ensures
        inv_cover(old_es.push(e), all, p + 1),
{
    let es = old_es.push(e);
    assert forall|q: int| 0 <= q < p + 1 implies exists|j: int|
        0 <= j < es.len() && (#[trigger] es[j]).hit.chunk_id@ == (#[trigger] all[q]).chunk_id@ by {
        if q < p {
            let j = choose|j: int| 0 <= j < old_es.len() && (#[trigger] old_es[j]).hit.chunk_id@ == all[q].chunk_id@;
            assert(es[j] == old_es[j]);
        } else {
            assert(es[old_es.len() as int].hit.chunk_id@ == all[q].chunk_id@);
        }
    }
}

proof fn lemma_not_seen(old_es: Seq<FusedHit>, all: Seq<ChunkRef>, na: int, p: int)
    requires
        agg_inv(old_es, all, na, p),
        0 <= p < all.len(),
        forall|q: int| 0 <= q < old_es.len() ==> (#[trigger] old_es[q]).hit.chunk_id@ != all[p].chunk_id@,
    ensures
        !seen_before(all, p),
        firsts(all, p + 1) == firsts(all, p).push(p),
        acc(all, na, all[p].chunk_id@, p) == (0int, 1int),
{
    let id = all[p].chunk_id@;
    assert forall|q: int| 0 <= q < p implies (#[trigger] all[q]).chunk_id@ != id by {
        if all[q].chunk_id@ == id {
            let j = choose|j: int| 0 <= j < old_es.len() && (#[trigger] old_es[j]).hit.chunk_id@ == all[q].chunk_id@;
        }
    }
    lemma_acc_absent(all, na, id, p);
}

/// Adds the occurrence of `h` at position `p` (rank `rank`) to the fused
/// scores; fails when a score no longer fits.
fn absorb(
    es: &mut Vec<FusedHit>,
    h: &ChunkRef,
    rank: usize,
    Ghost(all): Ghost<Seq<ChunkRef>>,
    Ghost(na): Ghost<int>,
    Ghost(p): Ghost<int>,
) -> (ok: bool)
    requires
        agg_inv(old(es)@, all, na, p),
        0 <= na,
        0 <= p < all.len(),
        same_ref(*h, all[p]),
        rank == rank_at(na, p),
    ensures
        ok ==> agg_inv(final(es)@, all, na, p + 1),
        !ok ==> exists|k: int| #[trigger] entry_overflow(all, na, p + 1, k),
{
    let ghost id = all[p].chunk_id@;
    let ghost old_es = es@;
    let c: u128 = RRF_K + 1 + rank as u128;
    match find_entry(es, &h.chunk_id) {
        Some(k) => {
            let x = es[k].score_num;
            let y = es[k].score_den;
            proof {
                assert(entry_ok(old_es, all, na, p, k as int));
                assert(seen_before(all, p));
                assert(firsts(all, p + 1) == firsts(all, p));
                assert(acc(all, na, id, p + 1) == (x * c + y, y * c));
            }
            if c >= SCORE_BOUND {
                assert(y * c >= c) by (nonlinear_arith)
                    requires
                        y >= 1,
                        c >= 0,
                ;
                assert(entry_overflow(all, na, p + 1, k as int));
                return false;
            }
            assert(x * c + y < 0x1_0000_0000_0000_0000_0000_0000_0000_0000 && y * c
                < 0x1_0000_0000_0000_0000_0000_0000_0000_0000) by (nonlinear_arith)
                requires
                    x < 0x1_0000_0000_0000_0000,
                    y < 0x1_0000_0000_0000_0000,
                    c < 0x1_0000_0000_0000_0000,
            ;
            let nx = x * c + y;
            let ny = y * c;
            if nx >= SCORE_BOUND || ny >= SCORE_BOUND {
                assert(entry_overflow(all, na, p + 1, k as int));
                return false;
            }
            assert(nx >= 1 && ny >= 1) by (nonlinear_arith)
                requires
                    nx == x * c + y,
                    ny == y * c,
                    x >= 1,
                    y >= 1,
                    c >= 1,
            ;
            let e = FusedHit { hit: copy_ref(&es[k].hit), score_num: nx, score_den: ny };
            proof {
                lemma_inv_update(old_es, e, all, na, p, k as int);
            }
            es.set(k, e);
            true
        },
        None => {
            proof {
                lemma_not_seen(old_es, all, na, p);
            }
            if c >= SCORE_BOUND {
                assert(firsts(all, p + 1)[old_es.len() as int] == p);
                assert(entry_overflow(all, na, p + 1, old_es.len() as int));
                return false;
            }
            let e = FusedHit { hit: copy_ref(h), score_num: 1, score_den: c };
            proof {
                lemma_inv_push(old_es, e, all, na, p);
            }
            es.push(e);
            true
        },
    }
}

/// Why fusion could not score exactly.
#[derive(Clone, Copy, Debug, PartialEq, Eq, Structural)]
pub enum FusionError {
    /// Some fused score needs a numerator or denominator of 2^64 or more.
    TooLarge,
}

/// Fuses a keyword ranking and a semantic ranking by Reciprocal Rank Fusion:
/// each chunk scores the sum, over its occurrences in either list, of
/// `1 / (61 + rank)`; chunks are ordered by score, higher first, equal scores
/// in order of first appearance, and the first `top_k` are kept. Scores are
/// exact fractions; the fusion fails exactly when one of them does not fit in
/// 64-bit numerator and denominator.
pub fn rrf(bm25: &Vec<ChunkRef>, ann: &Vec<ChunkRef>, top_k: usize) -> (r: Result<Vec<FusedHit>, FusionError>)
    ensures
        r is Ok <==> scores_fit(fused_list(bm25@, ann@)),
        r matches Ok(out) ==> (exists|idx: Seq<int>|
            top_k_of(fused_list(bm25@, ann@), top_k as int, idx) && out@.len() == idx.len()
                && forall|m: int|
                0 <= m < out@.len() ==> hit_is(
                    #[trigger] out@[m],
                    fused_list(bm25@, ann@)[idx[m]],
                )),
        r matches Ok(out) ==> out@.len() <= top_k,
        r matches Ok(out) ==> (forall|m: int|
            0 <= m < out@.len() ==> index_of(bm25@, (#[trigger] out@[m]).hit.chunk_id@) is Some
                || index_of(ann@, out@[m].hit.chunk_id@) is Some),
        r matches Ok(out) ==> (forall|m: int, n: int|
            0 <= m < n < out@.len() ==> scores_at_least(#[trigger] out@[m], #[trigger] out@[n])),
        r matches Ok(out) ==> (forall|m: int, n: int|
            0 <= m < n < out@.len() ==> (#[trigger] out@[m]).hit.chunk_id@ != (
            #[trigger] out@[n]).hit.chunk_id@),
        r matches Ok(out) ==> (scores_distinct(fused_list(bm25@, ann@)) ==> forall|m: int, n: int|
            0 <= m < n < out@.len() ==> !scores_at_least(#[trigger] out@[n], #[trigger] out@[m])),
{
    let ghost all = bm25@ + ann@;
    let ghost na = bm25@.len() as int;
    let ghost fl = fused_list(bm25@, ann@);
    let mut entries: Vec<FusedHit> = Vec::new();
    let mut i: usize = 0;
    while i < bm25.len()
        invariant
            i <= bm25@.len(),
            all == bm25@ + ann@,
            na == bm25@.len(),
            agg_inv(entries@, all, na, i as int),
        decreases bm25.len() - i,
    {
        assert(all[i as int] == bm25@[i as int]);
        if !absorb(&mut entries, &bm25[i], i, Ghost(all), Ghost(na), Ghost(i as int)) {
            proof {
                let k = choose|k: int| #[trigger] entry_overflow(all, na, i + 1, k);
                lemma_overflow_final(bm25@, ann@, i + 1, k);
            }
            return Err(FusionError::TooLarge);
        }
        i = i + 1;
    }
    let mut j: usize = 0;
    while j < ann.len()
        invariant
            j <= ann@.len(),
            all == bm25@ + ann@,
            na == bm25@.len(),
            agg_inv(entries@, all, na, na + j),
        decreases ann.len() - j,
    {
        assert(all[na + j] == ann@[j as int]);
        if !absorb(&mut entries, &ann[j], j, Ghost(all), Ghost(na), Ghost(na + j)) {
            proof {
                let p1 = na + j + 1;
                let k = choose|k: int| #[trigger] entry_overflow(all, na, p1, k);
                lemma_overflow_final(bm25@, ann@, p1, k);
            }
            return Err(FusionError::TooLarge);
        }
        j = j + 1;
    }
    let n = entries.len();
    proof {
        let l = all.len() as int;
        assert(na + ann@.len() == l);
        assert(fl.len() == n);
        assert forall|m: int| 0 <= m < n implies hit_is(#[trigger] entries@[m], fl[m]) by {
            assert(entry_ok(entries@, all, na, l, m));
        }
        assert forall|k: int| 0 <= k < fl.len() implies 1 <= (#[trigger] fl[k]).num < SCORE_BOUND && 1 <= fl[k].den
            < SCORE_BOUND by {
            assert(hit_is(entries@[k], fl[k]));
            assert(entry_ok(entries@, all, na, l, k));
        }
        assert(well_ranked(fl));
        assert forall|i1: int, j1: int| 0 <= i1 < j1 < fl.len() implies (#[trigger] fl[i1]).hit.chunk_id@
            != (#[trigger] fl[j1]).hit.chunk_id@ by {
            assert(hit_is(entries@[i1], fl[i1]) && hit_is(entries@[j1], fl[j1]));
        }
        assert forall|i1: int| 0 <= i1 < fl.len() implies index_of(bm25@, (#[trigger] fl[i1]).hit.chunk_id@)
            is Some || index_of(ann@, fl[i1].hit.chunk_id@) is Some by {
            let f = firsts(all, l)[i1];
            assert(entry_ok(entries@, all, na, l, i1));
            assert(0 <= f < l);
            if f < na {
                assert(all[f] == bm25@[f]);
                lemma_index_of_some(bm25@, f);
            } else {
                assert(all[f] == ann@[f - na]);
                lemma_index_of_some(ann@, f - na);
            }
        }
        assert(fl_sound(fl, bm25@, ann@));
    }
    let count = if top_k < n { top_k } else { n };
    let mut rem: Vec<usize> = Vec::new();
    let mut r: usize = 0;
    while r < n
        invariant
            r <= n,
            rem@.len() == r,
            forall|p: int| 0 <= p < r ==> #[trigger] rem@[p] == p,
        decreases n - r,
    {
        rem.push(r);
        r = r + 1;
    }
    let ghost mut idx: Seq<int> = Seq::empty();
    assert forall|x: int| 0 <= x < n implies #[trigger] rem@.contains(x as usize) by {
        assert(rem@[x] == x as usize);
    }
    let mut out: Vec<FusedHit> = Vec::new();
    while out.len() < count
        invariant
            n == fl.len(),
            well_ranked(fl),
            fl_sound(fl, bm25@, ann@),
            fl == fused_list(bm25@, ann@),
            count <= n,
            count <= top_k,
            count == if (top_k as int) < fl.len() { top_k as int } else { fl.len() as int },
            entries@.len() == n,
            forall|m: int| 0 <= m < n ==> hit_is(#[trigger] entries@[m], fl[m]),
            out@.len() == idx.len(),
            idx.len() <= count,
            rem@.len() + idx.len() == n,
            forall|p: int| 0 <= p < rem@.len() ==> (#[trigger] rem@[p]) < n,
            forall|p: int, q: int| 0 <= p < q < rem@.len() ==> #[trigger] rem@[p] != #[trigger] rem@[q],
            forall|x: int|
                0 <= x < n ==> (#[trigger] rem@.contains(x as usize) <==> (forall|q: int|
                    0 <= q < idx.len() ==> #[trigger] idx[q] != x)),
            forall|m: int| 0 <= m < idx.len() ==> 0 <= #[trigger] idx[m] < n,
            forall|m: int, q: int| 0 <= m < q < idx.len() ==> #[trigger] idx[m] != #[trigger] idx[q],
            forall|m: int, x: int|
                0 <= m < idx.len() && 0 <= x < n && x != idx[m] && (forall|p: int|
                    0 <= p < m ==> #[trigger] idx[p] != x) ==> #[trigger] ahead(fl, idx[m], x),
            forall|m: int| 0 <= m < out@.len() ==> hit_is(#[trigger] out@[m], fl[idx[m]]),
        decreases count - out.len(),
    {
        assert(rem@.len() > 0);
        let mut bp: usize = 0;
        let mut p: usize = 1;
        while p < rem.len()
            invariant
                n == fl.len(),
                well_ranked(fl),
                entries@.len() == n,
                forall|m: int| 0 <= m < n ==> hit_is(#[trigger] entries@[m], fl[m]),
                forall|q: int| 0 <= q < rem@.len() ==> (#[trigger] rem@[q]) < n,
                1 <= p <= rem@.len(),
                bp < p,
                forall|q: int| 0 <= q < p && q != bp ==> ahead(fl, rem@[bp as int] as int, #[trigger] rem@[q] as int),
                forall|q1: int, q2: int| 0 <= q1 < q2 < rem@.len() ==> #[trigger] rem@[q1] != #[trigger] rem@[q2],
            decreases rem.len() - p,
        {
            let c = rem[p];
            let b = rem[bp];
            let ec = &entries[c];
            let eb = &entries[b];
            proof {
                lemma_score_pos(fl[c as int]);
                lemma_score_pos(fl[b as int]);
            }
            if above(ec.score_num, ec.score_den, eb.score_num, eb.score_den) || (!above(
                eb.score_num,
                eb.score_den,
                ec.score_num,
                ec.score_den,
            ) && c < b) {
                proof {
                    assert forall|q: int| 0 <= q < p + 1 && q != p implies ahead(fl, rem@[p as int] as int, #[trigger] rem@[q] as int) by {
                        if q != bp {
                            lemma_ahead_trans(fl, c as int, b as int, rem@[q] as int);
                        }
                    }
                }
                bp = p;
            } else {
                proof {
                    lemma_ahead_total(fl, b as int, c as int);
                }
            }
            p = p + 1;
        }
        let ghost prev_rem = rem@;
        let chosen = rem.remove(bp);
        let e = &entries[chosen];
        out.push(FusedHit { hit: copy_ref(&e.hit), score_num: e.score_num, score_den: e.score_den });
        proof {
            let old_idx = idx;
            assert(prev_rem[bp as int] == chosen);
            assert(prev_rem.contains((chosen as int) as usize));
            assert forall|q: int| 0 <= q < old_idx.len() implies #[trigger] old_idx[q] != chosen as int by {}
            assert forall|x: int|
                0 <= x < n && x != chosen as int && (forall|p: int|
                    0 <= p < old_idx.len() ==> #[trigger] old_idx[p] != x) implies #[trigger] ahead(
                fl,
                chosen as int,
                x,
            ) by {
                assert(prev_rem.contains(x as usize));
                let w = choose|w: int| 0 <= w < prev_rem.len() && prev_rem[w] == x as usize;
                assert(w != bp);
                assert(ahead(fl, prev_rem[bp as int] as int, prev_rem[w] as int));
            }
            idx = idx.push(chosen as int);
            assert forall|m: int, x: int|
                0 <= m < idx.len() && 0 <= x < n && x != idx[m] && (forall|p: int|
                    0 <= p < m ==> #[trigger] idx[p] != x) implies #[trigger] ahead(fl, idx[m], x) by {
                if m == old_idx.len() {
                    assert forall|p: int| 0 <= p < old_idx.len() implies #[trigger] old_idx[p] != x by {
                        assert(idx[p] == old_idx[p]);
                    }
                } else {
                    assert forall|p: int| 0 <= p < m implies #[trigger] old_idx[p] != x by {
                        assert(idx[p] == old_idx[p]);
                    }
                    assert(idx[m] == old_idx[m]);
                }
            }
            assert forall|x: int| 0 <= x < n implies (#[trigger] rem@.contains(x as usize) <==> (forall|q: int|
                0 <= q < idx.len() ==> #[trigger] idx[q] != x)) by {
                if rem@.contains(x as usize) {
                    let w = choose|w: int| 0 <= w < rem@.len() && rem@[w] == x as usize;
                    let w2 = if w < bp { w } else { w + 1 };
                    assert(prev_rem[w2] == x as usize);
                    assert(prev_rem.contains(x as usize));
                    assert(x != chosen as int);
                    assert forall|q: int| 0 <= q < idx.len() implies #[trigger] idx[q] != x by {
                        if q < old_idx.len() {
                            assert(idx[q] == old_idx[q]);
                        }
                    }
                } else {
                    if forall|q: int| 0 <= q < idx.len() ==> #[trigger] idx[q] != x {
                        assert forall|q: int| 0 <= q < old_idx.len() implies #[trigger] old_idx[q] != x by {
                            assert(idx[q] == old_idx[q]);
                        }
                        assert(idx[old_idx.len() as int] == chosen as int);
                        assert(prev_rem.contains(x as usize));
                        let w = choose|w: int| 0 <= w < prev_rem.len() && prev_rem[w] == x as usize;
                        assert(w != bp);
                        let w2 = if w < bp { w } else { w - 1 };
                        assert(rem@[w2] == x as usize);
                        assert(false);
                    }
                }
            }
        }
    }
    proof {
        assert(top_k_of(fl, top_k as int, idx));
        assert forall|m: int| 0 <= m < out@.len() implies index_of(bm25@, (#[trigger] out@[m]).hit.chunk_id@) is Some
            || index_of(ann@, out@[m].hit.chunk_id@) is Some by {
            assert(hit_is(out@[m], fl[idx[m]]));
        }
        assert forall|m: int, k: int| 0 <= m < k < out@.len() implies (#[trigger] out@[m]).hit.chunk_id@ != (
            #[trigger] out@[k]).hit.chunk_id@ by {
            assert(hit_is(out@[m], fl[idx[m]]) && hit_is(out@[k], fl[idx[k]]));
            if idx[m] < idx[k] {
            } else {
            }
        }
        assert forall|m: int, k: int| 0 <= m < k < out@.len() implies scores_at_least(#[trigger] out@[m], #[trigger] out@[k]) by {
            assert(hit_is(out@[m], fl[idx[m]]) && hit_is(out@[k], fl[idx[k]]));
            assert forall|p: int| 0 <= p < m implies #[trigger] idx[p] != idx[k] by {}
            assert(ahead(fl, idx[m], idx[k]));
        }
        if scores_distinct(fl) {
            assert forall|m: int, k: int| 0 <= m < k < out@.len() implies !scores_at_least(#[trigger] out@[k], #[trigger] out@[m]) by {
                assert(hit_is(out@[m], fl[idx[m]]) && hit_is(out@[k], fl[idx[k]]));
                assert forall|p: int| 0 <= p < m implies #[trigger] idx[p] != idx[k] by {}
                assert(ahead(fl, idx[m], idx[k]));
                if idx[m] < idx[k] {
                    assert(score_num(fl[idx[m]]) * score_den(fl[idx[k]]) != score_num(fl[idx[k]]) * score_den(fl[idx[m]]));
                } else {
                    assert(score_num(fl[idx[k]]) * score_den(fl[idx[m]]) != score_num(fl[idx[m]]) * score_den(fl[idx[k]]));
                }
            }
        }
    }
    Ok(out)
}

} // verus!
