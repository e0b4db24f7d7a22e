//! Fitness-proportionate selection over a list of candidates.
//!
//! A candidate is a pair of a state index and its votes. A draw is an integer
//! below [`DRAW_STEPS`]; it marks the fraction `draw / 1000` of the total votes
//! as the threshold, and the first candidate at which the running sum of votes
//! exceeds that threshold is picked.

use vstd::prelude::*;
use vstd::arithmetic::div_mod::lemma_fundamental_div_mod;

verus! {

/// Number of steps into which a draw divides the unit interval.
pub const DRAW_STEPS: u64 = 1000;

/// Sum of the votes of the candidates at positions `0..=last`.
pub open spec fn votes_through(c: Seq<(usize, usize)>, last: int) -> int
    decreases last + 1,
{
    if last < 0 || last >= c.len() {
        0
    } else {
        votes_through(c, last - 1) + c[last].1
    }
}

/// Sum of the votes of all candidates.
pub open spec fn total_votes(c: Seq<(usize, usize)>) -> int {
    votes_through(c, c.len() - 1)
}

/// Whether a running sum of votes exceeds the threshold of a draw: the
/// fraction `draw / 1000` of `total`, compared exactly.
pub open spec fn exceeds(sum: int, draw: int, total: int) -> bool {
    sum * 1000 > draw * total
}

/// Whether `k` is the position that roulette-wheel selection picks: the first
/// at which the running sum exceeds the threshold, or the last position when
/// the running sum never does.
pub open spec fn is_pick(c: Seq<(usize, usize)>, draw: int, k: int) -> bool {
    &&& 0 <= k < c.len()
    &&& forall|j: int| 0 <= j < k ==> !exceeds(#[trigger] votes_through(c, j), draw, total_votes(c))
    &&& (exceeds(votes_through(c, k), draw, total_votes(c)) || k == c.len() - 1)
}

/// The threshold rounded down to a whole number decides the same as the exact
/// fraction, and can be computed without leaving the range of `total`.
pub proof fn lemma_threshold(sum: int, draw: int, total: int)
    requires
        0 <= draw < 1000,
        0 <= total,
    ensures
        exceeds(sum, draw, total) <==> sum > draw * (total / 1000) + (draw * (total % 1000)) / 1000,
        0 <= draw * (total / 1000) <= total,
        0 <= (draw * (total % 1000)) / 1000 < 1000,
        draw * (total / 1000) + (draw * (total % 1000)) / 1000 <= total,
{
    let q = total / 1000;
    let m = total % 1000;
    let a = draw * m;
    lemma_fundamental_div_mod(total, 1000);
    lemma_fundamental_div_mod(a, 1000);
    assert(0 <= a <= 999 * m) by (nonlinear_arith)
        requires
            a == draw * m,
            0 <= draw < 1000,
            0 <= m,
    ;
    assert(draw * total == 1000 * (draw * q) + a) by (nonlinear_arith)
        requires
            total == 1000 * q + m,
            a == draw * m,
    ;
    assert(0 <= draw * q <= 999 * q) by (nonlinear_arith)
        requires
            0 <= draw < 1000,
            0 <= q,
    ;
}

/// Two positions that both meet [`is_pick`] are the same position.
pub proof fn lemma_pick_unique(c: Seq<(usize, usize)>, draw: int, k1: int, k2: int)
    requires
        is_pick(c, draw, k1),
        is_pick(c, draw, k2),
    ensures
        k1 == k2,
{
}

/// Where there are votes at all, position `k` is picked exactly by the draws
/// whose threshold lies in the band that the votes of `k` span on the wheel:
/// from the running sum before `k` up to, and not including, the running sum
/// through `k`. The number of draws that pick a candidate is thus in
/// proportion to its votes.
pub proof fn lemma_pick_band(c: Seq<(usize, usize)>, draw: int, k: int)
    requires
        0 <= draw < 1000,
        0 <= k < c.len(),
        total_votes(c) > 0,
    ensures
        is_pick(c, draw, k) <==> (votes_through(c, k - 1) * 1000 <= draw * total_votes(c) < votes_through(
            c,
            k,
        ) * 1000),
{
    let total = total_votes(c);
    assert(draw * total < total * 1000) by (nonlinear_arith)
        requires
            0 <= draw < 1000,
            total > 0,
    ;
    assert(0 <= draw * total) by (nonlinear_arith)
        requires
            0 <= draw,
            total > 0,
    ;
    lemma_votes_grow(c, k - 1, k);
    if votes_through(c, k - 1) * 1000 <= draw * total < votes_through(c, k) * 1000 {
        assert forall|j: int| 0 <= j < k implies !exceeds(
            #[trigger] votes_through(c, j),
            draw,
            total,
        ) by {
            lemma_votes_grow(c, j, k - 1);
        }
        assert(is_pick(c, draw, k));
    }
    if is_pick(c, draw, k) {
        if k > 0 {
            assert(!exceeds(votes_through(c, k - 1), draw, total));
        }
    }
}

/// The running sum of votes never falls along the list.
pub proof fn lemma_votes_grow(c: Seq<(usize, usize)>, a: int, b: int)
    requires
        -1 <= a <= b < c.len(),
    ensures
        0 <= votes_through(c, a) <= votes_through(c, b),
    decreases b - a, a + 1,
{
    if a < b {
        lemma_votes_grow(c, a, b - 1);
    } else if a >= 0 {
        lemma_votes_grow(c, a - 1, a - 1);
    }
}

/// Roulette-wheel selection: the position in `candidates` that the draw picks.
pub fn pick_weighted(candidates: &Vec<(usize, usize)>, draw: u64) -> (k: usize)
    requires
        candidates@.len() > 0,
        draw < DRAW_STEPS,
    ensures
        is_pick(candidates@, draw as int, k as int),
{
    let n: usize = candidates.len();
    let mut total: u128 = 0;
    let mut i: usize = 0;
    while i < n
        invariant
            i <= n,
            n == candidates@.len(),
            total == votes_through(candidates@, i - 1),
            total <= i * usize::MAX,
        decreases n - i,
    {
        assert(i * usize::MAX + usize::MAX <= u128::MAX) by (nonlinear_arith)
            requires
                i <= usize::MAX,
        ;
        assert((i + 1) * usize::MAX == i * usize::MAX + usize::MAX) by (nonlinear_arith);
        total = total + candidates[i].1 as u128;
        i = i + 1;
    }
    proof {
        lemma_threshold(0, draw as int, total as int);
    }
    let whole: u128 = (draw as u128) * (total / 1000);
    let part: u128 = ((draw as u128) * (total % 1000)) / 1000;
    let threshold: u128 = whole + part;
    let mut sum: u128 = 0;
    let mut k: usize = 0;
    while k < n
        invariant
            k <= n,
            n == candidates@.len(),
            n > 0,
            draw < 1000,
            total == total_votes(candidates@),
            threshold == draw * (total / 1000) + (draw * (total % 1000)) / 1000,
            sum == votes_through(candidates@, k - 1),
            sum <= k * usize::MAX,
            forall|j: int| 0 <= j < k ==> !exceeds(#[trigger] votes_through(candidates@, j), draw as int, total as int),
        decreases n - k,
    {
        assert(k * usize::MAX + usize::MAX <= u128::MAX) by (nonlinear_arith)
            requires
                k <= usize::MAX,
        ;
        assert((k + 1) * usize::MAX == k * usize::MAX + usize::MAX) by (nonlinear_arith);
        sum = sum + candidates[k].1 as u128;
        proof {
            lemma_threshold(sum as int, draw as int, total as int);
        }
        if sum > threshold {
            return k;
        }
        k = k + 1;
    }
    n - 1
}

} // verus!
