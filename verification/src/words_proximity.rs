//! How close to each other the words of the query are found in a document.

use crate::doc_index::{match_query_index, Match};
use slice_group_by::GroupBy;
use vstd::prelude::*;
use vstd::slice::slice_subrange;

verus! {

pub const MAX_DISTANCE: u32 = 8;

/// Measure the sum of proximities between the different words of each documents, a
/// document with a proximity that is shorter is considered better.
#[derive(Debug, Clone, Copy)]
pub struct WordsProximity;

pub open spec fn capped(distance: int) -> int {
    if distance < MAX_DISTANCE {
        distance
    } else {
        MAX_DISTANCE as int
    }
}

/// The proximity of two word indexes: their distance, capped, and one more when
/// the second does not come after the first.
pub open spec fn spec_index_proximity(lhs: u32, rhs: u32) -> int {
    if lhs < rhs {
        capped(rhs - lhs)
    } else {
        capped(lhs - rhs) + 1
    }
}

pub fn index_proximity(lhs: u32, rhs: u32) -> (r: u32)
    ensures
        r == spec_index_proximity(lhs, rhs),
        1 <= r <= MAX_DISTANCE + 1,
{
    if lhs < rhs {
        let d = rhs - lhs;
        if d < MAX_DISTANCE {
            d
        } else {
            MAX_DISTANCE
        }
    } else {
        let d = lhs - rhs;
        if d < MAX_DISTANCE {
            d + 1
        } else {
            MAX_DISTANCE + 1
        }
    }
}

/// The proximity of two matches: the greatest there is when they are in different
/// attributes, else that of their word indexes.
pub open spec fn spec_attribute_proximity(lhs: Match, rhs: Match) -> int {
    if lhs.attribute.spec_attribute() != rhs.attribute.spec_attribute() {
        MAX_DISTANCE as int
    } else {
        spec_index_proximity(lhs.attribute.spec_word_index(), rhs.attribute.spec_word_index())
    }
}

pub fn attribute_proximity(lhs: &Match, rhs: &Match) -> (r: u32)
    ensures
        r == spec_attribute_proximity(*lhs, *rhs),
        1 <= r <= MAX_DISTANCE + 1,
{
    if lhs.attribute.attribute() != rhs.attribute.attribute() {
        return MAX_DISTANCE;
    }
    index_proximity(lhs.attribute.word_index(), rhs.attribute.word_index())
}

pub open spec fn least(a: int, b: int) -> int {
    if a <= b {
        a
    } else {
        b
    }
}

/// The least proximity of one match to the first `n` matches of a list.
pub open spec fn row_min(a: Match, rhs: Seq<Match>, n: int, start: int) -> int
    decreases n,
{
    if n <= 0 {
        start
    } else {
        least(row_min(a, rhs, n - 1, start), spec_attribute_proximity(a, rhs[n - 1]))
    }
}

/// The least proximity of any of the first `n` matches of one list to any match of
/// another; `u32::MAX` when there is no such pair.
pub open spec fn spec_min_proximity(lhs: Seq<Match>, rhs: Seq<Match>, n: int) -> int
    decreases n,
{
    if n <= 0 {
        u32::MAX as int
    } else {
        row_min(lhs[n - 1], rhs, rhs.len() as int, spec_min_proximity(lhs, rhs, n - 1))
    }
}

proof fn lemma_row_min_bounds(a: Match, rhs: Seq<Match>, n: int, start: int)
    requires
        0 <= n <= rhs.len(),
        1 <= start <= u32::MAX,
    ensures
        1 <= row_min(a, rhs, n, start) <= start,
        n > 0 ==> row_min(a, rhs, n, start) <= MAX_DISTANCE + 1,
    decreases n,
{
    if n > 0 {
        lemma_row_min_bounds(a, rhs, n - 1, start);
    }
}

/// Between two lists that are not empty, the least proximity is at most one more
/// than the greatest distance.
pub proof fn lemma_min_proximity_bounds(lhs: Seq<Match>, rhs: Seq<Match>, n: int)
    requires
        0 <= n <= lhs.len(),
    ensures
        1 <= spec_min_proximity(lhs, rhs, n) <= u32::MAX,
        n > 0 && rhs.len() > 0 ==> spec_min_proximity(lhs, rhs, n) <= MAX_DISTANCE + 1,
    decreases n,
{
    if n > 0 {
        lemma_min_proximity_bounds(lhs, rhs, n - 1);
        lemma_row_min_bounds(lhs[n - 1], rhs, rhs.len() as int, spec_min_proximity(lhs, rhs, n - 1));
    }
}

pub fn min_proximity(lhs: &[Match], rhs: &[Match]) -> (r: u32)
    ensures
        r == spec_min_proximity(lhs@, rhs@, lhs@.len() as int),
{
    let mut min_prox: u32 = u32::MAX;
    let mut i: usize = 0;
    while i < lhs.len()
        invariant
            i <= lhs.len(),
            1 <= min_prox,
            min_prox == spec_min_proximity(lhs@, rhs@, i as int),
        decreases lhs.len() - i,
    {
        let ghost start = min_prox as int;
        let mut j: usize = 0;
        while j < rhs.len()
            invariant
                i < lhs.len(),
                j <= rhs.len(),
                1 <= min_prox,
                min_prox == row_min(lhs@[i as int], rhs@, j as int, start),
            decreases rhs.len() - j,
        {
            let p = attribute_proximity(&lhs[i], &rhs[j]);
            if p < min_prox {
                min_prox = p;
            }
            j += 1;
        }
        i += 1;
    }
    min_prox
}

/// The place where the run of matches for one word of the query, which holds the
/// place `i`, ends.
pub open spec fn run_end(m: Seq<Match>, i: int) -> int
    decreases m.len() - i,
{
    if i < 0 || i + 1 >= m.len() || m[i].query_index != m[i + 1].query_index {
        i + 1
    } else {
        run_end(m, i + 1)
    }
}

pub proof fn lemma_run_end(m: Seq<Match>, i: int)
    requires
        0 <= i < m.len(),
    ensures
        i < run_end(m, i) <= m.len(),
    decreases m.len() - i,
{
    if !(i + 1 >= m.len() || m[i].query_index != m[i + 1].query_index) {
        lemma_run_end(m, i + 1);
    }
}

/// The lengths of the runs of matches for one word of the query, from the place
/// `i` on: a run goes on for as long as the next match is for the same word.
pub open spec fn run_lengths(m: Seq<Match>, i: int) -> Seq<usize>
    decreases m.len() - i,
{
    if i < 0 || i >= m.len() {
        Seq::empty()
    } else {
        proof {
            lemma_run_end(m, i);
        }
        seq![(run_end(m, i) - i) as usize] + run_lengths(m, run_end(m, i))
    }
}

/// `GroupBy::linear_group_by` of `slice_group_by`, with [`match_query_index`] as
/// the test: the slice is cut into groups such that two neighbours are in the same
/// group exactly when the test holds of them. The result holds the length of each
/// group, in order.
#[verifier::external_body]
pub(crate) fn group_lengths(matches: &[Match]) -> (r: Vec<usize>)
    ensures
        r@ == run_lengths(matches@, 0),
{
    matches.linear_group_by(|a, b| match_query_index(a, b)).map(|group| group.len()).collect()
}

/// The sum, over the words of the query taken two by two in order, of the least
/// proximity between a match of the one and a match of the other.
pub open spec fn spec_matches_proximity(m: Seq<Match>, i: int) -> int
    decreases m.len() - i,
{
    if i < 0 || i >= m.len() {
        0
    } else {
        let next = run_end(m, i);
        if next >= m.len() {
            0
        } else {
            proof {
                lemma_run_end(m, i);
            }
            spec_min_proximity(
                m.subrange(i, next),
                m.subrange(next, run_end(m, next)),
                next - i,
            ) + spec_matches_proximity(m, next)
        }
    }
}

proof fn lemma_run_lengths_step(m: Seq<Match>, i: int)
    requires
        0 <= i < m.len(),
        m.len() <= usize::MAX,
    ensures
        run_lengths(m, i).len() >= 1,
        run_lengths(m, i)[0] == run_end(m, i) - i,
        run_lengths(m, i).skip(1) == run_lengths(m, run_end(m, i)),
        i < run_end(m, i) <= m.len(),
{
    lemma_run_end(m, i);
    assert(run_lengths(m, i).skip(1) =~= run_lengths(m, run_end(m, i)));
}

/// The proximity of the words of the query in a document, given its matches in
/// the order of the words of the query.
pub fn matches_proximity(matches: &[Match]) -> (r: u32)
    requires
        matches@.len() <= u32::MAX / 9,
    ensures
        r == spec_matches_proximity(matches@, 0),
{
    let lens = group_lengths(matches);
    let ghost m = matches@;
    let mut proximity: u32 = 0;
    let mut start: usize = 0;
    let mut k: usize = 0;
    if lens.len() == 0 {
        assert(m.len() == 0) by {
            if m.len() > 0 {
                lemma_run_lengths_step(m, 0);
            }
        }
        return 0;
    }
    proof {
        assert(lens@.skip(0) =~= lens@);
    }
    while k + 1 < lens.len()
        invariant
            k < lens.len(),
            m == matches@,
            m.len() <= u32::MAX / 9,
            0 <= start < m.len(),
            start >= k,
            proximity <= 9 * k,
            lens@.skip(k as int) == run_lengths(m, start as int),
            proximity + spec_matches_proximity(m, start as int) == spec_matches_proximity(m, 0),
        decreases lens.len() - k,
    {
        proof {
            lemma_run_lengths_step(m, start as int);
            assert(lens@.skip(k as int)[0] == lens[k as int]);
            assert(lens@.skip(k as int).skip(1) =~= lens@.skip(k + 1));
        }
        let middle = start + lens[k];
        proof {
            assert(middle == run_end(m, start as int));
            assert(lens@.skip(k + 1).len() >= 1);
            if middle >= m.len() {
                assert(run_lengths(m, middle as int).len() == 0);
            }
            lemma_run_lengths_step(m, middle as int);
            assert(lens@.skip(k + 1)[0] == lens[k + 1]);
        }
        let end = middle + lens[k + 1];
        let lhs = slice_subrange(matches, start, middle);
        let rhs = slice_subrange(matches, middle, end);
        let between = min_proximity(lhs, rhs);
        proof {
            lemma_min_proximity_bounds(lhs@, rhs@, lhs@.len() as int);
        }
        proximity = proximity + between;
        start = middle;
        k += 1;
    }
    proof {
        lemma_run_lengths_step(m, start as int);
        assert(lens@.skip(k as int).len() == 1);
        if run_end(m, start as int) < m.len() {
            lemma_run_lengths_step(m, run_end(m, start as int));
            assert(lens@.skip(k as int).skip(1).len() >= 1);
        }
    }
    proximity
}

} // verus!
