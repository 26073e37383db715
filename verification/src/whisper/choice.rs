//! The greedy choice: the likeliest of the scores that the model gives.
//!
//! Scores are single precision numbers. They are handed over as the bits that they are
//! stored in, of which the first is the sign, and they are compared in the total order
//! of IEEE 754.

use vstd::prelude::*;

verus! {

/// The rank of a score in the total order: numbers without a sign rank as their bits
/// do, those with a sign the other way round and below all others.
pub open spec fn rank(bits: u32) -> int {
    if bits < 0x8000_0000 {
        bits as int
    } else {
        0x7fff_ffff - bits
    }
}

/// Ranks a score.
pub fn score_rank(bits: u32) -> (r: i64)
    ensures
        r == rank(bits),
{
    if bits < 0x8000_0000 {
        bits as i64
    } else {
        0x7fff_ffff - bits as i64
    }
}

/// Whether `i` is the place of the likeliest score: none ranks above it, and of equals
/// it is the last.
pub open spec fn is_likeliest(scores: Seq<u32>, i: int) -> bool {
    &&& 0 <= i < scores.len()
    &&& forall|k: int| 0 <= k <= i ==> rank(#[trigger] scores[k]) <= rank(scores[i])
    &&& forall|k: int| i < k < scores.len() ==> rank(#[trigger] scores[k]) < rank(scores[i])
}

/// The place of the likeliest score, if there are scores.
pub fn likeliest(scores: &Vec<u32>) -> (best: Option<usize>)
    ensures
        match best {
            Some(i) => is_likeliest(scores@, i as int),
            None => scores@.len() == 0,
        },
{
    if scores.len() == 0 {
        return None;
    }
    let mut best: usize = 0;
    let mut i: usize = 1;
    while i < scores.len()
        invariant
            1 <= i <= scores.len(),
            best < i,
            forall|k: int| 0 <= k <= best ==> rank(#[trigger] scores[k]) <= rank(scores[best as int]),
            forall|k: int| best < k < i ==> rank(#[trigger] scores[k]) < rank(scores[best as int]),
        decreases scores.len() - i,
    {
        if score_rank(scores[i]) >= score_rank(scores[best]) {
            best = i;
        }
        i += 1;
    }
    Some(best)
}

/// Scores that differ in their bits differ in rank.
pub proof fn law_ranks_tell_scores_apart(a: u32, b: u32)
    ensures
        rank(a) == rank(b) <==> a == b,
{
}

/// There is no doubt which score is the likeliest.
pub proof fn law_likeliest_is_unique(scores: Seq<u32>, i: int, j: int)
    requires
        is_likeliest(scores, i),
        is_likeliest(scores, j),
    ensures
        i == j,
{
    if i < j {
        assert(rank(scores[j]) < rank(scores[i]));
        assert(rank(scores[i]) <= rank(scores[j]));
    } else if j < i {
        assert(rank(scores[i]) < rank(scores[j]));
        assert(rank(scores[j]) <= rank(scores[i]));
    }
}

/// What the scores of the language tokens, one for each of `languages`, say of a
/// window: which of them is the likeliest, and the token of that language.
pub fn detected_language(languages: &Vec<u32>, scores: &Vec<u32>) -> (found: Option<(usize, u32)>)
    requires
        scores.len() <= languages.len(),
    ensures
        match found {
            Some((i, token)) => is_likeliest(scores@, i as int) && token == languages@[i as int],
            None => scores@.len() == 0,
        },
{
    match likeliest(scores) {
        Some(i) => Some((i, languages[i])),
        None => None,
    }
}

/// The order of scores is that of numbers: of two without a sign the one with the larger
/// bits ranks higher, of two with a sign the one with the smaller, and every score with a
/// sign ranks below every one without.
pub proof fn law_ranks_follow_the_numbers(a: u32, b: u32)
    ensures
        a < 0x8000_0000 && b < 0x8000_0000 ==> (rank(a) < rank(b) <==> a < b),
        a >= 0x8000_0000 && b >= 0x8000_0000 ==> (rank(a) < rank(b) <==> a > b),
        a >= 0x8000_0000 && b < 0x8000_0000 ==> rank(a) < rank(b),
{
}

/// No score ranks above the likeliest, and none after it ranks as high.
pub proof fn law_likeliest_is_the_last_of_the_highest(scores: Seq<u32>, i: int, k: int)
    requires
        is_likeliest(scores, i),
        0 <= k < scores.len(),
    ensures
        0 <= i < scores.len(),
        rank(scores[k]) <= rank(scores[i]),
        rank(scores[k]) == rank(scores[i]) ==> k <= i,
{
}

} // verus!
