use vstd::prelude::*;

verus! {

/// Number of positions at which two equal-length character sequences hold the
/// same character.
pub open spec fn match_count(candidate: Seq<char>, target: Seq<char>) -> nat
    decreases candidate.len(),
{
    if candidate.len() == 0 || target.len() == 0 {
        0
    } else {
        match_count(candidate.drop_last(), target.drop_last()) + if candidate.last()
            == target.last() {
            1nat
        } else {
            0nat
        }
    }
}

/// The error reported when a candidate and the target differ in length, so
/// that no position-by-position score is defined.
#[derive(Clone, Copy, PartialEq, Eq, Structural, Debug)]
pub enum ScoreError {
    LengthMismatch,
}

/// A fitness score, the fraction `matches / out_of` of positions at which a
/// candidate agrees with the target. It always lies within [0, 1]: `matches`
/// never exceeds `out_of`.
#[derive(Clone, Copy, PartialEq, Eq, Structural, Debug)]
pub struct Score {
    pub matches: usize,
    pub out_of: usize,
}

/// A score never exceeds one: the matching positions are at most the target's
/// length, and all positions match exactly when the candidate equals the
/// target.
pub proof fn lemma_score_bounds(candidate: Seq<char>, target: Seq<char>)
    requires
        candidate.len() == target.len(),
    ensures
        match_count(candidate, target) <= target.len(),
        match_count(candidate, target) == target.len() <==> candidate == target,
    decreases candidate.len(),
{
    if candidate.len() == 0 {
        assert(candidate =~= target);
    } else {
        lemma_score_bounds(candidate.drop_last(), target.drop_last());
        if candidate == target {
            assert(candidate.drop_last() =~= target.drop_last());
            assert(candidate.last() == target.last());
        }
        if match_count(candidate, target) == target.len() {
            assert(candidate.drop_last() == target.drop_last());
            assert forall|i: int| 0 <= i < candidate.len() implies candidate[i] == target[i] by {
                if i < candidate.len() - 1 {
                    assert(candidate[i] == candidate.drop_last()[i]);
                    assert(target[i] == target.drop_last()[i]);
                } else {
                    assert(candidate[i] == candidate.last());
                    assert(target[i] == target.last());
                }
            }
            assert(candidate =~= target);
        }
    }
}

/// Counts the positions at which the two chromosomes agree.
pub(crate) fn count_matches(chromosone: &Vec<char>, answer: &Vec<char>) -> (count: usize)
    requires
        chromosone@.len() == answer@.len(),
    ensures
        count == match_count(chromosone@, answer@),
{
    let mut count: usize = 0;
    let mut i: usize = 0;
    while i < chromosone.len()
        invariant
            chromosone@.len() == answer@.len(),
            i <= chromosone@.len(),
            count <= i,
            count == match_count(chromosone@.take(i as int), answer@.take(i as int)),
        decreases chromosone@.len() - i,
    {
        proof {
            assert(chromosone@.take(i as int + 1).drop_last() =~= chromosone@.take(i as int));
            assert(answer@.take(i as int + 1).drop_last() =~= answer@.take(i as int));
        }
        if chromosone[i] == answer[i] {
            count = count + 1;
        }
        i = i + 1;
    }
    proof {
        assert(chromosone@.take(chromosone@.len() as int) =~= chromosone@);
        assert(answer@.take(answer@.len() as int) =~= answer@);
    }
    count
}

/// Scores a candidate against the target: the fraction of positions holding
/// the same character. Fails with `LengthMismatch` if and only if the two
/// differ in length.
pub fn get_score(chromosone: &Vec<char>, answer: &Vec<char>) -> (result: Result<Score, ScoreError>)
    ensures
        chromosone@.len() == answer@.len() ==> (result matches Ok(score)
            && score.matches == match_count(chromosone@, answer@) && score.out_of == answer@.len()
            && score.matches <= score.out_of && (score.matches == score.out_of <==> chromosone@
            == answer@)),
        chromosone@.len() != answer@.len() ==> result == Err::<Score, ScoreError>(
            ScoreError::LengthMismatch,
        ),
{
    if chromosone.len() != answer.len() {
        return Err(ScoreError::LengthMismatch);
    }
    let matches = count_matches(chromosone, answer);
    proof {
        lemma_score_bounds(chromosone@, answer@);
    }
    Ok(Score { matches, out_of: answer.len() })
}

} // verus!
