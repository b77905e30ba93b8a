use crate::chromosome::{
    all_of_len, copy_chromosome, lemma_views_add, lemma_views_insert, lemma_views_push, views,
};
use crate::params::{scaled, scaled_count, Fraction};
use crate::rng::sample_distinct;
use crate::score::{count_matches, match_count};
use vstd::prelude::*;
use vstd::seq_lib::lemma_multiset_commutative;

verus! {

broadcast use vstd::seq_lib::group_to_multiset_ensures, vstd::multiset::group_multiset_axioms;

/// Ranked in descending fitness order against the target: earlier chromosomes
/// match the target in at least as many positions as later ones.
pub open spec fn sorted_by_score_desc(population: Seq<Seq<char>>, target: Seq<char>) -> bool {
    forall|i: int, j: int|
        0 <= i <= j < population.len() ==> #[trigger] match_count(population[i], target)
            >= #[trigger] match_count(population[j], target)
}

/// How many chromosomes selection keeps out of a population of `n`: all of
/// the top floor(n * graded_retain), plus floor(n * nongraded_retain) drawn
/// from the rest, capped by how many remain.
pub open spec fn survivor_count(n: int, graded_retain: Fraction, nongraded_retain: Fraction) -> int {
    scaled(n, graded_retain) + vstd::math::min(
        scaled(n, nongraded_retain),
        n - scaled(n, graded_retain),
    )
}

/// First index of the ranking whose score falls below `cx`; equal scores stay
/// ahead of the inserted one.
fn insertion_point(sorted: &Vec<Vec<char>>, cx: usize, answer: &Vec<char>) -> (position: usize)
    requires
        all_of_len(sorted@, answer@.len() as int),
        sorted_by_score_desc(views(sorted@), answer@),
    ensures
        position <= sorted@.len(),
        forall|j: int| 0 <= j < position ==> match_count(#[trigger] views(sorted@)[j], answer@) >= cx,
        forall|j: int|
            position <= j < sorted@.len() ==> match_count(#[trigger] views(sorted@)[j], answer@) < cx,
{
    let mut position: usize = 0;
    while position < sorted.len()
        invariant
            position <= sorted@.len(),
            all_of_len(sorted@, answer@.len() as int),
            sorted_by_score_desc(views(sorted@), answer@),
            forall|j: int|
                0 <= j < position ==> match_count(#[trigger] views(sorted@)[j], answer@) >= cx,
        decreases sorted@.len() - position,
    {
        let c = count_matches(&sorted[position], answer);
        if c < cx {
            proof {
                assert(match_count(views(sorted@)[position as int], answer@) < cx);
                assert forall|j: int|
                    position <= j < sorted@.len() implies match_count(
                    #[trigger] views(sorted@)[j],
                    answer@,
                ) < cx by {
                    assert(match_count(views(sorted@)[j], answer@) <= match_count(
                        views(sorted@)[position as int],
                        answer@,
                    ));
                }
            }
            return position;
        }
        position = position + 1;
    }
    position
}

/// Inserts one chromosome into a ranking, keeping it in descending score
/// order; the ranking gains exactly that chromosome.
fn insert_by_score(sorted: &mut Vec<Vec<char>>, chromosone: Vec<char>, answer: &Vec<char>)
    requires
        all_of_len(old(sorted)@, answer@.len() as int),
        sorted_by_score_desc(views(old(sorted)@), answer@),
        chromosone@.len() == answer@.len(),
    ensures
        final(sorted)@.len() == old(sorted)@.len() + 1,
        all_of_len(final(sorted)@, answer@.len() as int),
        sorted_by_score_desc(views(final(sorted)@), answer@),
        views(final(sorted)@).to_multiset() == views(old(sorted)@).to_multiset().insert(
            chromosone@,
        ),
{
    let cx = count_matches(&chromosone, answer);
    let ghost before = sorted@;
    let ghost c = chromosone@;
    let position = insertion_point(sorted, cx, answer);
    sorted.insert(position, chromosone);
    proof {
        let p = position as int;
        let vold = views(before);
        let vnew = views(sorted@);
        lemma_views_insert(before, p, sorted@[p]);
        assert(sorted@[p]@ == c);
        assert(vnew =~= vold.insert(p, c));
        vold.insert_ensures(p, c);
        assert forall|i: int| 0 <= i < vnew.len() implies #[trigger] vnew[i].len()
            == answer@.len() by {
            if i < p {
                assert(vnew[i] == vold[i]);
            } else if i == p {
                assert(vnew[i] == c);
            } else {
                assert(vnew[i] == vold[i - 1]);
            }
        }
        assert forall|i: int, j: int| 0 <= i <= j < vnew.len() implies #[trigger] match_count(
            vnew[i],
            answer@,
        ) >= #[trigger] match_count(vnew[j], answer@) by {
            if j < p {
                assert(vnew[i] == vold[i] && vnew[j] == vold[j]);
            } else if i < p && j == p {
                assert(vnew[i] == vold[i] && vnew[j] == c);
            } else if i < p && j > p {
                assert(vnew[i] == vold[i] && vnew[j] == vold[j - 1]);
                assert(match_count(vold[j - 1], answer@) < cx);
            } else if i == p && j == p {
                assert(vnew[i] == c);
            } else if i == p && j > p {
                assert(vnew[i] == c && vnew[j] == vold[j - 1]);
                assert(match_count(vold[j - 1], answer@) < cx);
            } else {
                assert(vnew[i] == vold[i - 1] && vnew[j] == vold[j - 1]);
            }
        }
        assert(all_of_len(sorted@, answer@.len() as int));
    }
}

/// Ranks the population in place in descending score order; the ranked
/// population holds exactly the chromosomes it started with.
pub fn sort_by_score(chromosomes: &mut Vec<Vec<char>>, answer: &Vec<char>)
    requires
        all_of_len(old(chromosomes)@, answer@.len() as int),
    ensures
        final(chromosomes)@.len() == old(chromosomes)@.len(),
        all_of_len(final(chromosomes)@, answer@.len() as int),
        views(final(chromosomes)@).to_multiset() == views(old(chromosomes)@).to_multiset(),
        sorted_by_score_desc(views(final(chromosomes)@), answer@),
{
    let ghost orig = chromosomes@;
    let mut ranked: Vec<Vec<char>> = Vec::new();
    while chromosomes.len() > 0
        invariant
            all_of_len(chromosomes@, answer@.len() as int),
            all_of_len(ranked@, answer@.len() as int),
            sorted_by_score_desc(views(ranked@), answer@),
            views(chromosomes@).to_multiset().add(views(ranked@).to_multiset()) == views(
                orig,
            ).to_multiset(),
            chromosomes@.len() + ranked@.len() == orig.len(),
        decreases chromosomes@.len(),
    {
        let ghost prev = chromosomes@;
        let popped = chromosomes.pop().unwrap();
        proof {
            assert(prev =~= chromosomes@.push(popped));
            lemma_views_push(chromosomes@, popped);
            assert(views(prev).to_multiset() == views(chromosomes@).to_multiset().insert(popped@));
        }
        insert_by_score(&mut ranked, popped, answer);
        proof {
            assert(views(chromosomes@).to_multiset().add(views(ranked@).to_multiset()) =~= views(
                orig,
            ).to_multiset());
        }
    }
    *chromosomes = ranked;
    proof {
        assert(views(chromosomes@).to_multiset() =~= views(orig).to_multiset());
    }
}

/// Every member of a sub-multiset of sequences that all have one length has
/// that length too.
proof fn lemma_len_from_submultiset(sub: Seq<Seq<char>>, sup: Seq<Seq<char>>, len: int)
    requires
        sub.to_multiset().subset_of(sup.to_multiset()),
        forall|i: int| 0 <= i < sup.len() ==> #[trigger] sup[i].len() == len,
    ensures
        forall|i: int| 0 <= i < sub.len() ==> #[trigger] sub[i].len() == len,
{
    assert forall|i: int| 0 <= i < sub.len() implies #[trigger] sub[i].len() == len by {
        assert(sub.contains(sub[i]));
        assert(sup.to_multiset().count(sub[i]) > 0);
        assert(sup.contains(sub[i]));
        let k = choose|k: int| 0 <= k < sup.len() && sup[k] == sub[i];
        assert(sup[k].len() == len);
    }
}

/// Ranks the population in descending score order, keeps the top
/// floor(n * graded_retain_percent) chromosomes, and adds
/// floor(n * nongraded_retain_percent) further ones drawn at random, at
/// distinct positions, from the lower-ranked remainder (capped by how many
/// remain). The population itself is left ranked.
pub fn selection(
    chromosomes: &mut Vec<Vec<char>>,
    graded_retain_percent: Fraction,
    nongraded_retain_percent: Fraction,
    answer: &Vec<char>,
) -> (selected: Vec<Vec<char>>)
    requires
        graded_retain_percent.valid(),
        nongraded_retain_percent.valid(),
        all_of_len(old(chromosomes)@, answer@.len() as int),
    ensures
        final(chromosomes)@.len() == old(chromosomes)@.len(),
        all_of_len(final(chromosomes)@, answer@.len() as int),
        views(final(chromosomes)@).to_multiset() == views(old(chromosomes)@).to_multiset(),
        sorted_by_score_desc(views(final(chromosomes)@), answer@),
        selected@.len() == survivor_count(
            old(chromosomes)@.len() as int,
            graded_retain_percent,
            nongraded_retain_percent,
        ),
        scaled(old(chromosomes)@.len() as int, graded_retain_percent) <= selected@.len(),
        selected@.len() <= old(chromosomes)@.len(),
        all_of_len(selected@, answer@.len() as int),
        views(selected@).take(scaled(old(chromosomes)@.len() as int, graded_retain_percent))
            == views(final(chromosomes)@).take(
            scaled(old(chromosomes)@.len() as int, graded_retain_percent),
        ),
        views(selected@).skip(
            scaled(old(chromosomes)@.len() as int, graded_retain_percent),
        ).to_multiset().subset_of(
            views(final(chromosomes)@).skip(
                scaled(old(chromosomes)@.len() as int, graded_retain_percent),
            ).to_multiset(),
        ),
        forall|i: int|
            0 <= i < selected@.len() ==> views(old(chromosomes)@).contains(
                #[trigger] selected@[i]@,
            ),
{
    sort_by_score(chromosomes, answer);
    let n = chromosomes.len();
    let keep_count = scaled_count(n, graded_retain_percent);
    let keep_ungraded_count = scaled_count(n, nongraded_retain_percent);
    let mut selected: Vec<Vec<char>> = Vec::new();
    let mut i: usize = 0;
    while i < keep_count
        invariant
            i <= keep_count,
            keep_count <= n,
            n == chromosomes@.len(),
            all_of_len(chromosomes@, answer@.len() as int),
            sorted_by_score_desc(views(chromosomes@), answer@),
            views(chromosomes@).to_multiset() == views(old(chromosomes)@).to_multiset(),
            chromosomes@.len() == old(chromosomes)@.len(),
            selected@.len() == i,
            forall|k: int| 0 <= k < i ==> #[trigger] selected@[k]@ == chromosomes@[k]@,
        decreases keep_count - i,
    {
        let elite = copy_chromosome(&chromosomes[i]);
        selected.push(elite);
        i = i + 1;
    }
    let mut rest: Vec<Vec<char>> = Vec::new();
    let mut j: usize = keep_count;
    while j < n
        invariant
            keep_count <= j <= n,
            n == chromosomes@.len(),
            all_of_len(chromosomes@, answer@.len() as int),
            sorted_by_score_desc(views(chromosomes@), answer@),
            views(chromosomes@).to_multiset() == views(old(chromosomes)@).to_multiset(),
            chromosomes@.len() == old(chromosomes)@.len(),
            selected@.len() == keep_count,
            forall|k: int| 0 <= k < keep_count ==> #[trigger] selected@[k]@ == chromosomes@[k]@,
            rest@.len() == j - keep_count,
            forall|k: int|
                0 <= k < rest@.len() ==> #[trigger] rest@[k]@ == chromosomes@[keep_count + k]@,
        decreases n - j,
    {
        let extra = copy_chromosome(&chromosomes[j]);
        rest.push(extra);
        j = j + 1;
    }
    let ghost kc = keep_count as int;
    let ghost fin = views(chromosomes@);
    proof {
        assert(views(rest@) =~= fin.skip(kc));
    }
    let mut nongraded_selected = sample_distinct(&rest, keep_ungraded_count);
    proof {
        lemma_len_from_submultiset(views(nongraded_selected@), views(rest@), answer@.len() as int);
    }
    let ghost elite_part = selected@;
    let ghost sampled_part = nongraded_selected@;
    selected.append(&mut nongraded_selected);
    proof {
        lemma_views_add(elite_part, sampled_part);
        assert(views(selected@) == views(elite_part) + views(sampled_part));
        assert(views(selected@).take(kc) =~= views(elite_part));
        assert(views(elite_part) =~= fin.take(kc));
        assert(views(selected@).skip(kc) =~= views(sampled_part));
        assert forall|t: int| 0 <= t < selected@.len() implies #[trigger] selected@[t]@.len()
            == answer@.len() by {
            assert(views(selected@)[t] == selected@[t]@);
            if t < kc {
                assert(views(selected@)[t] == views(elite_part)[t]);
            } else {
                assert(views(selected@)[t] == views(sampled_part)[t - kc]);
            }
        }
        assert(fin.take(kc) == views(chromosomes@).take(kc));
        assert forall|t: int| 0 <= t < selected@.len() implies views(old(chromosomes)@).contains(
            #[trigger] selected@[t]@,
        ) by {
            assert(views(selected@)[t] == selected@[t]@);
            if t < kc {
                assert(views(selected@)[t] == views(elite_part)[t]);
                assert(views(elite_part)[t] == fin.take(kc)[t]);
                assert(fin.take(kc)[t] == fin[t]);
                assert(fin.contains(fin[t]));
            } else {
                let x = views(sampled_part)[t - kc];
                assert(views(selected@)[t] == x);
                assert(views(sampled_part).contains(x));
                assert(views(sampled_part).to_multiset().count(x) > 0);
                assert(views(rest@).to_multiset().count(x) > 0);
                assert(fin.skip(kc).to_multiset().count(x) > 0);
                assert(fin.skip(kc).contains(x));
                let m = choose|m: int| 0 <= m < fin.skip(kc).len() && fin.skip(kc)[m] == x;
                assert(fin.skip(kc)[m] == fin[kc + m]);
                assert(fin.contains(fin[kc + m]));
            }
            assert(fin.contains(selected@[t]@));
            assert(fin.to_multiset().count(selected@[t]@) > 0);
            assert(views(old(chromosomes)@).to_multiset().count(selected@[t]@) > 0);
            assert(views(old(chromosomes)@).contains(selected@[t]@));
        }
    }
    selected
}

/// Selection never duplicates a chromosome: survivors taken by elite
/// retention from the front of a ranking, together with any sub-multiset of
/// its remainder, are pairwise distinct whenever the original population was.
pub proof fn lemma_selection_preserves_distinctness(
    original: Seq<Seq<char>>,
    ranked: Seq<Seq<char>>,
    survivors: Seq<Seq<char>>,
    graded_count: int,
)
    requires
        original.no_duplicates(),
        ranked.to_multiset() == original.to_multiset(),
        0 <= graded_count <= ranked.len(),
        graded_count <= survivors.len(),
        survivors.take(graded_count) == ranked.take(graded_count),
        survivors.skip(graded_count).to_multiset().subset_of(
            ranked.skip(graded_count).to_multiset(),
        ),
    ensures
        survivors.no_duplicates(),
{
    original.lemma_multiset_has_no_duplicates();
    assert(ranked =~= ranked.take(graded_count) + ranked.skip(graded_count));
    lemma_multiset_commutative(ranked.take(graded_count), ranked.skip(graded_count));
    assert(survivors =~= survivors.take(graded_count) + survivors.skip(graded_count));
    lemma_multiset_commutative(survivors.take(graded_count), survivors.skip(graded_count));
    assert forall|x: Seq<char>| survivors.to_multiset().contains(x) implies
        survivors.to_multiset().count(x) == 1 by {
        assert(survivors.to_multiset().count(x) == survivors.take(graded_count).to_multiset().count(
            x,
        ) + survivors.skip(graded_count).to_multiset().count(x));
        assert(survivors.skip(graded_count).to_multiset().count(x) <= ranked.skip(
            graded_count,
        ).to_multiset().count(x));
        assert(ranked.to_multiset().count(x) == ranked.take(graded_count).to_multiset().count(x)
            + ranked.skip(graded_count).to_multiset().count(x));
        assert(original.to_multiset().count(x) <= 1);
    }
    survivors.lemma_multiset_has_no_duplicates_conv();
}

} // verus!
