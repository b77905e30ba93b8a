use crate::chromosome::{all_of_len, is_alphanumeric_char, views};
use crate::params::{scaled, Fraction};
use crate::rng::{choose_one, create_chromosome, random_alphanumeric_char, random_below};
use crate::score::match_count;
use crate::select::{selection, survivor_count};
use vstd::prelude::*;

verus! {

broadcast use vstd::seq_lib::group_to_multiset_ensures;

/// The character at position `j` of `genes` occurs at the same position in
/// some chromosome of the pool.
pub open spec fn gene_from_pool(genes: Seq<char>, pool: Seq<Vec<char>>, j: int) -> bool {
    exists|k: int| 0 <= k < pool.len() && genes[j] == #[trigger] pool[k]@[j]
}

/// Every character of `genes` either occurs at the same position in some
/// chromosome of the pool, or is a fresh alphanumeric mutation.
pub open spec fn drawn_from_pool(genes: Seq<char>, pool: Seq<Vec<char>>) -> bool {
    forall|j: int|
        0 <= j < genes.len() ==> gene_from_pool(genes, pool, j) || is_alphanumeric_char(
            #[trigger] genes[j],
        )
}

/// A chromosome held by the pool draws every one of its characters from it.
proof fn lemma_member_drawn(genes: Seq<char>, pool: Seq<Vec<char>>)
    requires
        views(pool).contains(genes),
    ensures
        drawn_from_pool(genes, pool),
{
    let k = choose|k: int| 0 <= k < views(pool).len() && views(pool)[k] == genes;
    assert forall|j: int|
        0 <= j < genes.len() implies gene_from_pool(genes, pool, j) || is_alphanumeric_char(
        #[trigger] genes[j],
    ) by {
        assert(genes[j] == pool[k]@[j]);
    }
}

/// Splits both parents at the midpoint and joins the first half of the first
/// parent with the second half of the second.
pub fn crossover(chromosone_one: &Vec<char>, chromosone_two: &Vec<char>) -> (child: Vec<char>)
    requires
        chromosone_one@.len() == chromosone_two@.len(),
    ensures
        child@ == chromosone_one@.take((chromosone_one@.len() / 2) as int) + chromosone_two@.skip(
            (chromosone_one@.len() / 2) as int,
        ),
        child@.len() == chromosone_one@.len(),
{
    let length = chromosone_one.len() / 2;
    let mut child: Vec<char> = Vec::new();
    let mut i: usize = 0;
    while i < length
        invariant
            i <= length,
            length == chromosone_one@.len() / 2,
            length <= chromosone_one@.len(),
            child@ == chromosone_one@.take(i as int),
        decreases length - i,
    {
        child.push(chromosone_one[i]);
        proof {
            assert(child@ =~= chromosone_one@.take(i as int + 1));
        }
        i = i + 1;
    }
    let mut j: usize = length;
    while j < chromosone_two.len()
        invariant
            length <= j <= chromosone_two@.len(),
            chromosone_one@.len() == chromosone_two@.len(),
            length == chromosone_one@.len() / 2,
            child@ == chromosone_one@.take(length as int) + chromosone_two@.subrange(
                length as int,
                j as int,
            ),
        decreases chromosone_two@.len() - j,
    {
        child.push(chromosone_two[j]);
        proof {
            assert(child@ =~= chromosone_one@.take(length as int) + chromosone_two@.subrange(
                length as int,
                j as int + 1,
            ));
        }
        j = j + 1;
    }
    proof {
        assert(child@ =~= chromosone_one@.take((chromosone_one@.len() / 2) as int)
            + chromosone_two@.skip((chromosone_one@.len() / 2) as int));
    }
    child
}

/// Replaces the character at one uniformly drawn position with a freshly
/// drawn alphanumeric character, which may happen to equal the one it
/// replaces. A new chromosome is returned; the input is untouched.
pub fn mutate(chromosone: &Vec<char>) -> (mutated: Vec<char>)
    requires
        chromosone@.len() > 0,
    ensures
        mutated@.len() == chromosone@.len(),
        exists|i: int|
            0 <= i < chromosone@.len() && is_alphanumeric_char(mutated@[i]) && mutated@
                == chromosone@.update(i, mutated@[i]),
{
    let random_character = random_alphanumeric_char();
    let index = random_below(chromosone.len());
    let mut mutated: Vec<char> = Vec::new();
    let mut i: usize = 0;
    while i < chromosone.len()
        invariant
            i <= chromosone@.len(),
            index < chromosone@.len(),
            mutated@ == chromosone@.update(index as int, random_character).take(i as int),
        decreases chromosone@.len() - i,
    {
        if i == index {
            mutated.push(random_character);
        } else {
            mutated.push(chromosone[i]);
        }
        proof {
            assert(mutated@ =~= chromosone@.update(index as int, random_character).take(
                i as int + 1,
            ));
        }
        i = i + 1;
    }
    proof {
        assert(mutated@ =~= chromosone@.update(index as int, random_character));
        assert(mutated@[index as int] == random_character);
    }
    mutated
}

/// Creates a population of `size` independently generated random
/// chromosomes, each `chromosone_size` alphanumeric characters long.
pub fn create_population(size: usize, chromosone_size: usize) -> (population: Vec<Vec<char>>)
    ensures
        population@.len() == size,
        all_of_len(population@, chromosone_size as int),
        forall|i: int, j: int|
            0 <= i < population@.len() && 0 <= j < population@[i]@.len() ==> is_alphanumeric_char(
                #[trigger] population@[i]@[j],
            ),
{
    let mut population: Vec<Vec<char>> = Vec::new();
    let mut i: usize = 0;
    while i < size
        invariant
            i <= size,
            population@.len() == i,
            all_of_len(population@, chromosone_size as int),
            forall|k: int, j: int|
                0 <= k < population@.len() && 0 <= j < population@[k]@.len()
                    ==> is_alphanumeric_char(#[trigger] population@[k]@[j]),
        decreases size - i,
    {
        population.push(create_chromosome(chromosone_size));
        i = i + 1;
    }
    population
}

/// Advances the population by one generation: selection keeps the ranked
/// elite plus random survivors, and crossover children of randomly paired
/// survivors (each child mutated with probability 2/1000) refill the
/// population to its original size. The best score never drops as long as at
/// least one graded survivor is retained.
#[verifier::loop_isolation(false)]
pub fn generation(
    population: Vec<Vec<char>>,
    graded_retain_percent: Fraction,
    nongraded_retain_percent: Fraction,
    answer: &Vec<char>,
) -> (next: Vec<Vec<char>>)
    requires
        graded_retain_percent.valid(),
        nongraded_retain_percent.valid(),
        all_of_len(population@, answer@.len() as int),
        population@.len() > 0 ==> answer@.len() > 0 && survivor_count(
            population@.len() as int,
            graded_retain_percent,
            nongraded_retain_percent,
        ) > 0,
    ensures
        next@.len() == population@.len(),
        all_of_len(next@, answer@.len() as int),
        scaled(population@.len() as int, graded_retain_percent) > 0 ==> forall|j: int|
            0 <= j < population@.len() ==> match_count(next@[0]@, answer@) >= match_count(
                #[trigger] population@[j]@,
                answer@,
            ),
        forall|i: int| 0 <= i < next@.len() ==> drawn_from_pool(#[trigger] next@[i]@, population@),
{
    let ghost orig = population@;
    let n = population.len();
    let mut ranked = population;
    let mut survivors = selection(
        &mut ranked,
        graded_retain_percent,
        nongraded_retain_percent,
        answer,
    );
    let ghost surv_init = survivors@;
    let mut children: Vec<Vec<char>> = Vec::new();
    while survivors.len() + children.len() < n
        invariant
            survivors@ == surv_init,
            all_of_len(children@, answer@.len() as int),
            survivors@.len() + children@.len() <= n,
            forall|i: int|
                0 <= i < children@.len() ==> drawn_from_pool(#[trigger] children@[i]@, orig),
        decreases n - children@.len(),
    {
        let parent_1 = choose_one(&survivors);
        let parent_2 = choose_one(&survivors);
        proof {
            let k1 = choose|k: int|
                0 <= k < views(survivors@).len() && views(survivors@)[k] == parent_1@;
            let k2 = choose|k: int|
                0 <= k < views(survivors@).len() && views(survivors@)[k] == parent_2@;
            assert(parent_1@.len() == answer@.len());
            assert(parent_2@.len() == answer@.len());
            assert(views(orig).contains(survivors@[k1]@));
            assert(views(orig).contains(survivors@[k2]@));
        }
        let mut child = crossover(parent_1, parent_2);
        proof {
            let m1 = choose|m: int| 0 <= m < views(orig).len() && views(orig)[m] == parent_1@;
            let m2 = choose|m: int| 0 <= m < views(orig).len() && views(orig)[m] == parent_2@;
            let h = parent_1@.len() / 2;
            assert forall|j: int|
                0 <= j < child@.len() implies gene_from_pool(child@, orig, j)
                    || is_alphanumeric_char(#[trigger] child@[j]) by {
                if j < h {
                    assert(child@[j] == parent_1@[j]);
                    assert(child@[j] == orig[m1]@[j]);
                } else {
                    assert(child@[j] == parent_2@[j]);
                    assert(child@[j] == orig[m2]@[j]);
                }
            }
            assert(drawn_from_pool(child@, orig));
        }
        let mutate_chance = random_below(1000);
        if mutate_chance <= 1 {
            let ghost before_mutate = child@;
            child = mutate(&child);
            proof {
                let mi = choose|i: int|
                    0 <= i < before_mutate.len() && is_alphanumeric_char(child@[i]) && child@
                        == before_mutate.update(i, child@[i]);
                assert forall|j: int|
                    0 <= j < child@.len() implies gene_from_pool(child@, orig, j)
                        || is_alphanumeric_char(#[trigger] child@[j]) by {
                    if j != mi {
                        assert(child@[j] == before_mutate[j]);
                        if gene_from_pool(before_mutate, orig, j) {
                            let k = choose|k: int|
                                0 <= k < orig.len() && before_mutate[j] == orig[k]@[j];
                            assert(child@[j] == orig[k]@[j]);
                        }
                    }
                }
                assert(drawn_from_pool(child@, orig));
            }
        }
        children.push(child);
    }
    let ghost children_final = children@;
    survivors.append(&mut children);
    proof {
        if scaled(n as int, graded_retain_percent) > 0 {
            let vr = views(ranked@);
            assert(views(surv_init)[0] == views(surv_init).take(
                scaled(n as int, graded_retain_percent),
            )[0]);
            assert(survivors@[0]@ == views(surv_init)[0]);
            assert forall|j: int| 0 <= j < orig.len() implies match_count(
                survivors@[0]@,
                answer@,
            ) >= match_count(#[trigger] orig[j]@, answer@) by {
                assert(views(orig)[j] == orig[j]@);
                assert(views(orig).contains(views(orig)[j]));
                assert(views(orig).to_multiset().count(views(orig)[j]) > 0);
                assert(vr.contains(views(orig)[j]));
                let k = choose|k: int| 0 <= k < vr.len() && vr[k] == views(orig)[j];
                assert(match_count(vr[0], answer@) >= match_count(vr[k], answer@));
            }
        }
        assert forall|i: int| 0 <= i < survivors@.len() implies drawn_from_pool(
            #[trigger] survivors@[i]@,
            orig,
        ) by {
            if i < surv_init.len() {
                assert(survivors@[i] == surv_init[i]);
                assert(views(orig).contains(surv_init[i]@));
                lemma_member_drawn(surv_init[i]@, orig);
            } else {
                assert(survivors@[i] == children_final[i - surv_init.len()]);
                assert(drawn_from_pool(children_final[i - surv_init.len()]@, orig));
            }
        }
    }
    survivors
}

} // verus!
