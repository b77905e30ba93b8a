use vstd::prelude::*;

verus! {

/// Chromosome characters are drawn from the alphanumeric alphabet.
pub open spec fn is_alphanumeric_char(c: char) -> bool {
    ('a' <= c && c <= 'z') || ('A' <= c && c <= 'Z') || ('0' <= c && c <= '9')
}

/// The character sequences held by a population of chromosomes.
pub open spec fn views(population: Seq<Vec<char>>) -> Seq<Seq<char>> {
    Seq::new(population.len(), |i: int| population[i]@)
}

/// Every chromosome of the population has the given length.
pub open spec fn all_of_len(population: Seq<Vec<char>>, len: int) -> bool {
    forall|i: int| 0 <= i < population.len() ==> #[trigger] population[i]@.len() == len
}

pub proof fn lemma_views_push(population: Seq<Vec<char>>, chromosone: Vec<char>)
    ensures
        views(population.push(chromosone)) =~= views(population).push(chromosone@),
{
}

pub proof fn lemma_views_insert(population: Seq<Vec<char>>, i: int, chromosone: Vec<char>)
    requires
        0 <= i <= population.len(),
    ensures
        views(population.insert(i, chromosone)) =~= views(population).insert(i, chromosone@),
{
    population.insert_ensures(i, chromosone);
    views(population).insert_ensures(i, chromosone@);
}

pub proof fn lemma_views_add(left: Seq<Vec<char>>, right: Seq<Vec<char>>)
    ensures
        views(left + right) =~= views(left) + views(right),
{
}

/// An exact copy of a chromosome's characters.
pub fn copy_chromosome(chromosone: &Vec<char>) -> (duplicate: Vec<char>)
    ensures
        duplicate@ == chromosone@,
{
    let mut duplicate: Vec<char> = Vec::new();
    let mut i: usize = 0;
    while i < chromosone.len()
        invariant
            i <= chromosone@.len(),
            duplicate@ == chromosone@.take(i as int),
        decreases chromosone@.len() - i,
    {
        duplicate.push(chromosone[i]);
        proof {
            assert(duplicate@ =~= chromosone@.take(i as int + 1));
        }
        i = i + 1;
    }
    proof {
        assert(chromosone@.take(chromosone@.len() as int) =~= chromosone@);
    }
    duplicate
}

} // verus!
