use crate::chromosome::{is_alphanumeric_char, views};
use rand::distributions::{Alphanumeric, DistString};
use rand::seq::SliceRandom;
use rand::Rng;
use vstd::prelude::*;

verus! {

/// Relies on rand's `Alphanumeric` distribution through
/// `DistString::sample_string`: a string of exactly `size` characters, each
/// one of a-z, A-Z, 0-9.
#[verifier::external_body]
pub fn create_chromosome(size: usize) -> (chromosone: Vec<char>)
    ensures
        chromosone@.len() == size,
        forall|i: int| 0 <= i < chromosone@.len() ==> is_alphanumeric_char(#[trigger] chromosone@[i]),
{
    let mut rng = rand::thread_rng();
    Alphanumeric.sample_string(&mut rng, size).chars().collect()
}

/// Relies on rand's `Rng::gen_range` over `0..bound`: a value below `bound`.
/// The call panics on an empty range, which the precondition rules out.
#[verifier::external_body]
pub(crate) fn random_below(bound: usize) -> (value: usize)
    requires
        bound > 0,
    ensures
        value < bound,
{
    rand::thread_rng().gen_range(0..bound)
}

/// Relies on rand's `Alphanumeric` distribution sampled once through
/// `Rng::sample`: a single byte that is always one of a-z, A-Z, 0-9.
#[verifier::external_body]
pub(crate) fn random_alphanumeric_char() -> (c: char)
    ensures
        is_alphanumeric_char(c),
{
    rand::thread_rng().sample(Alphanumeric) as char
}

/// Relies on rand's `SliceRandom::choose`: a uniformly drawn element of the
/// slice, `None` only when the slice is empty.
#[verifier::external_body]
pub(crate) fn choose_one(chromosomes: &Vec<Vec<char>>) -> (chosen: &Vec<char>)
    requires
        chromosomes@.len() > 0,
    ensures
        views(chromosomes@).contains(chosen@),
{
    let mut rng = rand::thread_rng();
    chromosomes.choose(&mut rng).unwrap()
}

/// Relies on rand's `SliceRandom::choose_multiple`: `min(amount, len)`
/// elements drawn at distinct indices, so together they form a sub-multiset
/// of the slice's contents.
#[verifier::external_body]
pub(crate) fn sample_distinct(chromosomes: &Vec<Vec<char>>, amount: usize) -> (chosen: Vec<
    Vec<char>,
>)
    ensures
        chosen@.len() == if amount <= chromosomes@.len() {
            amount as int
        } else {
            chromosomes@.len() as int
        },
        views(chosen@).to_multiset().subset_of(views(chromosomes@).to_multiset()),
{
    let mut rng = rand::thread_rng();
    chromosomes.choose_multiple(&mut rng, amount).cloned().collect()
}

} // verus!
