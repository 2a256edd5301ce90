//! Mutation: with a given probability one gene of a chromosome is flipped.

use crate::random::{probability, random_position, Probability, RandomSource};
use vstd::prelude::*;

verus! {

/// `after` is `before` with the gene at `site` flipped.
pub open spec fn flipped_at(before: Seq<bool>, after: Seq<bool>, site: int) -> bool {
    0 <= site < before.len() && after == before.update(site, !before[site])
}

/// `after` is `before` with exactly one gene flipped.
pub open spec fn one_gene_flipped(before: Seq<bool>, after: Seq<bool>) -> bool {
    exists|site: int| #[trigger] flipped_at(before, after, site)
}

/// A chromosome with one gene flipped has the length of the one before, and
/// differs from it at one site and no other.
pub proof fn lemma_one_gene_flipped(before: Seq<bool>, after: Seq<bool>)
    requires
        one_gene_flipped(before, after),
    ensures
        after.len() == before.len(),
        after != before,
        exists|site: int|
            0 <= site < before.len() && #[trigger] after[site] != before[site] && forall|
                other: int,
            |
                0 <= other < before.len() && other != site ==> #[trigger] after[other]
                    == before[other],
{
    let site = choose|site: int| #[trigger] flipped_at(before, after, site);
    assert(after[site] != before[site]);
    assert forall|other: int| 0 <= other < before.len() && other != site implies #[trigger] after[other]
        == before[other] by {}
}

/// Flips the gene at `site`.
pub fn flip_gene(chromosome: &mut Vec<bool>, site: usize)
    requires
        site < old(chromosome).len(),
    ensures
        final(chromosome)@ == old(chromosome)@.update(
            site as int,
            !old(chromosome)@[site as int],
        ),
        flipped_at(old(chromosome)@, final(chromosome)@, site as int),
{
    let gene = chromosome[site];
    chromosome.set(site, !gene);
}

/// Makes one trial of probability `mutate_probability`. Where it succeeds, a
/// site is drawn among all genes and the gene there is flipped; where it
/// fails the chromosome stays as it is. Returns whether a gene was flipped.
pub fn mutate(
    chromosome: &mut Vec<bool>,
    mutate_probability: Probability,
    source: &mut RandomSource,
) -> (mutated: bool)
    requires
        mutate_probability.valid(),
        old(chromosome).len() > 0 || mutate_probability.never(),
    ensures
        !mutated ==> final(chromosome)@ == old(chromosome)@,
        mutated ==> one_gene_flipped(old(chromosome)@, final(chromosome)@),
        final(chromosome).len() == old(chromosome).len(),
        mutate_probability.never() ==> !mutated,
        mutate_probability.always() ==> mutated,
{
    if !probability(source, mutate_probability) {
        return false;
    }
    let site = random_position(source, chromosome.len());
    flip_gene(chromosome, site);
    proof {
        assert(flipped_at(old(chromosome)@, chromosome@, site as int));
    }
    true
}

} // verus!
