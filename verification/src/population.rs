//! The population: the chromosomes of one generation, each in its slot.

use crate::random::{probability, Probability, RandomSource};
use vstd::prelude::*;

verus! {

/// The genes of every chromosome of a population, slot by slot.
pub open spec fn spec_genes(population: Seq<Vec<bool>>) -> Seq<Seq<bool>> {
    Seq::new(population.len(), |slot: int| population[slot]@)
}

/// Every chromosome has `length` genes.
pub open spec fn uniform_length(population: Seq<Seq<bool>>, length: nat) -> bool {
    forall|slot: int| 0 <= slot < population.len() ==> (#[trigger] population[slot]).len() == length
}

/// A chromosome of `length` genes, each drawn by a trial of its own that sets
/// it with probability `gene_probability`.
pub fn random_chromosome(
    length: usize,
    gene_probability: Probability,
    source: &mut RandomSource,
) -> (chromosome: Vec<bool>)
    requires
        gene_probability.valid(),
    ensures
        chromosome.len() == length,
        gene_probability.never() ==> forall|i: int| 0 <= i < length ==> !chromosome[i],
        gene_probability.always() ==> forall|i: int| 0 <= i < length ==> chromosome[i],
{
    let mut chromosome: Vec<bool> = Vec::new();
    let mut i: usize = 0;
    while i < length
        invariant
            i <= length,
            chromosome.len() == i,
            gene_probability.valid(),
            gene_probability.never() ==> forall|k: int| 0 <= k < i ==> !chromosome[k],
            gene_probability.always() ==> forall|k: int| 0 <= k < i ==> chromosome[k],
        decreases length - i,
    {
        let gene = probability(source, gene_probability);
        chromosome.push(gene);
        i += 1;
    }
    chromosome
}

/// A population of `size` chromosomes of `length` genes, each made by
/// `random_chromosome`.
pub fn random_population(
    size: usize,
    length: usize,
    gene_probability: Probability,
    source: &mut RandomSource,
) -> (population: Vec<Vec<bool>>)
    requires
        gene_probability.valid(),
    ensures
        population.len() == size,
        uniform_length(spec_genes(population@), length as nat),
        gene_probability.never() ==> forall|slot: int, i: int|
            0 <= slot < size && 0 <= i < length ==> !population[slot][i],
        gene_probability.always() ==> forall|slot: int, i: int|
            0 <= slot < size && 0 <= i < length ==> population[slot][i],
{
    let mut population: Vec<Vec<bool>> = Vec::new();
    let mut slot: usize = 0;
    while slot < size
        invariant
            slot <= size,
            population.len() == slot,
            gene_probability.valid(),
            forall|k: int| 0 <= k < slot ==> (#[trigger] population[k]).len() == length,
            gene_probability.never() ==> forall|k: int, i: int|
                0 <= k < slot && 0 <= i < length ==> !population[k][i],
            gene_probability.always() ==> forall|k: int, i: int|
                0 <= k < slot && 0 <= i < length ==> population[k][i],
        decreases size - slot,
    {
        let chromosome = random_chromosome(length, gene_probability, source);
        population.push(chromosome);
        slot += 1;
    }
    proof {
        assert forall|k: int| 0 <= k < population.len() implies (#[trigger] spec_genes(
            population@,
        )[k]).len() == length by {
            assert(population[k].len() == length);
        }
    }
    population
}

} // verus!
