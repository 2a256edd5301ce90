//! The fitness of a chromosome: the benefit of what it selects, or nothing
//! where that is too heavy for the knapsack.

use crate::catalog::{
    lemma_selected_benefit_at_most_total, selected_elements, spec_selected, spec_total_benefits,
    spec_total_weight, total_benefits, total_weight, Element,
};
use vstd::prelude::*;

verus! {

/// The weight of what `chromosome` selects.
pub open spec fn spec_weight(chromosome: Seq<bool>, blocks: Seq<Element>) -> nat {
    spec_total_weight(spec_selected(chromosome, blocks))
}

/// The benefit of what `chromosome` selects, whatever it weighs.
pub open spec fn spec_benefit(chromosome: Seq<bool>, blocks: Seq<Element>) -> nat {
    spec_total_benefits(spec_selected(chromosome, blocks))
}

/// The selection fits into a knapsack that carries `max_weight`.
pub open spec fn feasible(chromosome: Seq<bool>, blocks: Seq<Element>, max_weight: u64) -> bool {
    spec_weight(chromosome, blocks) <= max_weight
}

/// The fitness: zero for a selection that is too heavy, else its benefit.
pub open spec fn spec_score(chromosome: Seq<bool>, blocks: Seq<Element>, max_weight: u64) -> nat {
    if feasible(chromosome, blocks, max_weight) {
        spec_benefit(chromosome, blocks)
    } else {
        0
    }
}

/// Of a selection that is worth something, the fitness is zero exactly when
/// the selection is too heavy.
pub proof fn lemma_zero_score_means_overweight(
    chromosome: Seq<bool>,
    blocks: Seq<Element>,
    max_weight: u64,
)
    requires
        spec_benefit(chromosome, blocks) > 0,
    ensures
        spec_score(chromosome, blocks, max_weight) == 0 <==> spec_weight(chromosome, blocks)
            > max_weight,
{
}

/// A fitness above zero belongs to a selection that fits.
pub proof fn lemma_positive_score_is_feasible(
    chromosome: Seq<bool>,
    blocks: Seq<Element>,
    max_weight: u64,
)
    requires
        spec_score(chromosome, blocks, max_weight) > 0,
    ensures
        feasible(chromosome, blocks, max_weight),
        spec_score(chromosome, blocks, max_weight) == spec_benefit(chromosome, blocks),
{
}

/// No fitness is above the benefit of the whole catalog.
pub proof fn lemma_score_at_most_total(
    chromosome: Seq<bool>,
    blocks: Seq<Element>,
    max_weight: u64,
)
    requires
        chromosome.len() == blocks.len(),
    ensures
        spec_score(chromosome, blocks, max_weight) <= spec_total_benefits(blocks),
{
    lemma_selected_benefit_at_most_total(chromosome, blocks);
}

/// The fitness of `chromosome` for a knapsack that carries `max_weight`.
pub fn calculate_score(chromosome: &Vec<bool>, blocks: &Vec<Element>, max_weight: u64) -> (score:
    u128)
    requires
        chromosome.len() == blocks.len(),
    ensures
        score == spec_score(chromosome@, blocks@, max_weight),
        spec_weight(chromosome@, blocks@) > max_weight ==> score == 0,
        score == 0 <==> spec_weight(chromosome@, blocks@) > max_weight || spec_benefit(
            chromosome@,
            blocks@,
        ) == 0,
        score <= spec_total_benefits(blocks@),
{
    let elements = selected_elements(chromosome, blocks);
    proof {
        lemma_score_at_most_total(chromosome@, blocks@, max_weight);
    }
    if total_weight(&elements) > max_weight as u128 {
        return 0;
    }
    total_benefits(&elements)
}

} // verus!
