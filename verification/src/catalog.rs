//! The catalog of elements and the sums taken over it.

use vstd::prelude::*;

verus! {

/// One element that may go into the knapsack. Weight and benefit are whole
/// numbers of the caller's unit.
#[derive(Clone, Copy, Debug, PartialEq, Eq, Structural)]
pub struct Element {
    pub weight: u32,
    pub benefit: u32,
}

/// The sum of the weights of `blocks`.
pub open spec fn spec_total_weight(blocks: Seq<Element>) -> nat
    decreases blocks.len(),
{
    if blocks.len() == 0 {
        0
    } else {
        spec_total_weight(blocks.drop_last()) + blocks.last().weight as nat
    }
}

/// The sum of the benefits of `blocks`.
pub open spec fn spec_total_benefits(blocks: Seq<Element>) -> nat
    decreases blocks.len(),
{
    if blocks.len() == 0 {
        0
    } else {
        spec_total_benefits(blocks.drop_last()) + blocks.last().benefit as nat
    }
}

/// The elements that `chromosome` selects: those of `blocks` whose gene is
/// `true`, in the order of the catalog.
pub open spec fn spec_selected(chromosome: Seq<bool>, blocks: Seq<Element>) -> Seq<Element>
    decreases chromosome.len(),
{
    if chromosome.len() == 0 {
        Seq::empty()
    } else {
        let before = spec_selected(chromosome.drop_last(), blocks);
        if chromosome.last() {
            before.push(blocks[chromosome.len() - 1])
        } else {
            before
        }
    }
}

/// A sum of weights is at most the largest weight times the number of
/// elements, and so are the sums of benefits.
pub proof fn lemma_totals_bounded(blocks: Seq<Element>)
    ensures
        spec_total_weight(blocks) <= blocks.len() * 0xffff_ffff,
        spec_total_benefits(blocks) <= blocks.len() * 0xffff_ffff,
    decreases blocks.len(),
{
    if blocks.len() > 0 {
        lemma_totals_bounded(blocks.drop_last());
    }
}

/// What a chromosome selects weighs no more, and is worth no more, than the
/// part of the catalog that its genes cover.
pub proof fn lemma_selected_totals(chromosome: Seq<bool>, blocks: Seq<Element>)
    requires
        chromosome.len() <= blocks.len(),
    ensures
        spec_total_weight(spec_selected(chromosome, blocks)) <= spec_total_weight(
            blocks.take(chromosome.len() as int),
        ),
        spec_total_benefits(spec_selected(chromosome, blocks)) <= spec_total_benefits(
            blocks.take(chromosome.len() as int),
        ),
    decreases chromosome.len(),
{
    let n = chromosome.len() as int;
    if n > 0 {
        let shorter = chromosome.drop_last();
        lemma_selected_totals(shorter, blocks);
        let covered = blocks.take(n);
        assert(covered.drop_last() =~= blocks.take(n - 1));
        assert(covered.last() == blocks[n - 1]);
        let before = spec_selected(shorter, blocks);
        if chromosome.last() {
            let chosen = before.push(blocks[n - 1]);
            assert(chosen.drop_last() =~= before);
            assert(chosen.last() == blocks[n - 1]);
        }
    }
}

/// What a chromosome of the catalog's length selects is worth no more than
/// the whole catalog.
pub proof fn lemma_selected_benefit_at_most_total(chromosome: Seq<bool>, blocks: Seq<Element>)
    requires
        chromosome.len() == blocks.len(),
    ensures
        spec_total_benefits(spec_selected(chromosome, blocks)) <= spec_total_benefits(blocks),
{
    lemma_selected_totals(chromosome, blocks);
    assert(blocks.take(chromosome.len() as int) =~= blocks);
}

/// The elements of the catalog that the chromosome selects.
pub fn selected_elements(chromosome: &Vec<bool>, blocks: &Vec<Element>) -> (sliced_elements: Vec<
    Element,
>)
    requires
        chromosome.len() == blocks.len(),
    ensures
        sliced_elements@ == spec_selected(chromosome@, blocks@),
{
    let mut sliced_elements: Vec<Element> = Vec::new();
    let mut i: usize = 0;
    while i < chromosome.len()
        invariant
            chromosome.len() == blocks.len(),
            i <= chromosome.len(),
            sliced_elements@ == spec_selected(chromosome@.take(i as int), blocks@),
        decreases chromosome.len() - i,
    {
        proof {
            let longer = chromosome@.take(i + 1);
            assert(longer.drop_last() =~= chromosome@.take(i as int));
            assert(longer.last() == chromosome@[i as int]);
        }
        if chromosome[i] {
            sliced_elements.push(blocks[i]);
        }
        i += 1;
    }
    proof {
        assert(chromosome@.take(i as int) =~= chromosome@);
    }
    sliced_elements
}

/// The sum of the weights of `blocks`. The result is wide enough for every
/// vector of elements.
pub fn total_weight(blocks: &Vec<Element>) -> (weight: u128)
    ensures
        weight == spec_total_weight(blocks@),
{
    let mut weight: u128 = 0;
    let mut i: usize = 0;
    while i < blocks.len()
        invariant
            i <= blocks.len(),
            weight == spec_total_weight(blocks@.take(i as int)),
        decreases blocks.len() - i,
    {
        proof {
            let longer = blocks@.take(i + 1);
            assert(longer.drop_last() =~= blocks@.take(i as int));
            assert(longer.last() == blocks@[i as int]);
            lemma_totals_bounded(blocks@.take(i as int));
        }
        weight = weight + blocks[i].weight as u128;
        i += 1;
    }
    proof {
        assert(blocks@.take(i as int) =~= blocks@);
    }
    weight
}

/// The sum of the benefits of `blocks`. The result is wide enough for every
/// vector of elements.
pub fn total_benefits(blocks: &Vec<Element>) -> (benefit: u128)
    ensures
        benefit == spec_total_benefits(blocks@),
{
    let mut benefit: u128 = 0;
    let mut i: usize = 0;
    while i < blocks.len()
        invariant
            i <= blocks.len(),
            benefit == spec_total_benefits(blocks@.take(i as int)),
        decreases blocks.len() - i,
    {
        proof {
            let longer = blocks@.take(i + 1);
            assert(longer.drop_last() =~= blocks@.take(i as int));
            assert(longer.last() == blocks@[i as int]);
            lemma_totals_bounded(blocks@.take(i as int));
        }
        benefit = benefit + blocks[i].benefit as u128;
        i += 1;
    }
    proof {
        assert(blocks@.take(i as int) =~= blocks@);
    }
    benefit
}

} // verus!
