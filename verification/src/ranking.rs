//! The ranking of a population: its chromosomes ordered from the fittest to
//! the weakest, each with the probability of being selected as a parent.

use crate::catalog::{spec_total_benefits, Element};
use crate::fitness::{calculate_score, spec_score};
use crate::population::{spec_genes, uniform_length};
use crate::random::Probability;
use vstd::prelude::*;

verus! {

/// The fitness of the chromosome in slot `index` of the population, and the
/// probability that a trial of the selection accepts it.
#[derive(Clone, Copy, Debug, PartialEq, Eq, Structural)]
pub struct Score {
    pub index: usize,
    pub total_benefit: u32,
    pub probability: Probability,
}

/// The score of the chromosome in `slot`: its fitness, and that fitness as a
/// share of `max_possible_benefit`.
pub open spec fn spec_score_of(
    slot: int,
    population: Seq<Seq<bool>>,
    blocks: Seq<Element>,
    max_weight: u64,
    max_possible_benefit: u32,
) -> Score {
    let benefit = spec_score(population[slot], blocks, max_weight);
    Score {
        index: slot as usize,
        total_benefit: benefit as u32,
        probability: Probability { numerator: benefit as u32, denominator: max_possible_benefit },
    }
}

/// `first` stands before `second` in a ranking: it is fitter, or as fit and in
/// an earlier slot.
pub open spec fn ranks_before(first: Score, second: Score) -> bool {
    first.total_benefit > second.total_benefit || (first.total_benefit == second.total_benefit
        && first.index < second.index)
}

/// Any two entries of `ranked` stand in ranking order.
pub open spec fn in_rank_order(ranked: Seq<Score>) -> bool {
    forall|a: int, b: int| 0 <= a < b < ranked.len() ==> ranks_before(#[trigger] ranked[a], #[trigger] ranked[b])
}

/// Some entry of `ranked` is that of `slot`.
pub open spec fn ranks_slot(ranked: Seq<Score>, slot: int) -> bool {
    exists|k: int| 0 <= k < ranked.len() && (#[trigger] ranked[k]).index == slot
}

/// `ranked` is the ranking of the first `count` slots of the population: one
/// entry for each of them, each the score of its slot, in ranking order.
pub open spec fn is_ranking_of_first(
    ranked: Seq<Score>,
    count: int,
    population: Seq<Seq<bool>>,
    blocks: Seq<Element>,
    max_weight: u64,
    max_possible_benefit: u32,
) -> bool {
    &&& ranked.len() == count
    &&& forall|k: int|
        0 <= k < ranked.len() ==> 0 <= (#[trigger] ranked[k]).index < count && ranked[k]
            == spec_score_of(
            ranked[k].index as int,
            population,
            blocks,
            max_weight,
            max_possible_benefit,
        )
    &&& forall|slot: int| 0 <= slot < count ==> #[trigger] ranks_slot(ranked, slot)
    &&& in_rank_order(ranked)
}

/// `ranked` is the ranking of the whole population.
pub open spec fn is_ranking(
    ranked: Seq<Score>,
    population: Seq<Seq<bool>>,
    blocks: Seq<Element>,
    max_weight: u64,
    max_possible_benefit: u32,
) -> bool {
    is_ranking_of_first(
        ranked,
        population.len() as int,
        population,
        blocks,
        max_weight,
        max_possible_benefit,
    )
}

/// Puts `score` into `ranked` behind every entry that is at least as fit, and
/// returns the position it took.
fn insert_ranked(ranked: &mut Vec<Score>, score: Score) -> (position: usize)
    requires
        in_rank_order(old(ranked)@),
        forall|k: int| 0 <= k < old(ranked).len() ==> (#[trigger] old(ranked)[k]).index < score.index,
    ensures
        position <= old(ranked).len(),
        final(ranked)@ == old(ranked)@.insert(position as int, score),
        in_rank_order(final(ranked)@),
{
    let mut position: usize = 0;
    while position < ranked.len() && ranked[position].total_benefit >= score.total_benefit
        invariant
            position <= ranked.len(),
            forall|k: int| 0 <= k < position ==> (#[trigger] ranked[k]).total_benefit >= score.total_benefit,
        decreases ranked.len() - position,
    {
        position += 1;
    }
    proof {
        ranked@.insert_ensures(position as int, score);
        let before = ranked@;
        let after = before.insert(position as int, score);
        assert forall|a: int, b: int| 0 <= a < b < after.len() implies ranks_before(
            #[trigger] after[a],
            #[trigger] after[b],
        ) by {
            if b < position {
                assert(after[a] == before[a] && after[b] == before[b]);
            } else if b == position {
                assert(after[a] == before[a]);
            } else if a < position {
                assert(after[a] == before[a] && after[b] == before[b - 1]);
            } else if a == position {
                assert(after[b] == before[b - 1]);
                assert(ranks_before(before[position as int], before[b - 1]) || position == b - 1);
            } else {
                assert(after[a] == before[a - 1] && after[b] == before[b - 1]);
            }
        }
    }
    ranked.insert(position, score);
    position
}

/// Ranks the population: scores every chromosome and orders the scores by
/// falling fitness. Chromosomes of equal fitness keep the order of their
/// slots.
pub fn scores(
    chromosomes: &Vec<Vec<bool>>,
    blocks: &Vec<Element>,
    max_weight: u64,
    max_possible_benefit: u32,
) -> (ranked: Vec<Score>)
    requires
        chromosomes.len() > 0,
        max_possible_benefit > 0,
        spec_total_benefits(blocks@) <= max_possible_benefit,
        uniform_length(spec_genes(chromosomes@), blocks@.len()),
    ensures
        is_ranking(
            ranked@,
            spec_genes(chromosomes@),
            blocks@,
            max_weight,
            max_possible_benefit,
        ),
        ranked.len() == chromosomes.len(),
        forall|a: int, b: int|
            0 <= a <= b < ranked.len() ==> (#[trigger] ranked[a]).total_benefit >= (
            #[trigger] ranked[b]).total_benefit,
        forall|k: int|
            0 <= k < ranked.len() ==> (#[trigger] ranked[k]).probability.valid()
                && ranked[k].total_benefit == spec_score(
                chromosomes[ranked[k].index as int]@,
                blocks@,
                max_weight,
            ),
{
    let ghost population = spec_genes(chromosomes@);
    let mut ranked: Vec<Score> = Vec::new();
    let mut index: usize = 0;
    while index < chromosomes.len()
        invariant
            index <= chromosomes.len(),
            population == spec_genes(chromosomes@),
            max_possible_benefit > 0,
            spec_total_benefits(blocks@) <= max_possible_benefit,
            uniform_length(population, blocks@.len()),
            is_ranking_of_first(
                ranked@,
                index as int,
                population,
                blocks@,
                max_weight,
                max_possible_benefit,
            ),
        decreases chromosomes.len() - index,
    {
        assert(population[index as int] == chromosomes[index as int]@);
        let benefit = calculate_score(&chromosomes[index], blocks, max_weight);
        let score = Score {
            index,
            total_benefit: benefit as u32,
            probability: Probability {
                numerator: benefit as u32,
                denominator: max_possible_benefit,
            },
        };
        let ghost before = ranked@;
        let position = insert_ranked(&mut ranked, score);
        proof {
            before.insert_ensures(position as int, score);
            let after = ranked@;
            assert(score == spec_score_of(
                index as int,
                population,
                blocks@,
                max_weight,
                max_possible_benefit,
            ));
            assert forall|slot: int| 0 <= slot < index + 1 implies #[trigger] ranks_slot(
                after,
                slot,
            ) by {
                if slot == index {
                    assert(after[position as int].index == slot);
                } else {
                    assert(ranks_slot(before, slot));
                    let k = choose|k: int| 0 <= k < before.len() && (#[trigger] before[k]).index == slot;
                    if k < position {
                        assert(after[k].index == slot);
                    } else {
                        assert(after[k + 1] == before[k]);
                        assert(after[k + 1].index == slot);
                    }
                }
            }
            assert forall|k: int| 0 <= k < after.len() implies 0 <= (#[trigger] after[k]).index
                < index + 1 && after[k] == spec_score_of(
                after[k].index as int,
                population,
                blocks@,
                max_weight,
                max_possible_benefit,
            ) by {
                if k < position {
                    assert(after[k] == before[k]);
                } else if k > position {
                    assert(after[k] == before[k - 1]);
                }
            }
        }
        index += 1;
    }
    proof {
        lemma_ranking_facts(ranked@, population, blocks@, max_weight, max_possible_benefit);
    }
    ranked
}

/// What a ranking holds: fitness falls along it, every entry carries the
/// fitness of its slot, and every probability lies between 0 and 1, where
/// `max_possible_benefit` is at least the benefit of the whole catalog.
pub proof fn lemma_ranking_facts(
    ranked: Seq<Score>,
    population: Seq<Seq<bool>>,
    blocks: Seq<Element>,
    max_weight: u64,
    max_possible_benefit: u32,
)
    requires
        is_ranking(ranked, population, blocks, max_weight, max_possible_benefit),
        uniform_length(population, blocks.len()),
        0 < max_possible_benefit,
        spec_total_benefits(blocks) <= max_possible_benefit,
    ensures
        forall|a: int, b: int|
            0 <= a <= b < ranked.len() ==> (#[trigger] ranked[a]).total_benefit >= (
            #[trigger] ranked[b]).total_benefit,
        forall|k: int|
            0 <= k < ranked.len() ==> (#[trigger] ranked[k]).probability.valid()
                && ranked[k].total_benefit == spec_score(
                population[ranked[k].index as int],
                blocks,
                max_weight,
            ),
{
    assert forall|k: int| 0 <= k < ranked.len() implies (#[trigger] ranked[k]).probability.valid()
        && ranked[k].total_benefit == spec_score(
        population[ranked[k].index as int],
        blocks,
        max_weight,
    ) by {
        let slot = ranked[k].index as int;
        crate::fitness::lemma_score_at_most_total(population[slot], blocks, max_weight);
    }
    assert forall|a: int, b: int| 0 <= a <= b < ranked.len() implies (#[trigger] ranked[a]).total_benefit
        >= (#[trigger] ranked[b]).total_benefit by {
        if a < b {
            assert(ranks_before(ranked[a], ranked[b]));
        }
    }
}

/// `slot` holds the weakest chromosome: none is less fit, and of those as fit
/// none stands in a later slot.
pub open spec fn is_weakest_slot(
    slot: int,
    population: Seq<Seq<bool>>,
    blocks: Seq<Element>,
    max_weight: u64,
) -> bool {
    &&& 0 <= slot < population.len()
    &&& forall|other: int|
        0 <= other < population.len() ==> spec_score(
            #[trigger] population[other],
            blocks,
            max_weight,
        ) >= spec_score(population[slot], blocks, max_weight)
    &&& forall|other: int|
        0 <= other < population.len() && spec_score(
            #[trigger] population[other],
            blocks,
            max_weight,
        ) == spec_score(population[slot], blocks, max_weight) ==> other <= slot
}

/// `slot` holds the fittest chromosome: none is fitter, and of those as fit
/// none stands in an earlier slot.
pub open spec fn is_fittest_slot(
    slot: int,
    population: Seq<Seq<bool>>,
    blocks: Seq<Element>,
    max_weight: u64,
) -> bool {
    &&& 0 <= slot < population.len()
    &&& forall|other: int|
        0 <= other < population.len() ==> spec_score(
            #[trigger] population[other],
            blocks,
            max_weight,
        ) <= spec_score(population[slot], blocks, max_weight)
    &&& forall|other: int|
        0 <= other < population.len() && spec_score(
            #[trigger] population[other],
            blocks,
            max_weight,
        ) == spec_score(population[slot], blocks, max_weight) ==> slot <= other
}

/// No two entries of a ranking are of the same slot.
pub proof fn lemma_ranking_slots_distinct(
    ranked: Seq<Score>,
    population: Seq<Seq<bool>>,
    blocks: Seq<Element>,
    max_weight: u64,
    max_possible_benefit: u32,
)
    requires
        is_ranking(ranked, population, blocks, max_weight, max_possible_benefit),
    ensures
        forall|a: int, b: int|
            0 <= a < ranked.len() && 0 <= b < ranked.len() && a != b ==> (
            #[trigger] ranked[a]).index != (#[trigger] ranked[b]).index,
{
    assert forall|a: int, b: int|
        0 <= a < ranked.len() && 0 <= b < ranked.len() && a != b implies (
    #[trigger] ranked[a]).index != (#[trigger] ranked[b]).index by {
        if ranked[a].index == ranked[b].index {
            assert(ranked[a] == ranked[b]);
            if a < b {
                assert(ranks_before(ranked[a], ranked[b]));
            } else {
                assert(ranks_before(ranked[b], ranked[a]));
            }
        }
    }
}

/// Two rankings of one population agree on their first `count` entries.
proof fn lemma_rankings_agree_on_first(
    first: Seq<Score>,
    second: Seq<Score>,
    count: int,
    population: Seq<Seq<bool>>,
    blocks: Seq<Element>,
    max_weight: u64,
    max_possible_benefit: u32,
)
    requires
        is_ranking(first, population, blocks, max_weight, max_possible_benefit),
        is_ranking(second, population, blocks, max_weight, max_possible_benefit),
        0 <= count <= population.len(),
    ensures
        forall|k: int| 0 <= k < count ==> first[k] == second[k],
    decreases count,
{
    if count > 0 {
        lemma_rankings_agree_on_first(
            first,
            second,
            count - 1,
            population,
            blocks,
            max_weight,
            max_possible_benefit,
        );
        let here = count - 1;
        let x = first[here];
        let y = second[here];
        assert(ranks_slot(second, x.index as int));
        let m = choose|m: int| 0 <= m < second.len() && (#[trigger] second[m]).index == x.index;
        assert(second[m] == x);
        assert(ranks_slot(first, y.index as int));
        let n = choose|n: int| 0 <= n < first.len() && (#[trigger] first[n]).index == y.index;
        assert(first[n] == y);
        if m < here {
            assert(first[m] == second[m]);
            assert(ranks_before(first[m], first[here]));
        } else if n < here {
            assert(first[n] == second[n]);
            assert(ranks_before(second[n], second[here]));
        } else if m > here && n > here {
            assert(ranks_before(second[here], second[m]));
            assert(ranks_before(first[here], first[n]));
        }
    }
}

/// A population has one ranking only: scoring it again, unchanged, gives the
/// same entries in the same order.
pub proof fn lemma_ranking_is_unique(
    first: Seq<Score>,
    second: Seq<Score>,
    population: Seq<Seq<bool>>,
    blocks: Seq<Element>,
    max_weight: u64,
    max_possible_benefit: u32,
)
    requires
        is_ranking(first, population, blocks, max_weight, max_possible_benefit),
        is_ranking(second, population, blocks, max_weight, max_possible_benefit),
    ensures
        first == second,
{
    lemma_rankings_agree_on_first(
        first,
        second,
        population.len() as int,
        population,
        blocks,
        max_weight,
        max_possible_benefit,
    );
    assert(first =~= second);
}

/// The first entry of a ranking is that of the fittest chromosome, the last
/// entry that of the weakest.
pub proof fn lemma_ranking_ends(
    ranked: Seq<Score>,
    population: Seq<Seq<bool>>,
    blocks: Seq<Element>,
    max_weight: u64,
    max_possible_benefit: u32,
)
    requires
        is_ranking(ranked, population, blocks, max_weight, max_possible_benefit),
        uniform_length(population, blocks.len()),
        0 < max_possible_benefit,
        spec_total_benefits(blocks) <= max_possible_benefit,
        population.len() > 0,
    ensures
        is_fittest_slot(ranked[0].index as int, population, blocks, max_weight),
        is_weakest_slot(ranked.last().index as int, population, blocks, max_weight),
{
    lemma_ranking_facts(ranked, population, blocks, max_weight, max_possible_benefit);
    let best = ranked[0];
    let worst = ranked.last();
    let end = ranked.len() - 1;
    assert forall|other: int| 0 <= other < population.len() implies spec_score(
        #[trigger] population[other],
        blocks,
        max_weight,
    ) <= spec_score(population[best.index as int], blocks, max_weight) && spec_score(
        population[other],
        blocks,
        max_weight,
    ) >= spec_score(population[worst.index as int], blocks, max_weight) && (spec_score(
        population[other],
        blocks,
        max_weight,
    ) == spec_score(population[best.index as int], blocks, max_weight) ==> best.index <= other)
        && (spec_score(population[other], blocks, max_weight) == spec_score(
        population[worst.index as int],
        blocks,
        max_weight,
    ) ==> other <= worst.index) by {
        assert(ranks_slot(ranked, other));
        let k = choose|k: int| 0 <= k < ranked.len() && (#[trigger] ranked[k]).index == other;
        if 0 < k {
            assert(ranks_before(ranked[0], ranked[k]));
        }
        if k < end {
            assert(ranks_before(ranked[k], ranked[end]));
        }
    }
}

} // verus!
