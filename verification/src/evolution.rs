//! The driver: it makes the first population, runs a fixed number of
//! generations and reports the fittest chromosome of the last one.
//!
//! An `Evolution` is made by `initialize`, which checks the configuration. It
//! is then `Evolving`, one `step` for each generation, until the configured
//! number of generations has run. It is then `Reporting`: `report` takes it
//! and hands out the result, after which there is no evolution left to act on.

use crate::catalog::{selected_elements, spec_selected, spec_total_benefits, total_benefits, Element};
use crate::crossover::{mix, spec_mix};
use crate::fitness::{calculate_score, feasible, spec_score};
use crate::mutation::{mutate, one_gene_flipped};
use crate::population::{random_population, spec_genes, uniform_length};
use crate::random::{Probability, RandomSource};
use crate::ranking::{
    is_fittest_slot, is_ranking, is_weakest_slot, lemma_ranking_ends, lemma_ranking_facts,
    lemma_ranking_slots_distinct, scores, Score,
};
use crate::replacement::replace_weakest;
use crate::selection::{possible_outcomes, select_parents, spec_parents};
use vstd::prelude::*;

verus! {

/// What a run is configured with.
#[derive(Clone, Copy, Debug, PartialEq, Eq, Structural)]
pub struct Config {
    /// The number of genes of a chromosome, which is the number of elements of
    /// the catalog.
    pub blocks: usize,
    /// The weight that the knapsack carries.
    pub max_weight: u64,
    /// The number of chromosomes of the population, two at least.
    pub max_population: usize,
    /// The probability that a child is mutated.
    pub mutate_probability: Probability,
    /// The number of generations of a run, one at least.
    pub generation_restriction: usize,
    /// The probability that a gene of the first population is set.
    pub gene_probability: Probability,
}

/// Why a configuration is refused.
#[derive(Clone, Copy, Debug, PartialEq, Eq, Structural)]
pub enum ConfigError {
    /// The population has fewer than two chromosomes.
    PopulationTooSmall,
    /// The catalog has not the configured number of elements.
    CatalogMismatch,
    /// No generation is to be run.
    NoGenerations,
    /// The probability of a mutation is no ratio between 0 and 1.
    MutationProbabilityOutOfRange,
    /// The probability of a gene is no ratio between 0 and 1.
    GeneProbabilityOutOfRange,
    /// The elements of the catalog are worth nothing, so that no fitness can
    /// be taken as a share of their benefit.
    NoBenefit,
    /// The benefit of the whole catalog does not fit into 32 bits, the width
    /// of the ratio that a trial takes.
    BenefitTooLarge,
}

/// The stage that an evolution is in.
#[derive(Clone, Copy, Debug, PartialEq, Eq, Structural)]
pub enum Phase {
    /// `generation` generations have run and more are to come.
    Evolving { generation: usize },
    /// Every generation has run.
    Reporting,
}

/// What one generation did.
#[derive(Debug)]
pub struct Generation {
    /// The number of the generation, from zero.
    pub generation: usize,
    /// The ranking of the population that the generation found.
    pub ranking: Vec<Score>,
    /// The slots of the two parents.
    pub parents: (usize, usize),
    pub first_parent: Vec<bool>,
    pub second_parent: Vec<bool>,
    /// The child as the crossover made it.
    pub crossed: Vec<bool>,
    /// Whether the mutation flipped a gene of the child.
    pub mutated: bool,
    /// The child as it went into the population.
    pub child: Vec<bool>,
    /// The slot that the child took.
    pub replaced: usize,
}

/// The result of a run.
#[derive(Debug)]
pub struct Report {
    /// The last population.
    pub population: Vec<Vec<bool>>,
    /// The fitness of each of its chromosomes, slot by slot.
    pub benefits: Vec<u32>,
    /// The slot of the fittest chromosome.
    pub best_index: usize,
    pub best_chromosome: Vec<bool>,
    /// The elements that the fittest chromosome selects.
    pub best_elements: Vec<Element>,
    pub best_benefit: u32,
}

/// A whole run: the first population, what each generation did, and the
/// result.
#[derive(Debug)]
pub struct Outcome {
    pub initial: Vec<Vec<bool>>,
    pub generations: Vec<Generation>,
    pub report: Report,
}

/// The first of the rules that the configuration breaks, if it breaks one.
pub open spec fn spec_config_error(config: Config, blocks: Seq<Element>) -> Option<ConfigError> {
    if config.max_population < 2 {
        Some(ConfigError::PopulationTooSmall)
    } else if blocks.len() != config.blocks {
        Some(ConfigError::CatalogMismatch)
    } else if config.generation_restriction == 0 {
        Some(ConfigError::NoGenerations)
    } else if !config.mutate_probability.valid() {
        Some(ConfigError::MutationProbabilityOutOfRange)
    } else if !config.gene_probability.valid() {
        Some(ConfigError::GeneProbabilityOutOfRange)
    } else if spec_total_benefits(blocks) == 0 {
        Some(ConfigError::NoBenefit)
    } else if spec_total_benefits(blocks) > u32::MAX {
        Some(ConfigError::BenefitTooLarge)
    } else {
        None
    }
}

/// `record` is what generation `number` may do to `population`: it ranks the
/// population, takes the parents that some outcome of the trials selects,
/// crosses them, mutates the child or not, and names the weakest slot.
pub open spec fn is_generation_of(
    record: Generation,
    number: int,
    population: Seq<Seq<bool>>,
    blocks: Seq<Element>,
    config: Config,
    max_possible_benefit: u32,
) -> bool {
    &&& record.generation == number
    &&& is_ranking(record.ranking@, population, blocks, config.max_weight, max_possible_benefit)
    &&& exists|hits: Seq<bool>| #[trigger]
        possible_outcomes(record.ranking@, hits) && record.parents == spec_parents(
            record.ranking@,
            hits,
        )
    &&& record.parents.0 != record.parents.1
    &&& record.parents.0 < population.len()
    &&& record.parents.1 < population.len()
    &&& record.first_parent@ == population[record.parents.0 as int]
    &&& record.second_parent@ == population[record.parents.1 as int]
    &&& record.crossed@ == spec_mix(record.first_parent@, record.second_parent@)
    &&& record.mutated ==> one_gene_flipped(record.crossed@, record.child@)
    &&& !record.mutated ==> record.child@ == record.crossed@
    &&& config.mutate_probability.never() ==> !record.mutated
    &&& config.mutate_probability.always() ==> record.mutated
    &&& record.replaced == record.ranking@.last().index
    &&& is_weakest_slot(record.replaced as int, population, blocks, config.max_weight)
}

/// The population after the first `count` of the generations `records`: each
/// put its child into the slot it replaced.
pub open spec fn spec_replay(
    initial: Seq<Seq<bool>>,
    records: Seq<Generation>,
    count: int,
) -> Seq<Seq<bool>>
    decreases count,
{
    if count <= 0 {
        initial
    } else {
        spec_replay(initial, records, count - 1).update(
            records[count - 1].replaced as int,
            records[count - 1].child@,
        )
    }
}

/// `report` is the result for `population`: the fitness of every slot, and
/// the fittest chromosome with what it selects.
pub open spec fn is_report_of(
    report: Report,
    population: Seq<Seq<bool>>,
    blocks: Seq<Element>,
    max_weight: u64,
) -> bool {
    &&& spec_genes(report.population@) == population
    &&& report.benefits.len() == population.len()
    &&& forall|slot: int|
        0 <= slot < population.len() ==> (#[trigger] report.benefits[slot]) == spec_score(
            population[slot],
            blocks,
            max_weight,
        )
    &&& is_fittest_slot(report.best_index as int, population, blocks, max_weight)
    &&& report.best_chromosome@ == population[report.best_index as int]
    &&& report.best_elements@ == spec_selected(report.best_chromosome@, blocks)
    &&& report.best_benefit == spec_score(report.best_chromosome@, blocks, max_weight)
    &&& report.best_benefit > 0 ==> feasible(report.best_chromosome@, blocks, max_weight)
}

/// The replay of `count` generations looks at the first `count` records only.
pub proof fn lemma_replay_prefix(
    initial: Seq<Seq<bool>>,
    records: Seq<Generation>,
    longer: Seq<Generation>,
    count: int,
)
    requires
        count <= records.len() <= longer.len(),
        forall|g: int| 0 <= g < records.len() ==> records[g] == longer[g],
    ensures
        spec_replay(initial, records, count) == spec_replay(initial, longer, count),
    decreases count,
{
    if count > 0 {
        lemma_replay_prefix(initial, records, longer, count - 1);
    }
}

/// Checks the configuration against the catalog. Returns the benefit of the
/// whole catalog, which no fitness exceeds, or the first rule that is broken.
pub fn validate_config(config: &Config, blocks: &Vec<Element>) -> (checked: Result<u32, ConfigError>)
    ensures
        checked is Ok <==> spec_config_error(*config, blocks@) is None,
        checked matches Ok(max_possible_benefit) ==> max_possible_benefit == spec_total_benefits(
            blocks@,
        ) && max_possible_benefit > 0,
        checked matches Err(error) ==> spec_config_error(*config, blocks@) == Some(error),
{
    if config.max_population < 2 {
        return Err(ConfigError::PopulationTooSmall);
    }
    if blocks.len() != config.blocks {
        return Err(ConfigError::CatalogMismatch);
    }
    if config.generation_restriction == 0 {
        return Err(ConfigError::NoGenerations);
    }
    if !config.mutate_probability.is_valid() {
        return Err(ConfigError::MutationProbabilityOutOfRange);
    }
    if !config.gene_probability.is_valid() {
        return Err(ConfigError::GeneProbabilityOutOfRange);
    }
    let max_possible_benefit = total_benefits(blocks);
    if max_possible_benefit == 0 {
        Err(ConfigError::NoBenefit)
    } else if max_possible_benefit > u32::MAX as u128 {
        Err(ConfigError::BenefitTooLarge)
    } else {
        Ok(max_possible_benefit as u32)
    }
}

/// A copy of a chromosome.
fn copy_chromosome(chromosome: &Vec<bool>) -> (copy: Vec<bool>)
    ensures
        copy@ == chromosome@,
{
    let mut copy: Vec<bool> = Vec::new();
    let mut i: usize = 0;
    while i < chromosome.len()
        invariant
            i <= chromosome.len(),
            copy@ == chromosome@.take(i as int),
        decreases chromosome.len() - i,
    {
        copy.push(chromosome[i]);
        proof {
            assert(copy@ =~= chromosome@.take(i + 1));
        }
        i += 1;
    }
    proof {
        assert(chromosome@.take(i as int) =~= chromosome@);
    }
    copy
}

/// A copy of a population.
fn copy_population(population: &Vec<Vec<bool>>) -> (copy: Vec<Vec<bool>>)
    ensures
        spec_genes(copy@) == spec_genes(population@),
{
    let mut copy: Vec<Vec<bool>> = Vec::new();
    let mut slot: usize = 0;
    while slot < population.len()
        invariant
            slot <= population.len(),
            copy.len() == slot,
            forall|k: int| 0 <= k < slot ==> (#[trigger] copy[k])@ == population[k]@,
        decreases population.len() - slot,
    {
        let chromosome = copy_chromosome(&population[slot]);
        copy.push(chromosome);
        slot += 1;
    }
    proof {
        assert(spec_genes(copy@) =~= spec_genes(population@));
    }
    copy
}

/// A run in progress: the catalog, the configuration and the population,
/// which only a generation changes.
pub struct Evolution {
    blocks: Vec<Element>,
    config: Config,
    max_possible_benefit: u32,
    chromosomes: Vec<Vec<bool>>,
    generation: usize,
}

impl Evolution {
    /// The catalog of the run.
    pub closed spec fn spec_blocks(&self) -> Seq<Element> {
        self.blocks@
    }

    /// The configuration of the run.
    pub closed spec fn spec_config(&self) -> Config {
        self.config
    }

    /// The benefit of the whole catalog.
    pub closed spec fn spec_max_possible_benefit(&self) -> u32 {
        self.max_possible_benefit
    }

    /// The population as it stands.
    pub closed spec fn spec_population(&self) -> Seq<Seq<bool>> {
        spec_genes(self.chromosomes@)
    }

    /// The number of generations that have run.
    pub closed spec fn spec_generation(&self) -> nat {
        self.generation as nat
    }

    /// The stage of the run.
    pub open spec fn spec_phase(&self) -> Phase {
        if self.spec_generation() < self.spec_config().generation_restriction {
            Phase::Evolving { generation: self.spec_generation() as usize }
        } else {
            Phase::Reporting
        }
    }

    /// The run is sound: its configuration was accepted, its population has
    /// the configured size, every chromosome has one gene for each element of
    /// the catalog, and no more generations have run than are configured.
    pub open spec fn wf(&self) -> bool {
        &&& spec_config_error(self.spec_config(), self.spec_blocks()) is None
        &&& self.spec_max_possible_benefit() == spec_total_benefits(self.spec_blocks())
        &&& self.spec_population().len() == self.spec_config().max_population
        &&& uniform_length(self.spec_population(), self.spec_blocks().len())
        &&& self.spec_generation() <= self.spec_config().generation_restriction
    }

    /// Starts a run: checks the configuration and draws the first population,
    /// every gene by a trial of probability `gene_probability`.
    pub fn initialize(blocks: Vec<Element>, config: Config, source: &mut RandomSource) -> (started:
        Result<Evolution, ConfigError>)
        ensures
            started is Ok <==> spec_config_error(config, blocks@) is None,
            started matches Err(error) ==> spec_config_error(config, blocks@) == Some(error),
            started matches Ok(evolution) ==> {
                &&& evolution.wf()
                &&& evolution.spec_blocks() == blocks@
                &&& evolution.spec_config() == config
                &&& evolution.spec_generation() == 0
                &&& evolution.spec_phase() == (Phase::Evolving { generation: 0 })
                &&& config.gene_probability.never() ==> forall|slot: int, i: int|
                    0 <= slot < config.max_population && 0 <= i < config.blocks
                        ==> !evolution.spec_population()[slot][i]
                &&& config.gene_probability.always() ==> forall|slot: int, i: int|
                    0 <= slot < config.max_population && 0 <= i < config.blocks
                        ==> evolution.spec_population()[slot][i]
            },
    {
        match validate_config(&config, &blocks) {
            Err(error) => Err(error),
            Ok(max_possible_benefit) => {
                let chromosomes = random_population(
                    config.max_population,
                    config.blocks,
                    config.gene_probability,
                    source,
                );
                Ok(Evolution { blocks, config, max_possible_benefit, chromosomes, generation: 0 })
            },
        }
    }

    /// The stage of the run.
    pub fn phase(&self) -> (phase: Phase)
        ensures
            phase == self.spec_phase(),
    {
        if self.generation < self.config.generation_restriction {
            Phase::Evolving { generation: self.generation }
        } else {
            Phase::Reporting
        }
    }

    /// The population as it stands.
    pub fn population(&self) -> (population: &Vec<Vec<bool>>)
        ensures
            spec_genes(population@) == self.spec_population(),
    {
        &self.chromosomes
    }

    /// Runs one generation: ranks the population, selects two parents,
    /// crosses them, mutates the child with the configured probability and
    /// puts it into the slot of the weakest chromosome.
    pub fn step(&mut self, source: &mut RandomSource) -> (record: Generation)
        requires
            old(self).wf(),
            old(self).spec_phase() is Evolving,
        ensures
            final(self).wf(),
            final(self).spec_blocks() == old(self).spec_blocks(),
            final(self).spec_config() == old(self).spec_config(),
            final(self).spec_max_possible_benefit() == old(self).spec_max_possible_benefit(),
            final(self).spec_generation() == old(self).spec_generation() + 1,
            is_generation_of(
                record,
                old(self).spec_generation() as int,
                old(self).spec_population(),
                old(self).spec_blocks(),
                old(self).spec_config(),
                old(self).spec_max_possible_benefit(),
            ),
            final(self).spec_population() == old(self).spec_population().update(
                record.replaced as int,
                record.child@,
            ),
    {
        let ghost population = spec_genes(self.chromosomes@);
        let ranking = scores(
            &self.chromosomes,
            &self.blocks,
            self.config.max_weight,
            self.max_possible_benefit,
        );
        proof {
            lemma_ranking_slots_distinct(
                ranking@,
                population,
                self.blocks@,
                self.config.max_weight,
                self.max_possible_benefit,
            );
            lemma_ranking_ends(
                ranking@,
                population,
                self.blocks@,
                self.config.max_weight,
                self.max_possible_benefit,
            );
            assert(ranking@[0].index != ranking@[1].index);
        }
        let parents = select_parents(&ranking, source);
        let first_parent = copy_chromosome(&self.chromosomes[parents.0]);
        let second_parent = copy_chromosome(&self.chromosomes[parents.1]);
        proof {
            assert(first_parent@ == population[parents.0 as int]);
            assert(second_parent@ == population[parents.1 as int]);
        }
        let crossed = mix(&first_parent, &second_parent);
        let mut child = copy_chromosome(&crossed);
        let mutated = mutate(&mut child, self.config.mutate_probability, source);
        let replaced = ranking[ranking.len() - 1].index;
        let generation = self.generation;
        replace_weakest(&mut self.chromosomes, &ranking, copy_chromosome(&child));
        self.generation = generation + 1;
        proof {
            assert(uniform_length(spec_genes(self.chromosomes@), self.blocks@.len())) by {
                assert forall|slot: int| 0 <= slot < self.chromosomes.len() implies (
                #[trigger] spec_genes(self.chromosomes@)[slot]).len() == self.blocks@.len() by {
                    if slot != replaced {
                        assert(spec_genes(self.chromosomes@)[slot] == population[slot]);
                    }
                }
            }
        }
        Generation {
            generation,
            ranking,
            parents,
            first_parent,
            second_parent,
            crossed,
            mutated,
            child,
            replaced,
        }
    }

    /// Ends the run: ranks the last population and hands out the fitness of
    /// every chromosome and the fittest of them.
    pub fn report(self) -> (report: Report)
        requires
            self.wf(),
            self.spec_phase() is Reporting,
        ensures
            is_report_of(
                report,
                self.spec_population(),
                self.spec_blocks(),
                self.spec_config().max_weight,
            ),
    {
        let ghost population = spec_genes(self.chromosomes@);
        let ranking = scores(
            &self.chromosomes,
            &self.blocks,
            self.config.max_weight,
            self.max_possible_benefit,
        );
        proof {
            lemma_ranking_ends(
                ranking@,
                population,
                self.blocks@,
                self.config.max_weight,
                self.max_possible_benefit,
            );
        }
        let best_index = ranking[0].index;
        let best_benefit = ranking[0].total_benefit;
        let best_chromosome = copy_chromosome(&self.chromosomes[best_index]);
        let best_elements = selected_elements(&best_chromosome, &self.blocks);
        let mut benefits: Vec<u32> = Vec::new();
        let mut slot: usize = 0;
        while slot < self.chromosomes.len()
            invariant
                slot <= self.chromosomes.len(),
                benefits.len() == slot,
                population == spec_genes(self.chromosomes@),
                uniform_length(population, self.blocks@.len()),
                spec_total_benefits(self.blocks@) == self.max_possible_benefit,
                forall|k: int|
                    0 <= k < slot ==> (#[trigger] benefits[k]) == spec_score(
                        population[k],
                        self.blocks@,
                        self.config.max_weight,
                    ),
            decreases self.chromosomes.len() - slot,
        {
            assert(population[slot as int] == self.chromosomes[slot as int]@);
            let benefit = calculate_score(
                &self.chromosomes[slot],
                &self.blocks,
                self.config.max_weight,
            );
            benefits.push(benefit as u32);
            slot += 1;
        }
        Report {
            population: self.chromosomes,
            benefits,
            best_index,
            best_chromosome,
            best_elements,
            best_benefit,
        }
    }
}

/// A whole run: starts it, runs every configured generation and reports.
/// A configuration that breaks a rule is refused before anything is drawn.
pub fn evolve(blocks: Vec<Element>, config: Config, source: &mut RandomSource) -> (outcome: Result<
    Outcome,
    ConfigError,
>)
    ensures
        outcome is Ok <==> spec_config_error(config, blocks@) is None,
        outcome matches Err(error) ==> spec_config_error(config, blocks@) == Some(error),
        outcome matches Ok(run) ==> {
            let initial = spec_genes(run.initial@);
            &&& initial.len() == config.max_population
            &&& uniform_length(initial, blocks@.len())
            &&& run.generations.len() == config.generation_restriction
            &&& forall|g: int|
                0 <= g < run.generations.len() ==> is_generation_of(
                    #[trigger] run.generations[g],
                    g,
                    spec_replay(initial, run.generations@, g),
                    blocks@,
                    config,
                    spec_total_benefits(blocks@) as u32,
                )
            &&& is_report_of(
                run.report,
                spec_replay(initial, run.generations@, run.generations.len() as int),
                blocks@,
                config.max_weight,
            )
            &&& run.report.population.len() == config.max_population
            &&& uniform_length(spec_genes(run.report.population@), blocks@.len())
        },
{
    let ghost catalog = blocks@;
    let mut evolution = match Evolution::initialize(blocks, config, source) {
        Err(error) => {
            return Err(error);
        },
        Ok(evolution) => evolution,
    };
    let initial = copy_population(evolution.population());
    let ghost first = spec_genes(initial@);
    proof {
        assert(first =~= evolution.spec_population());
    }
    let mut generations: Vec<Generation> = Vec::new();
    let ghost max_possible_benefit = evolution.spec_max_possible_benefit();
    while generations.len() < config.generation_restriction
        invariant
            evolution.wf(),
            evolution.spec_blocks() == catalog,
            evolution.spec_config() == config,
            evolution.spec_max_possible_benefit() == max_possible_benefit,
            evolution.spec_generation() == generations.len(),
            evolution.spec_population() == spec_replay(
                first,
                generations@,
                generations.len() as int,
            ),
            forall|g: int|
                0 <= g < generations.len() ==> is_generation_of(
                    #[trigger] generations[g],
                    g,
                    spec_replay(first, generations@, g),
                    catalog,
                    config,
                    max_possible_benefit,
                ),
        decreases config.generation_restriction - generations.len(),
    {
        let ghost before = generations@;
        let record = evolution.step(source);
        generations.push(record);
        proof {
            let after = generations@;
            assert forall|g: int| 0 <= g <= before.len() implies spec_replay(first, before, g)
                == spec_replay(first, after, g) by {
                lemma_replay_prefix(first, before, after, g);
            }
            assert(after[before.len() as int] == record);
            assert forall|g: int| 0 <= g < after.len() implies is_generation_of(
                #[trigger] after[g],
                g,
                spec_replay(first, after, g),
                catalog,
                config,
                max_possible_benefit,
            ) by {
                if g < before.len() {
                    assert(after[g] == before[g]);
                }
            }
        }
    }
    let report = evolution.report();
    Ok(Outcome { initial, generations, report })
}

} // verus!
