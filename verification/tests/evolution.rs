use knapsack_ga::catalog::{total_weight, Element};
use knapsack_ga::crossover::mix;
use knapsack_ga::evolution::{validate_config, evolve, Config, ConfigError, Evolution, Phase};
use knapsack_ga::fitness::calculate_score;
use knapsack_ga::random::{Probability, RandomSource};
use knapsack_ga::ranking::scores;

fn knapsack_catalog() -> Vec<Element> {
    vec![
        Element { weight: 12, benefit: 4 },
        Element { weight: 2, benefit: 2 },
        Element { weight: 1, benefit: 2 },
        Element { weight: 1, benefit: 1 },
        Element { weight: 4, benefit: 10 },
    ]
}

fn knapsack_config() -> Config {
    Config {
        blocks: 5,
        max_weight: 16,
        max_population: 5,
        mutate_probability: Probability { numerator: 4, denominator: 5 },
        generation_restriction: 8,
        gene_probability: Probability { numerator: 3, denominator: 10 },
    }
}

fn flipped_genes(a: &Vec<bool>, b: &Vec<bool>) -> usize {
    assert_eq!(a.len(), b.len());
    a.iter().zip(b.iter()).filter(|(x, y)| x != y).count()
}

#[test]
fn validate_config_accepts_the_knapsack_and_gives_its_whole_benefit() {
    assert_eq!(validate_config(&knapsack_config(), &knapsack_catalog()), Ok(19));
}

#[test]
fn validate_config_refuses_a_population_of_one() {
    let config = Config { max_population: 1, ..knapsack_config() };
    assert_eq!(validate_config(&config, &knapsack_catalog()), Err(ConfigError::PopulationTooSmall));
    let config = Config { max_population: 0, blocks: 4, ..knapsack_config() };
    assert_eq!(validate_config(&config, &knapsack_catalog()), Err(ConfigError::PopulationTooSmall));
    let config = Config { max_population: 2, ..knapsack_config() };
    assert_eq!(validate_config(&config, &knapsack_catalog()), Ok(19));
}

#[test]
fn validate_config_refuses_a_catalog_of_another_length() {
    let config = Config { blocks: 4, ..knapsack_config() };
    assert_eq!(validate_config(&config, &knapsack_catalog()), Err(ConfigError::CatalogMismatch));
    let config = Config { blocks: 6, generation_restriction: 0, ..knapsack_config() };
    assert_eq!(validate_config(&config, &knapsack_catalog()), Err(ConfigError::CatalogMismatch));
}

#[test]
fn validate_config_refuses_a_run_without_generations() {
    let config = Config { generation_restriction: 0, ..knapsack_config() };
    assert_eq!(validate_config(&config, &knapsack_catalog()), Err(ConfigError::NoGenerations));
}

#[test]
fn validate_config_refuses_a_mutation_probability_out_of_range() {
    let config = Config {
        mutate_probability: Probability { numerator: 6, denominator: 5 },
        ..knapsack_config()
    };
    assert_eq!(
        validate_config(&config, &knapsack_catalog()),
        Err(ConfigError::MutationProbabilityOutOfRange)
    );
    let config = Config {
        mutate_probability: Probability { numerator: 0, denominator: 0 },
        gene_probability: Probability { numerator: 2, denominator: 1 },
        ..knapsack_config()
    };
    assert_eq!(
        validate_config(&config, &knapsack_catalog()),
        Err(ConfigError::MutationProbabilityOutOfRange)
    );
}

#[test]
fn validate_config_refuses_a_gene_probability_out_of_range() {
    let config = Config {
        gene_probability: Probability { numerator: 2, denominator: 1 },
        ..knapsack_config()
    };
    assert_eq!(
        validate_config(&config, &knapsack_catalog()),
        Err(ConfigError::GeneProbabilityOutOfRange)
    );
}

#[test]
fn validate_config_refuses_a_catalog_worth_nothing() {
    let catalog = vec![Element { weight: 3, benefit: 0 }, Element { weight: 1, benefit: 0 }];
    let config = Config { blocks: 2, ..knapsack_config() };
    assert_eq!(validate_config(&config, &catalog), Err(ConfigError::NoBenefit));
    let config = Config { blocks: 0, ..knapsack_config() };
    assert_eq!(validate_config(&config, &Vec::new()), Err(ConfigError::NoBenefit));
}

#[test]
fn validate_config_refuses_a_benefit_beyond_32_bits() {
    let catalog = vec![Element { weight: 1, benefit: u32::MAX }, Element { weight: 1, benefit: 1 }];
    let config = Config { blocks: 2, ..knapsack_config() };
    assert_eq!(validate_config(&config, &catalog), Err(ConfigError::BenefitTooLarge));
    let catalog = vec![Element { weight: 1, benefit: u32::MAX - 1 }, Element { weight: 1, benefit: 1 }];
    assert_eq!(validate_config(&config, &catalog), Ok(u32::MAX));
}

#[test]
fn initialize_refuses_what_validate_config_refuses() {
    let mut source = RandomSource::from_seed(1);
    let config = Config { max_population: 1, ..knapsack_config() };
    assert!(matches!(
        Evolution::initialize(knapsack_catalog(), config, &mut source),
        Err(ConfigError::PopulationTooSmall)
    ));
    let config = Config { blocks: 3, ..knapsack_config() };
    assert!(matches!(
        evolve(knapsack_catalog(), config, &mut source),
        Err(ConfigError::CatalogMismatch)
    ));
}

#[test]
fn initialize_draws_a_population_of_the_configured_shape() {
    let mut source = RandomSource::from_seed(2);
    let config = Config { max_population: 9, ..knapsack_config() };
    let evolution = Evolution::initialize(knapsack_catalog(), config, &mut source).unwrap();
    assert_eq!(evolution.phase(), Phase::Evolving { generation: 0 });
    assert_eq!(evolution.population().len(), 9);
    for chromosome in evolution.population().iter() {
        assert_eq!(chromosome.len(), 5);
    }
}

#[test]
fn initialize_with_gene_probability_zero_selects_nothing() {
    let mut source = RandomSource::from_seed(3);
    let config = Config {
        gene_probability: Probability { numerator: 0, denominator: 10 },
        ..knapsack_config()
    };
    let evolution = Evolution::initialize(knapsack_catalog(), config, &mut source).unwrap();
    assert_eq!(evolution.population(), &vec![vec![false; 5]; 5]);
}

#[test]
fn step_replaces_the_weakest_slot_with_the_child() {
    for seed in 0..40u64 {
        let mut source = RandomSource::from_seed(seed);
        let mut evolution =
            Evolution::initialize(knapsack_catalog(), knapsack_config(), &mut source).unwrap();
        let before = evolution.population().clone();
        let ranking = scores(&before, &knapsack_catalog(), 16, 19);
        let record = evolution.step(&mut source);
        assert_eq!(record.generation, 0);
        assert_eq!(record.ranking, ranking);
        assert_ne!(record.parents.0, record.parents.1);
        assert_eq!(record.first_parent, before[record.parents.0]);
        assert_eq!(record.second_parent, before[record.parents.1]);
        assert_eq!(record.crossed, mix(&record.first_parent, &record.second_parent));
        let flipped = flipped_genes(&record.crossed, &record.child);
        assert_eq!(flipped, if record.mutated { 1 } else { 0 });
        assert_eq!(record.replaced, ranking.last().unwrap().index);
        let after = evolution.population();
        for slot in 0..5 {
            if slot == record.replaced {
                assert_eq!(after[slot], record.child);
            } else {
                assert_eq!(after[slot], before[slot]);
            }
        }
        assert_eq!(evolution.phase(), Phase::Evolving { generation: 1 });
    }
}

#[test]
fn evolution_reports_after_the_configured_generations() {
    let mut source = RandomSource::from_seed(5);
    let config = Config { generation_restriction: 3, ..knapsack_config() };
    let mut evolution = Evolution::initialize(knapsack_catalog(), config, &mut source).unwrap();
    let mut steps = 0;
    while let Phase::Evolving { generation } = evolution.phase() {
        assert_eq!(generation, steps);
        evolution.step(&mut source);
        steps += 1;
    }
    assert_eq!(steps, 3);
    assert_eq!(evolution.phase(), Phase::Reporting);
    let last = evolution.population().clone();
    let report = evolution.report();
    assert_eq!(report.population, last);
}

#[test]
fn report_names_the_fittest_chromosome() {
    for seed in 0..40u64 {
        let mut source = RandomSource::from_seed(seed);
        let run = evolve(knapsack_catalog(), knapsack_config(), &mut source).unwrap();
        let report = run.report;
        let catalog = knapsack_catalog();
        assert_eq!(report.benefits.len(), 5);
        for slot in 0..5 {
            assert_eq!(
                report.benefits[slot] as u128,
                calculate_score(&report.population[slot], &catalog, 16)
            );
        }
        let best = *report.benefits.iter().max().unwrap();
        assert_eq!(report.best_benefit, best);
        assert_eq!(report.best_index, report.benefits.iter().position(|b| *b == best).unwrap());
        assert_eq!(report.best_chromosome, report.population[report.best_index]);
        let expected: Vec<Element> = catalog
            .iter()
            .zip(report.best_chromosome.iter())
            .filter(|(_, gene)| **gene)
            .map(|(element, _)| *element)
            .collect();
        assert_eq!(report.best_elements, expected);
        if report.best_benefit > 0 {
            assert!(total_weight(&report.best_elements) <= 16);
        }
    }
}

#[test]
fn evolve_runs_every_generation_and_the_trace_explains_the_result() {
    for seed in 0..40u64 {
        let mut source = RandomSource::from_seed(seed);
        let run = evolve(knapsack_catalog(), knapsack_config(), &mut source).unwrap();
        assert_eq!(run.initial.len(), 5);
        assert_eq!(run.generations.len(), 8);
        let mut population = run.initial.clone();
        for (number, record) in run.generations.iter().enumerate() {
            assert_eq!(record.generation, number);
            assert_eq!(record.ranking, scores(&population, &knapsack_catalog(), 16, 19));
            assert_eq!(record.first_parent, population[record.parents.0]);
            assert_eq!(record.second_parent, population[record.parents.1]);
            assert_eq!(record.crossed, mix(&record.first_parent, &record.second_parent));
            assert!(flipped_genes(&record.crossed, &record.child) <= 1);
            population[record.replaced] = record.child.clone();
            assert_eq!(population.len(), 5);
        }
        assert_eq!(run.report.population, population);
    }
}

#[test]
fn evolve_without_mutation_keeps_the_child_of_the_crossover() {
    let mut source = RandomSource::from_seed(6);
    let config = Config {
        mutate_probability: Probability { numerator: 0, denominator: 5 },
        ..knapsack_config()
    };
    let run = evolve(knapsack_catalog(), config, &mut source).unwrap();
    for record in run.generations.iter() {
        assert!(!record.mutated);
        assert_eq!(record.child, record.crossed);
    }
}

#[test]
fn evolve_with_certain_mutation_flips_one_gene_each_generation() {
    let mut source = RandomSource::from_seed(7);
    let config = Config {
        mutate_probability: Probability { numerator: 5, denominator: 5 },
        ..knapsack_config()
    };
    let run = evolve(knapsack_catalog(), config, &mut source).unwrap();
    for record in run.generations.iter() {
        assert!(record.mutated);
        assert_eq!(flipped_genes(&record.crossed, &record.child), 1);
    }
}

#[test]
fn evolve_from_the_same_seed_gives_the_same_run() {
    let mut first = RandomSource::from_seed(21);
    let mut second = RandomSource::from_seed(21);
    let a = evolve(knapsack_catalog(), knapsack_config(), &mut first).unwrap();
    let b = evolve(knapsack_catalog(), knapsack_config(), &mut second).unwrap();
    assert_eq!(a.initial, b.initial);
    assert_eq!(a.report.population, b.report.population);
    assert_eq!(a.report.best_index, b.report.best_index);
}

#[test]
fn knapsack_of_five_elements_is_solved_in_eight_generations() {
    let mut source = RandomSource::from_seed(42);
    let run = evolve(knapsack_catalog(), knapsack_config(), &mut source).unwrap();
    assert_eq!(run.generations.len(), 8);
    assert_eq!(run.report.population.len(), 5);
    assert!(run.report.best_benefit >= 15);
    assert_eq!(run.report.best_chromosome, vec![false, true, true, true, true]);
    assert_eq!(
        run.report.best_elements,
        vec![
            Element { weight: 2, benefit: 2 },
            Element { weight: 1, benefit: 2 },
            Element { weight: 1, benefit: 1 },
            Element { weight: 4, benefit: 10 },
        ]
    );
    assert_eq!(total_weight(&run.report.best_elements), 8);
    assert!(total_weight(&run.report.best_elements) <= 16);
}

#[test]
fn knapsack_runs_never_report_an_overweight_selection_of_positive_benefit() {
    for seed in 0..300u64 {
        let mut source = RandomSource::from_seed(seed);
        let run = evolve(knapsack_catalog(), knapsack_config(), &mut source).unwrap();
        let weight = total_weight(&run.report.best_elements);
        if weight > 16 {
            assert_eq!(run.report.best_benefit, 0);
            assert!(run.report.benefits.iter().all(|benefit| *benefit == 0));
        }
        assert!(run.report.best_benefit <= 15);
    }
}
