use knapsack_ga::population::{random_chromosome, random_population};
use knapsack_ga::random::{Probability, RandomSource};

#[test]
fn probability_new_accepts_ratios_between_zero_and_one() {
    assert_eq!(Probability::new(0, 1), Some(Probability { numerator: 0, denominator: 1 }));
    assert_eq!(Probability::new(3, 10), Some(Probability { numerator: 3, denominator: 10 }));
    assert_eq!(Probability::new(7, 7), Some(Probability { numerator: 7, denominator: 7 }));
}

#[test]
fn probability_new_refuses_other_ratios() {
    assert_eq!(Probability::new(0, 0), None);
    assert_eq!(Probability::new(1, 0), None);
    assert_eq!(Probability::new(11, 10), None);
}

#[test]
fn probability_is_valid_agrees_with_new() {
    assert!(Probability { numerator: 4, denominator: 5 }.is_valid());
    assert!(Probability { numerator: 0, denominator: 5 }.is_valid());
    assert!(!Probability { numerator: 6, denominator: 5 }.is_valid());
    assert!(!Probability { numerator: 0, denominator: 0 }.is_valid());
}

#[test]
fn random_chromosome_has_the_asked_length() {
    let mut source = RandomSource::from_seed(1);
    let p = Probability { numerator: 3, denominator: 10 };
    assert_eq!(random_chromosome(0, p, &mut source).len(), 0);
    assert_eq!(random_chromosome(5, p, &mut source).len(), 5);
    assert_eq!(random_chromosome(64, p, &mut source).len(), 64);
}

#[test]
fn random_chromosome_with_probability_zero_sets_no_gene() {
    let mut source = RandomSource::from_seed(2);
    let never = Probability { numerator: 0, denominator: 10 };
    assert_eq!(random_chromosome(40, never, &mut source), vec![false; 40]);
}

#[test]
fn random_chromosome_with_probability_one_sets_every_gene() {
    let mut source = RandomSource::from_seed(3);
    let always = Probability { numerator: 10, denominator: 10 };
    assert_eq!(random_chromosome(40, always, &mut source), vec![true; 40]);
}

#[test]
fn random_chromosome_sets_some_genes_and_not_others() {
    let mut source = RandomSource::from_seed(4);
    let p = Probability { numerator: 3, denominator: 10 };
    let chromosome = random_chromosome(2000, p, &mut source);
    let set = chromosome.iter().filter(|gene| **gene).count();
    assert!(set > 400);
    assert!(set < 800);
}

#[test]
fn same_seed_gives_the_same_draws() {
    let p = Probability { numerator: 1, denominator: 2 };
    let mut first = RandomSource::from_seed(99);
    let mut second = RandomSource::from_seed(99);
    assert_eq!(
        random_chromosome(200, p, &mut first),
        random_chromosome(200, p, &mut second)
    );
}

#[test]
fn random_population_has_the_asked_shape() {
    let mut source = RandomSource::from_seed(5);
    let p = Probability { numerator: 3, denominator: 10 };
    let population = random_population(7, 5, p, &mut source);
    assert_eq!(population.len(), 7);
    for chromosome in population.iter() {
        assert_eq!(chromosome.len(), 5);
    }
    assert!(random_population(0, 5, p, &mut source).is_empty());
}
