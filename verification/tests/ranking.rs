use knapsack_ga::catalog::Element;
use knapsack_ga::random::Probability;
use knapsack_ga::ranking::{scores, Score};

fn ranking_catalog() -> Vec<Element> {
    vec![
        Element { weight: 12, benefit: 4 },
        Element { weight: 2, benefit: 2 },
        Element { weight: 1, benefit: 2 },
        Element { weight: 1, benefit: 1 },
        Element { weight: 4, benefit: 10 },
    ]
}

fn ranking_population() -> Vec<Vec<bool>> {
    vec![
        vec![false, true, false, false, false],
        vec![true, true, true, true, true],
        vec![false, true, true, true, true],
        vec![false, false, true, false, false],
        vec![true, false, false, false, true],
    ]
}

fn entry(index: usize, total_benefit: u32, max: u32) -> Score {
    Score {
        index,
        total_benefit,
        probability: Probability { numerator: total_benefit, denominator: max },
    }
}

#[test]
fn scores_orders_by_falling_benefit() {
    let ranked = scores(&ranking_population(), &ranking_catalog(), 16, 19);
    assert_eq!(
        ranked,
        vec![entry(2, 15, 19), entry(4, 14, 19), entry(0, 2, 19), entry(3, 2, 19), entry(1, 0, 19)]
    );
}

#[test]
fn scores_keeps_slot_order_among_equal_benefits() {
    let population = vec![
        vec![false, false, true, false, false],
        vec![false, true, false, false, false],
        vec![true, true, true, true, true],
        vec![false, false, false, false, false],
        vec![false, true, false, false, false],
    ];
    let ranked = scores(&population, &ranking_catalog(), 16, 19);
    let slots: Vec<usize> = ranked.iter().map(|s| s.index).collect();
    assert_eq!(slots, vec![0, 1, 4, 2, 3]);
    let benefits: Vec<u32> = ranked.iter().map(|s| s.total_benefit).collect();
    assert_eq!(benefits, vec![2, 2, 2, 0, 0]);
}

#[test]
fn scores_has_one_entry_for_each_slot() {
    let population = ranking_population();
    let ranked = scores(&population, &ranking_catalog(), 16, 19);
    assert_eq!(ranked.len(), population.len());
    let mut slots: Vec<usize> = ranked.iter().map(|s| s.index).collect();
    slots.sort();
    assert_eq!(slots, vec![0, 1, 2, 3, 4]);
}

#[test]
fn scores_gives_probabilities_between_zero_and_one() {
    let ranked = scores(&ranking_population(), &ranking_catalog(), 16, 19);
    for score in ranked.iter() {
        assert_eq!(score.probability.denominator, 19);
        assert_eq!(score.probability.numerator, score.total_benefit);
        assert!(score.probability.numerator <= score.probability.denominator);
    }
    for pair in ranked.windows(2) {
        assert!(pair[0].total_benefit >= pair[1].total_benefit);
    }
}

#[test]
fn scores_with_a_larger_bound_lowers_the_probabilities_only() {
    let ranked = scores(&ranking_population(), &ranking_catalog(), 16, 38);
    assert_eq!(ranked[0], entry(2, 15, 38));
    assert_eq!(ranked[4], entry(1, 0, 38));
}

#[test]
fn scores_of_a_single_chromosome() {
    let population = vec![vec![false, false, false, false, true]];
    assert_eq!(scores(&population, &ranking_catalog(), 16, 19), vec![entry(0, 10, 19)]);
}

#[test]
fn scoring_twice_gives_the_same_ranking() {
    let population = ranking_population();
    let catalog = ranking_catalog();
    let first = scores(&population, &catalog, 16, 19);
    let second = scores(&population, &catalog, 16, 19);
    assert_eq!(first, second);
}
