//! A steady-state genetic algorithm for the 0/1 knapsack problem.
//!
//! A chromosome is a vector of genes, one per element of the catalog; a gene
//! that is `true` puts its element into the knapsack. Every generation ranks
//! the population, selects two parents, crosses them, may mutate the child and
//! puts it in the place of the weakest chromosome.

pub mod catalog;
pub mod crossover;
pub mod evolution;
pub mod fitness;
pub mod mutation;
pub mod population;
pub mod random;
pub mod ranking;
pub mod replacement;
pub mod selection;
