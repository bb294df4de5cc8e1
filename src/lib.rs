//! Evolutionary optimisation engine: ranking by fitness, tournament selection,
//! breeding of hierarchical genomes and elitism-based generation replacement.
//!
//! Fitness enters the library as the bit pattern of a non-negative finite
//! mean squared error, whose order as an unsigned integer is the order of the
//! numbers; lower is better.

pub mod activation;
pub mod algorithm;
pub mod breed;
pub mod crossover;
pub mod fitness;
pub mod generation;
pub mod mutation;
mod random;
pub mod run;
pub mod stock;
pub mod tournament;

pub use activation::{
    Function, Function as ActivationFunction, Gene, Genome as ActivatorGenome, Linear, Sigmoid,
};
pub use algorithm::Algorithm;
pub use breed::{Breed, Manager, Manager as BreedManager};
pub use crossover::{Create, Crossover, Extract, Generate};
pub use fitness::{best_entity, Compare, CompareRecord, Error as FitnessError, FitnessCheck};
pub use generation::{
    genomes, genomes as inject_genomes, inject_at, partition_elite, rank_generation,
    sort_generation, unrank_generation, Generation,
};
pub use mutation::VecMutation;
pub use run::{Run, Run as EvoAlgorithm};
pub use stock::{Stock, Stocker};
pub use tournament::{tournament_winner, Tournament};
