use crate::crossover::{Create, Crossover, Extract, Generate};
use crate::random::{coin_flip, random_below};
use vstd::prelude::*;

verus! {

/// The identity activation.
#[derive(Clone, Copy, Debug, PartialEq, Eq, Structural)]
pub struct Linear;

/// The logistic activation.
#[derive(Clone, Copy, Debug, PartialEq, Eq, Structural)]
pub struct Sigmoid;

/// The activation function of a neuron.
#[derive(Clone, Copy, Debug, PartialEq, Eq, Structural)]
pub enum Function {
    Linear(Linear),
    Sigmoid(Sigmoid),
}

impl Function {
    /// The identity activation.
    pub fn linear() -> (r: Self)
        ensures
            r == Function::Linear(Linear),
    {
        Function::Linear(Linear)
    }

    /// The logistic activation.
    pub fn sigmoid() -> (r: Self)
        ensures
            r == Function::Sigmoid(Sigmoid),
    {
        Function::Sigmoid(Sigmoid)
    }
}

/// The closed choice of activation carried by a neuron's genome.
#[derive(Clone, Copy, Debug, PartialEq, Eq, Structural)]
pub enum Gene {
    Linear,
    Sigmoid,
}

impl Gene {
    /// Draws a gene uniformly among the two choices.
    pub fn random() -> Self {
        if random_below(2) == 0 {
            Gene::Linear
        } else {
            Gene::Sigmoid
        }
    }
}

impl Crossover for Gene {
    /// Equal parents give their common gene; otherwise one parent's gene is
    /// picked by a coin flip.
    fn crossover(&self, other: &Self) -> (r: Self)
        ensures
            r == *self || r == *other,
    {
        match (self, other) {
            (Gene::Linear, Gene::Linear) => Gene::Linear,
            (Gene::Sigmoid, Gene::Sigmoid) => Gene::Sigmoid,
            _ => {
                if coin_flip() {
                    *self
                } else {
                    *other
                }
            },
        }
    }
}

/// The genome of a neuron's activation.
#[derive(Clone, Copy, Debug, PartialEq, Eq, Structural)]
pub struct Genome {
    pub activator: Gene,
}

impl Generate<()> for Genome {
    /// A genome with a random gene.
    fn generate(config: ()) -> Self {
        Genome { activator: Gene::random() }
    }
}

impl Crossover for Genome {
    fn crossover(&self, other: &Self) -> (r: Self)
        ensures
            r == *self || r == *other,
    {
        Genome { activator: self.activator.crossover(&other.activator) }
    }
}

/// The activation function that a gene encodes.
pub open spec fn function_of(gene: Gene) -> Function {
    match gene {
        Gene::Linear => Function::Linear(Linear),
        Gene::Sigmoid => Function::Sigmoid(Sigmoid),
    }
}

impl Create<Function> for Genome {
    fn create(&self) -> (r: Function)
        ensures
            r == function_of(self.activator),
    {
        match self.activator {
            Gene::Linear => Function::linear(),
            Gene::Sigmoid => Function::sigmoid(),
        }
    }
}

impl Extract<Genome> for Function {
    fn genome(&self) -> (r: Genome)
        ensures
            function_of(r.activator) == *self,
    {
        let activator = match self {
            Function::Linear(_) => Gene::Linear,
            Function::Sigmoid(_) => Gene::Sigmoid,
        };
        Genome { activator }
    }
}

} // verus!
