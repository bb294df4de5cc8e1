use crate::crossover::Generate;
use crate::generation::Generation;
use vstd::prelude::*;

verus! {

/// A source of fresh genomes.
pub trait Stock<G> {
    fn generate(&self) -> G;

    /// A generation of `generation_size` fresh genomes.
    fn stock(&self, generation_size: usize) -> (r: Generation<G>)
        ensures
            r@.len() == generation_size,
            forall|i: int| 0 <= i < r@.len() ==> call_ensures(Self::generate, (self,), #[trigger] r@[i]),
    {
        let mut output: Vec<G> = Vec::new();
        while output.len() < generation_size
            invariant
                output@.len() <= generation_size,
                forall|i: int|
                    0 <= i < output@.len() ==> call_ensures(Self::generate, (self,), #[trigger] output@[i]),
            decreases generation_size - output@.len(),
        {
            let g = self.generate();
            let ghost before = output@;
            output.push(g);
            assert(forall|i: int| 0 <= i < before.len() ==> output@[i] == before[i]);
        }
        output
    }
}

/// Generates genomes from a base configuration.
pub struct Stocker<TConfig, TGenome> {
    _phantom: core::marker::PhantomData<TGenome>,
    base_config: TConfig,
}

impl<TConfig, TGenome> Stocker<TConfig, TGenome> {
    /// The configuration that each genome is generated from.
    pub closed spec fn base_config(&self) -> TConfig {
        self.base_config
    }

    pub fn new(base_config: TConfig) -> (r: Self)
        ensures
            r.base_config() == base_config,
    {
        Stocker { _phantom: core::marker::PhantomData, base_config }
    }
}

impl<TConfig, TGenome: for<'a> Generate<&'a TConfig>> Stock<TGenome> for Stocker<TConfig, TGenome> {
    fn generate(&self) -> (r: TGenome)
        ensures
            call_ensures(TGenome::generate, (&self.base_config(),), r),
    {
        TGenome::generate(&self.base_config)
    }
}

} // verus!
