use evo::{ActivationFunction, ActivatorGenome, Create, Crossover, Extract, Gene, Generate};

#[test]
fn sequence_crossover_keeps_longer_tail() {
    let short = vec![true, true];
    let long = vec![true, true, false, true, false];
    let child = short.crossover(&long);
    assert_eq!(child, vec![true, true, false, true, false]);
    let child = long.crossover(&short);
    assert_eq!(child, vec![true, true, false, true, false]);
}

#[test]
fn sequence_crossover_length_is_the_longer() {
    let a = vec![Gene::Linear; 3];
    let b = vec![Gene::Sigmoid; 7];
    assert_eq!(a.crossover(&b).len(), 7);
    assert_eq!(b.crossover(&a).len(), 7);
    let empty: Vec<Gene> = vec![];
    assert_eq!(empty.crossover(&empty).len(), 0);
    assert_eq!(empty.crossover(&a), a);
}

#[test]
fn sequence_crossover_picks_from_parents() {
    let a = vec![true, false, true, false];
    let b = vec![false, false, true, true];
    for _ in 0..50 {
        let child = a.crossover(&b);
        assert_eq!(child.len(), 4);
        assert!(!child[1]);
        assert!(child[2]);
    }
}

#[test]
fn bool_crossover_picks_each_parent_sometimes() {
    let mut seen_true = false;
    let mut seen_false = false;
    for _ in 0..200 {
        if true.crossover(&false) {
            seen_true = true;
        } else {
            seen_false = true;
        }
    }
    assert!(seen_true && seen_false);
}

#[test]
fn gene_crossover_of_equal_genes() {
    assert_eq!(Gene::Linear.crossover(&Gene::Linear), Gene::Linear);
    assert_eq!(Gene::Sigmoid.crossover(&Gene::Sigmoid), Gene::Sigmoid);
    let g = Gene::Linear.crossover(&Gene::Sigmoid);
    assert!(g == Gene::Linear || g == Gene::Sigmoid);
}

#[test]
fn activator_genome_create_and_extract() {
    let genome = ActivatorGenome { activator: Gene::Linear };
    assert_eq!(genome.create(), ActivationFunction::linear());
    let genome = ActivatorGenome { activator: Gene::Sigmoid };
    assert_eq!(genome.create(), ActivationFunction::sigmoid());
    assert_eq!(ActivationFunction::sigmoid().genome(), genome);
    assert_eq!(ActivationFunction::linear().genome().activator, Gene::Linear);
}

#[test]
fn random_genes_cover_both_choices() {
    let mut linear = false;
    let mut sigmoid = false;
    for _ in 0..200 {
        match ActivatorGenome::generate(()).activator {
            Gene::Linear => linear = true,
            Gene::Sigmoid => sigmoid = true,
        }
    }
    assert!(linear && sigmoid);
}
