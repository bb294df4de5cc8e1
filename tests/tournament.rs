use evo::{tournament_winner, CompareRecord, Tournament};

#[derive(Debug, PartialEq)]
struct Predictor {
    value: f64,
}

fn record(fitness: f64, value: f64) -> CompareRecord<Predictor> {
    CompareRecord {
        fitness: fitness.to_bits(),
        predict: Predictor { value },
    }
}

#[test]
fn test_tournament_selection() {
    let candidates = vec![record(1.0, 1.0), record(3.0, 3.0), record(2.0, 2.0)];

    let tournament = Tournament::new(candidates.len());

    let result = tournament.select(&candidates);

    assert_eq!(result, Some(&record(1.0, 1.0)));
}

#[test]
fn test_tournament_selection_with_tournament_size() {
    let candidates = vec![record(1.0, 1.0), record(3.0, 3.0), record(2.0, 2.0)];

    let tournament = Tournament::new(2);

    let result = tournament.select(&candidates);

    assert_ne!(result, Some(&record(3.0, 3.0)));
}

#[test]
fn test_tournament_size() {
    let candidates = vec![record(1.0, 1.0), record(3.0, 3.0), record(2.0, 2.0)];

    let tournament = Tournament::new(2);

    let result = tournament.tournament_size(&candidates);

    assert_eq!(result, 2);
}

#[test]
fn full_tournament_always_returns_the_best() {
    let candidates = vec![
        record(0.5, 1.0),
        record(0.25, 2.0),
        record(4.0, 3.0),
        record(0.3, 4.0),
    ];
    let tournament = Tournament::new(10);
    for _ in 0..100 {
        assert_eq!(tournament.select(&candidates), Some(&record(0.25, 2.0)));
    }
}

#[test]
fn empty_pool_or_zero_size_selects_nothing() {
    let empty: Vec<CompareRecord<Predictor>> = vec![];
    assert_eq!(Tournament::new(3).select(&empty), None);
    let candidates = vec![record(1.0, 1.0)];
    assert_eq!(Tournament::new(0).select(&candidates), None);
    assert_eq!(Tournament::new(5).tournament_size(&candidates), 1);
}

#[test]
fn single_draws_reach_every_candidate() {
    let candidates = vec![record(1.0, 1.0), record(3.0, 3.0), record(2.0, 2.0)];
    let tournament = Tournament::new(1);
    let mut seen = [false; 3];
    for _ in 0..300 {
        let chosen = tournament.select(&candidates).unwrap();
        let index = candidates.iter().position(|c| c == chosen).unwrap();
        seen[index] = true;
    }
    assert!(seen.iter().all(|s| *s));
}

#[test]
fn winner_is_first_lowest_in_sample_order() {
    let candidates = vec![record(2.0, 0.0), record(1.0, 1.0), record(1.0, 2.0), record(3.0, 3.0)];
    assert_eq!(tournament_winner(&candidates, &[3, 2, 1, 0]), Some(2));
    assert_eq!(tournament_winner(&candidates, &[1, 2]), Some(1));
    assert_eq!(tournament_winner(&candidates, &[3, 0]), Some(0));
    assert_eq!(tournament_winner(&candidates, &[]), None);
}
