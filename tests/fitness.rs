use evo::fitness::checked_quotient;
use evo::{best_entity, Compare, CompareRecord, FitnessCheck, FitnessError};
use std::cmp::Ordering;

struct TrainingRecord {
    input: Vec<f64>,
    output: Vec<f64>,
}

/// Mean squared error over the records, checked as the library classifies quotients.
struct Calc {
    training_data: Vec<TrainingRecord>,
}

trait Predict {
    fn predict(&self, input: &[f64]) -> Vec<f64>;
}

impl<P: Predict> FitnessCheck<P> for Calc {
    fn check(&self, predict: &P) -> Result<u64, FitnessError> {
        let mut sum = 0.0;
        for record in &self.training_data {
            let actual = predict.predict(&record.input);
            let errors: Vec<f64> = record
                .output
                .iter()
                .zip(actual.iter())
                .map(|(e, a)| (e - a).powi(2))
                .collect();
            let quotient = errors.iter().sum::<f64>() / errors.len() as f64;
            sum += f64::from_bits(checked_quotient(quotient.to_bits())?);
        }
        checked_quotient((sum / self.training_data.len() as f64).to_bits())
    }
}

#[derive(PartialOrd, PartialEq, Debug)]
struct Predictor(f64);

impl Predict for Predictor {
    fn predict(&self, input: &[f64]) -> Vec<f64> {
        input.iter().map(|x| x * self.0).collect()
    }
}

struct Comparator;

impl Compare<Predictor> for Comparator {
    fn compare(&self, left: &CompareRecord<&Predictor>, right: &CompareRecord<&Predictor>) -> Ordering {
        left.fitness.cmp(&right.fitness)
    }
}

struct BadComparator;

impl Compare<Predictor> for BadComparator {
    fn compare(&self, _left: &CompareRecord<&Predictor>, _right: &CompareRecord<&Predictor>) -> Ordering {
        Ordering::Equal
    }
}

fn zero_calc() -> Calc {
    Calc {
        training_data: vec![TrainingRecord {
            input: vec![0.0, 0.0],
            output: vec![0.0],
        }],
    }
}

#[test]
fn mod_test_fitness_calc_best_entity() {
    let best = best_entity(&zero_calc(), &[Predictor(1.0)], &Comparator);
    assert_eq!(best, Ok(Some(&Predictor(1.0))));
}

#[test]
fn calc_test_fitness_calc_best_entity() {
    let actual = best_entity(&zero_calc(), &[Predictor(1.0), Predictor(2.0)], &Comparator);
    assert_eq!(actual, Ok(Some(&Predictor(1.0))));
}

#[test]
fn test_fitness_calc_best_entity_no_entities() {
    let best = best_entity(&zero_calc(), &[], &Comparator);
    assert_eq!(best, Ok(None));
}

#[test]
fn test_fitness_calc_best_entity_error2() {
    let best = best_entity(&zero_calc(), &[Predictor(f64::NAN)], &BadComparator);
    assert_eq!(best, Err(FitnessError::ResultNaN));
}

#[test]
fn test_fitness_calc_best_entity_error3() {
    let best = best_entity(&zero_calc(), &[Predictor(f64::INFINITY)], &BadComparator);
    assert_eq!(best, Err(FitnessError::ResultNaN));
}

#[test]
fn compare() {
    struct Unit;
    struct UnitComparator;
    impl Compare<Unit> for UnitComparator {
        fn compare(&self, left: &CompareRecord<&Unit>, right: &CompareRecord<&Unit>) -> Ordering {
            f64::from_bits(left.fitness).partial_cmp(&f64::from_bits(right.fitness)).unwrap()
        }
    }

    let left = CompareRecord {
        fitness: 0.0f64.to_bits(),
        predict: &Unit,
    };
    let right = CompareRecord {
        fitness: 1.0f64.to_bits(),
        predict: &Unit,
    };

    assert_eq!(UnitComparator.compare(&left, &right), Ordering::Less);
}

#[test]
fn best_entity_picks_lowest_fitness() {
    let calc = Calc {
        training_data: vec![TrainingRecord {
            input: vec![1.0],
            output: vec![2.0],
        }],
    };
    let entities = [Predictor(0.0), Predictor(1.5), Predictor(3.0), Predictor(1.5)];
    assert_eq!(best_entity(&calc, &entities, &Comparator), Ok(Some(&entities[1])));
    assert!(std::ptr::eq(best_entity(&calc, &entities, &Comparator).unwrap().unwrap(), &entities[1]));
}

#[test]
fn best_entity_fails_when_one_candidate_fails() {
    let entities = [Predictor(1.0), Predictor(f64::NAN), Predictor(0.0)];
    assert_eq!(best_entity(&zero_calc(), &entities, &Comparator), Err(FitnessError::ResultNaN));
}

#[test]
fn zero_error_gives_zero_fitness() {
    assert_eq!(zero_calc().check(&Predictor(0.0)), Ok(0));
    assert_eq!(f64::from_bits(zero_calc().check(&Predictor(5.0)).unwrap()), 0.0);
}

#[test]
fn quotient_classification() {
    assert_eq!(checked_quotient(0.0f64.to_bits()), Ok(0));
    assert_eq!(checked_quotient((-0.0f64).to_bits()), Ok(0));
    assert_eq!(checked_quotient(2.5f64.to_bits()), Ok(2.5f64.to_bits()));
    assert_eq!(checked_quotient(f64::NAN.to_bits()), Err(FitnessError::ResultNaN));
    assert_eq!(checked_quotient((0.0f64 / 0.0).to_bits()), Err(FitnessError::ResultNaN));
    assert_eq!(checked_quotient(f64::INFINITY.to_bits()), Err(FitnessError::ResultInfinite));
    assert_eq!(checked_quotient(f64::NEG_INFINITY.to_bits()), Err(FitnessError::ResultInfinite));
    assert_eq!(checked_quotient((1.0f64 / 0.0).to_bits()), Err(FitnessError::ResultInfinite));
}

#[test]
fn fitness_keys_order_like_values() {
    let values = [0.0f64, 1e-300, 0.1, 0.5, 1.0, 2.0, 1e300];
    for pair in values.windows(2) {
        assert!(checked_quotient(pair[0].to_bits()).unwrap() < checked_quotient(pair[1].to_bits()).unwrap());
    }
}

#[test]
fn error_messages() {
    assert_eq!(FitnessError::CannotConvert.message(), "cannot convert");
    assert_eq!(FitnessError::ResultNaN.message(), "result is NaN");
    assert_eq!(FitnessError::ResultInfinite.message(), "result is infinite");
}

#[test]
fn record_as_deref() {
    let record = CompareRecord {
        fitness: 3,
        predict: Predictor(2.0),
    };
    let borrowed = record.as_deref();
    assert_eq!(borrowed.fitness, 3);
    assert_eq!(borrowed.predict, &Predictor(2.0));
}

#[test]
fn best_entity_returns_the_first_failure() {
    struct Scripted;
    impl FitnessCheck<u8> for Scripted {
        fn check(&self, predict: &u8) -> Result<u64, FitnessError> {
            match predict {
                1 => Err(FitnessError::CannotConvert),
                2 => Err(FitnessError::ResultInfinite),
                n => Ok(u64::from(*n)),
            }
        }
    }
    struct ByFitness;
    impl Compare<u8> for ByFitness {
        fn compare(&self, left: &CompareRecord<&u8>, right: &CompareRecord<&u8>) -> Ordering {
            left.fitness.cmp(&right.fitness)
        }
    }
    assert_eq!(best_entity(&Scripted, &[0, 2, 1], &ByFitness), Err(FitnessError::ResultInfinite));
    assert_eq!(best_entity(&Scripted, &[5, 1, 2], &ByFitness), Err(FitnessError::CannotConvert));
    assert_eq!(best_entity(&Scripted, &[5, 3, 9, 3], &ByFitness), Ok(Some(&3)));
}
