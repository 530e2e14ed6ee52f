use cebra_efficiency::{EfficiencyError, ModelOrder, ParameterKind};

#[test]
fn model_orders_from_term_counts() {
    assert_eq!(ModelOrder::from_terms(1), Ok(ModelOrder::Single));
    assert_eq!(ModelOrder::from_terms(2), Ok(ModelOrder::Double));
    assert_eq!(ModelOrder::from_terms(0), Err(EfficiencyError::InvalidInput));
    assert_eq!(ModelOrder::from_terms(3), Err(EfficiencyError::InvalidInput));
}

#[test]
fn parameter_counts() {
    assert_eq!(ModelOrder::Single.terms(), 1);
    assert_eq!(ModelOrder::Single.parameter_count(), 2);
    assert_eq!(ModelOrder::Double.terms(), 2);
    assert_eq!(ModelOrder::Double.parameter_count(), 4);
}

#[test]
fn amplitudes_come_before_decay_scales() {
    let single = ModelOrder::Single;
    assert_eq!(single.parameter_index(0, ParameterKind::Amplitude), 0);
    assert_eq!(single.parameter_index(0, ParameterKind::Decay), 1);
    let double = ModelOrder::Double;
    assert_eq!(double.parameter_index(0, ParameterKind::Amplitude), 0);
    assert_eq!(double.parameter_index(1, ParameterKind::Amplitude), 1);
    assert_eq!(double.parameter_index(0, ParameterKind::Decay), 2);
    assert_eq!(double.parameter_index(1, ParameterKind::Decay), 3);
}

#[test]
fn covariance_entries_are_stored_row_after_row() {
    assert_eq!(ModelOrder::Single.covariance_index(1, 0), 2);
    assert_eq!(ModelOrder::Double.covariance_index(0, 3), 3);
    assert_eq!(ModelOrder::Double.covariance_index(2, 1), 9);
    assert_eq!(ModelOrder::Double.covariance_index(3, 3), 15);
}

#[test]
fn degrees_of_freedom_of_single_fit() {
    assert_eq!(ModelOrder::Single.degrees_of_freedom(5, 5, 5), Ok(3));
    assert_eq!(ModelOrder::Single.degrees_of_freedom(2, 2, 2), Ok(0));
}

#[test]
fn degrees_of_freedom_of_double_fit() {
    assert_eq!(ModelOrder::Double.degrees_of_freedom(6, 6, 6), Ok(2));
    assert_eq!(ModelOrder::Double.degrees_of_freedom(10, 10, 10), Ok(6));
}

#[test]
fn too_few_or_mismatched_observations_are_refused() {
    assert_eq!(ModelOrder::Double.degrees_of_freedom(3, 3, 3), Err(EfficiencyError::InvalidInput));
    assert_eq!(ModelOrder::Single.degrees_of_freedom(1, 1, 1), Err(EfficiencyError::InvalidInput));
    assert_eq!(ModelOrder::Single.degrees_of_freedom(5, 4, 5), Err(EfficiencyError::InvalidInput));
    assert_eq!(ModelOrder::Single.degrees_of_freedom(5, 5, 6), Err(EfficiencyError::InvalidInput));
}
