use dogstatsd_utils::analysis::MetricWeights;
use dogstatsd_utils::generate::{check_generate_args, metric_weights_for, DSDGenerateError};

#[test]
fn count_and_rate_together_are_refused() {
    assert_eq!(check_generate_args(Some(10), true), Err(DSDGenerateError::InvalidArgs));
    assert_eq!(check_generate_args(Some(10), false), Ok(()));
    assert_eq!(check_generate_args(None, true), Ok(()));
    assert_eq!(check_generate_args(None, false), Ok(()));
}

#[test]
fn named_metric_types_get_weight_one() {
    assert_eq!(metric_weights_for(&vec!["c", "gauge"]), MetricWeights::new(1, 1, 0, 0, 0, 0));
    assert_eq!(metric_weights_for(&vec!["sketch", "t", "s"]), MetricWeights::new(0, 0, 1, 1, 1, 0));
    assert_eq!(metric_weights_for(&vec!["histogram", "bogus"]), MetricWeights::new(0, 0, 0, 0, 0, 1));
    assert_eq!(metric_weights_for(&vec![]), MetricWeights::new(0, 0, 0, 0, 0, 0));
}
