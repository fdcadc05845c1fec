use metrics_rs_dashboard_actix::code::code_of_bits;
use metrics_rs_dashboard_actix::setup::{ConfigError, DashboardInput, Matcher, UPKEEP_INTERVAL_SECS};

fn code(x: f64) -> u64 {
    code_of_bits(x.to_bits())
}

#[test]
fn test_dashboard_input_default() {
    let input = DashboardInput::default();
    assert!(input.buckets_for_metrics.is_empty());
}

#[test]
fn test_dashboard_input_with_buckets() {
    let buckets = &[code(1.0), code(5.0), code(10.0)];
    let input = DashboardInput {
        buckets_for_metrics: vec![(Matcher::Full("test_metric".to_string()), buckets.to_vec())],
    };

    assert_eq!(input.buckets_for_metrics.len(), 1);
    assert_eq!(input.buckets_for_metrics[0].1, buckets);
    assert!(matches!(&input.buckets_for_metrics[0].0, Matcher::Full(name) if name == "test_metric"));
}

#[test]
fn config_error_messages() {
    assert_eq!(
        ConfigError::Buckets("bucket bounds/quantiles cannot be empty".to_string()).message(),
        "Failed to set buckets for metric: bucket bounds/quantiles cannot be empty"
    );
    assert_eq!(
        ConfigError::Handle("# TYPE x counter".to_string()).message(),
        "Unable to set Prometheus handle: # TYPE x counter"
    );
    assert_eq!(
        ConfigError::Recorder("attempted to set a recorder after one was already set".to_string())
            .message(),
        "Unable to register a recorder: attempted to set a recorder after one was already set. \
         Did you call this function multiple times?"
    );
    assert_eq!(ConfigError::Handle(String::new()).message(), "Unable to set Prometheus handle: ");
    assert_eq!(
        ConfigError::Upkeep("there is no reactor running".to_string()).message(),
        "Unable to start the upkeep of the recorder: there is no reactor running"
    );
}

#[test]
fn upkeep_runs_every_thirty_seconds() {
    assert_eq!(UPKEEP_INTERVAL_SECS, 30);
}
