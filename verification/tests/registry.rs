use metrics_rs_dashboard_actix::code::{bits_of_code, code_of_bits};
use metrics_rs_dashboard_actix::naming::{rate_name, record_rate, tracker_key};
use metrics_rs_dashboard_actix::registry::{update_rate_tracker, RateRegistry};
use metrics_rs_dashboard_actix::sample::Rate;
use std::sync::Mutex;
use std::time::Duration;

const MILLI: u64 = 1_000_000;
const SECOND: u64 = 1_000_000_000;
const START: u64 = 5 * SECOND;

fn code(x: f64) -> u64 {
    code_of_bits(x.to_bits())
}

fn decode(code: u64) -> f64 {
    f64::from_bits(bits_of_code(code))
}

fn per_second(rate: Rate) -> f64 {
    match rate {
        Rate::Zero => 0.0,
        Rate::Rising { from, to, nanos } => {
            ((decode(to) - decode(from)) / Duration::from_nanos(nanos).as_secs_f64()).max(0.0)
        }
    }
}

#[test]
fn test_update_rate_tracker_function() {
    let mut registry = RateRegistry::new();
    let tracker_key = "test_metric_default".to_string();

    let rate1 = per_second(update_rate_tracker(
        &mut registry,
        "test_metric",
        code(10.0),
        START,
        tracker_key.clone(),
    ));
    assert_eq!(rate1, 0.0);

    let rate2 = per_second(update_rate_tracker(
        &mut registry,
        "test_metric",
        code(20.0),
        START + 200 * MILLI,
        tracker_key,
    ));
    assert!(rate2 >= 0.0);
    assert_eq!(rate2, 50.0);
}

#[test]
fn test_counter_with_rate_macro_simple() {
    let mut registry = RateRegistry::new();
    let gauge = record_rate(&mut registry, "test_counter", None, code(1.0), START);
    assert_eq!(gauge.name, "test_counter_rate_per_sec");
    assert_eq!(gauge.rate, Rate::Zero);
    assert_eq!(registry.rate("test_counter_default"), Some(Rate::Zero));
}

#[test]
fn test_counter_with_rate_macro_with_labels() {
    let mut registry = RateRegistry::new();
    let gauge =
        record_rate(&mut registry, "test_counter_labeled", Some(("service", "api")), code(2.0), START);
    assert_eq!(gauge.name, "test_counter_labeled_rate_per_sec");
    assert_eq!(gauge.rate, Rate::Zero);
    assert_eq!(registry.rate("test_counter_labeled_service_api"), Some(Rate::Zero));
    assert_eq!(registry.rate("test_counter_labeled_default"), None);
}

#[test]
fn test_absolute_counter_with_rate_macro_simple() {
    let mut registry = RateRegistry::new();
    let gauge = record_rate(&mut registry, "test_absolute_counter", None, code(42.0), START);
    assert_eq!(gauge.name, "test_absolute_counter_rate_per_sec");
    assert_eq!(per_second(gauge.rate), 0.0);
    assert_eq!(registry.len(), 1);
}

#[test]
fn test_absolute_counter_with_rate_macro_with_labels() {
    let mut registry = RateRegistry::new();
    let gauge = record_rate(
        &mut registry,
        "test_absolute_counter_labeled",
        Some(("type", "batch")),
        code(100.0),
        START,
    );
    assert_eq!(gauge.name, "test_absolute_counter_labeled_rate_per_sec");
    assert_eq!(per_second(gauge.rate), 0.0);
    assert_eq!(registry.rate("test_absolute_counter_labeled_type_batch"), Some(Rate::Zero));
}

#[test]
fn test_multiple_rate_tracker_instances() {
    let mut registry = RateRegistry::new();
    let key1 = "metric1_default".to_string();
    let key2 = "metric2_default".to_string();

    update_rate_tracker(&mut registry, "metric1", code(10.0), START, key1.clone());
    update_rate_tracker(&mut registry, "metric2", code(20.0), START, key2.clone());

    let later = START + 200 * MILLI;
    let rate1 = per_second(update_rate_tracker(&mut registry, "metric1", code(15.0), later, key1));
    let rate2 = per_second(update_rate_tracker(&mut registry, "metric2", code(30.0), later, key2));

    assert!(rate1 >= 0.0);
    assert!(rate2 >= 0.0);
    assert!(rate1 > 0.0 && rate2 > 0.0);
    assert!(
        (rate2 / rate1 - 2.0).abs() < 0.5,
        "Rate2 ({}) should be approximately twice rate1 ({})",
        rate2,
        rate1
    );
    assert_eq!(rate1, 25.0);
    assert_eq!(rate2, 50.0);
}

#[test]
fn test_update_rate_tracker_concurrent_access() {
    // Five callers share the registry behind a lock, each with a key of its own, and take
    // their turns in any order.
    let registry = Mutex::new(RateRegistry::new());
    for i in [3, 0, 4, 1, 2] {
        let tracker_key = format!("concurrent_test_{}", i);
        update_rate_tracker(
            &mut registry.lock().unwrap(),
            "concurrent_metric",
            code(10.0),
            START + i,
            tracker_key,
        );
    }
    for i in [1, 4, 2, 0, 3] {
        let tracker_key = format!("concurrent_test_{}", i);
        let rate = per_second(update_rate_tracker(
            &mut registry.lock().unwrap(),
            "concurrent_metric",
            code(20.0),
            START + i + 200 * MILLI,
            tracker_key,
        ));
        assert!(rate >= 0.0);
        assert_eq!(rate, 50.0);
    }
    assert_eq!(registry.lock().unwrap().len(), 5);
}

#[test]
fn same_key_from_many_callers_loses_no_sample() {
    let registry = Mutex::new(RateRegistry::new());
    for k in 0..20u64 {
        for caller in 0..8u64 {
            registry.lock().unwrap().update("shared".to_string(), k * 8 + caller, START + k * 8 + caller);
        }
    }
    let mut registry = registry.lock().unwrap();
    // 160 samples are in: the next one reads the rate from the first of them.
    assert_eq!(
        registry.update("shared".to_string(), 160, START + 160),
        Rate::Rising { from: 0, to: 160, nanos: 160 }
    );
    assert_eq!(registry.len(), 1);
}

#[test]
fn first_update_of_every_key_reads_zero() {
    let mut registry = RateRegistry::new();
    for i in 0..50u64 {
        let key = format!("key_{}", i);
        assert_eq!(registry.rate(&key), None);
        assert_eq!(registry.update(key.clone(), 1000 + i, START + i), Rate::Zero);
        assert_eq!(registry.rate(&key), Some(Rate::Zero));
        assert_eq!(registry.len() as u64, i + 1);
    }
}

#[test]
fn updating_one_key_leaves_the_others() {
    let mut registry = RateRegistry::new();
    registry.update("a".to_string(), 10, START);
    registry.update("a".to_string(), 20, START + SECOND);
    let rate_a = registry.rate("a");
    assert_eq!(rate_a, Some(Rate::Rising { from: 10, to: 20, nanos: SECOND }));

    registry.update("b".to_string(), 500, START + SECOND);
    assert_eq!(registry.rate("a"), rate_a);
    let rate_b = registry.update("b".to_string(), 100, START + SECOND + MILLI);
    assert_eq!(rate_b, Rate::Zero);
    assert_eq!(registry.rate("a"), rate_a);
    registry.update("ab".to_string(), 1, START + 5 * SECOND);
    assert_eq!(registry.rate("a"), rate_a);
    assert_eq!(registry.rate("ab"), Some(Rate::Zero));
    assert_eq!(registry.rate("c"), None);
    assert_eq!(registry.len(), 3);
}

#[test]
fn labels_have_trackers_of_their_own() {
    let mut registry = RateRegistry::new();
    record_rate(&mut registry, "requests", Some(("endpoint", "/a")), 10, START);
    record_rate(&mut registry, "requests", Some(("endpoint", "/b")), 10, START);
    record_rate(&mut registry, "requests", None, 10, START);
    let a = record_rate(&mut registry, "requests", Some(("endpoint", "/a")), 15, START + SECOND);
    let b = record_rate(&mut registry, "requests", Some(("endpoint", "/b")), 20, START + SECOND);
    assert_eq!(a.rate, Rate::Rising { from: 10, to: 15, nanos: SECOND });
    assert_eq!(b.rate, Rate::Rising { from: 10, to: 20, nanos: SECOND });
    assert_eq!(a.name, "requests_rate_per_sec");
    assert_eq!(b.name, "requests_rate_per_sec");
    assert_eq!(registry.len(), 3);
}

#[test]
fn registry_trackers_have_the_default_limits() {
    let mut registry = RateRegistry::new();
    for i in 0..300u64 {
        registry.update("k".to_string(), i, START + i);
    }
    // 200 samples are kept: the oldest is the 101st.
    assert_eq!(registry.rate("k"), Some(Rate::Rising { from: 100, to: 299, nanos: 199 }));
    // Two seconds after the last of them it alone is left of them.
    assert_eq!(
        registry.update("k".to_string(), 300, START + 299 + 2 * SECOND),
        Rate::Rising { from: 299, to: 300, nanos: 2 * SECOND }
    );
    // A nanosecond later all of them have aged out.
    assert_eq!(
        registry.update("k".to_string(), 301, START + 300 + 2 * SECOND),
        Rate::Rising { from: 300, to: 301, nanos: 1 }
    );
}

#[test]
fn tracker_keys_and_gauge_names() {
    assert_eq!(tracker_key("requests_total", None), "requests_total_default");
    assert_eq!(
        tracker_key("requests_total", Some(("endpoint", "/api/users"))),
        "requests_total_endpoint_/api/users"
    );
    assert_eq!(tracker_key("", None), "_default");
    assert_eq!(tracker_key("m", Some(("", ""))), "m__");
    assert_eq!(rate_name("requests_total"), "requests_total_rate_per_sec");
    assert_eq!(rate_name(""), "_rate_per_sec");
}

#[test]
fn key_in_a_registry_reads_as_a_tracker_of_its_own() {
    let keys = ["a", "b", "c"];
    let mut registry = RateRegistry::new();
    let mut alone: Vec<metrics_rs_dashboard_actix::tracker::RateTracker> = keys
        .iter()
        .map(|_| metrics_rs_dashboard_actix::tracker::RateTracker::new())
        .collect();
    let mut now = START;
    for i in 0..2000u64 {
        now += (i * 7919) % (30 * MILLI);
        let which = ((i * 31) % 7 % 3) as usize;
        let value = i * (which as u64 + 1);
        let shared = registry.update(keys[which].to_string(), value, now);
        let own = alone[which].update(value, now);
        assert_eq!(shared, own);
        for (k, key) in keys.iter().enumerate() {
            if alone[k].is_empty() {
                assert_eq!(registry.rate(key), None);
            } else {
                assert_eq!(registry.rate(key), Some(alone[k].rate()));
                assert!(alone[k].len() <= 200);
            }
        }
    }
}
