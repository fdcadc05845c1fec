//! The names under which rates are tracked and published.

use crate::registry::{observe_at, RateRegistry};
use crate::sample::{two_point, Rate, Sample};
use vstd::prelude::*;
use vstd::string::StringExecFns;

verus! {

/// The key of a metric's tracker: the metric's name, then `_default` where the
/// metric has no label, else `_`, the label's key, `_` and the label's value.
pub open spec fn tracker_key_of(name: Seq<char>, label: Option<(Seq<char>, Seq<char>)>) -> Seq<
    char,
> {
    match label {
        None => name + "_default"@,
        Some((key, value)) => name + "_"@ + key + "_"@ + value,
    }
}

/// The name of the gauge that a counter's rate is published under: the
/// counter's name, then `_rate_per_sec`.
pub open spec fn rate_name_of(name: Seq<char>) -> Seq<char> {
    name + "_rate_per_sec"@
}

/// A label as the specifications see it.
pub open spec fn label_view(label: Option<(&str, &str)>) -> Option<(Seq<char>, Seq<char>)> {
    match label {
        None => None,
        Some((key, value)) => Some((key@, value@)),
    }
}

/// The key of the tracker of the metric `name` with the label `label`.
pub fn tracker_key(name: &str, label: Option<(&str, &str)>) -> (key: String)
    ensures
        key@ == tracker_key_of(name@, label_view(label)),
{
    let mut key = String::from_str(name);
    match label {
        None => {
            key.append("_default");
        },
        Some((label_key, label_value)) => {
            key.append("_");
            key.append(label_key);
            key.append("_");
            key.append(label_value);
        },
    }
    key
}

/// The name of the gauge for the rate of the counter `name`.
pub fn rate_name(name: &str) -> (gauge: String)
    ensures
        gauge@ == rate_name_of(name@),
{
    let mut gauge = String::from_str(name);
    gauge.append("_rate_per_sec");
    gauge
}

/// A rate to publish: the gauge's name and the rate. The gauge carries the
/// label of the counter that the rate was taken from.
#[derive(Debug)]
pub struct RateGauge {
    pub name: String,
    pub rate: Rate,
}

/// Records the reading `value` of the counter `name` with the label `label`,
/// taken at `now`, under the counter's tracker key, and returns the gauge to
/// publish its rate under.
pub fn record_rate(
    registry: &mut RateRegistry,
    name: &str,
    label: Option<(&str, &str)>,
    value: u64,
    now: u64,
) -> (gauge: RateGauge)
    requires
        old(registry).wf(),
    ensures
        final(registry).wf(),
        final(registry)@ == observe_at(
            old(registry)@,
            tracker_key_of(name@, label_view(label)),
            Sample { value, at: now },
        ),
        gauge.name@ == rate_name_of(name@),
        gauge.rate == two_point(final(registry)@[tracker_key_of(name@, label_view(label))]),
        gauge.rate.wf(),
{
    let key = tracker_key(name, label);
    let rate = registry.update(key, value, now);
    RateGauge { name: rate_name(name), rate }
}

} // verus!
