//! What the setup of the recorders is given, and how it can fail.

use vstd::prelude::*;
use vstd::string::StringExecFns;

verus! {

/// How a rule picks the metrics that it is for, by their names.
#[derive(Clone, Debug)]
pub enum Matcher {
    /// The metric with this name.
    Full(String),
    /// The metrics whose names begin with this.
    Prefix(String),
    /// The metrics whose names end with this.
    Suffix(String),
}

/// The options of the dashboard.
#[derive(Clone, Debug)]
pub struct DashboardInput {
    /// The histogram buckets of the metrics that a matcher picks: the upper
    /// bounds of the buckets, each as the order-preserving code of its number.
    pub buckets_for_metrics: Vec<(Matcher, Vec<u64>)>,
}

impl Default for DashboardInput {
    /// The options that set no buckets.
    fn default() -> (input: Self)
        ensures
            input.buckets_for_metrics@.len() == 0,
    {
        DashboardInput { buckets_for_metrics: Vec::new() }
    }
}

/// The seconds between two runs of the recorder's upkeep.
pub const UPKEEP_INTERVAL_SECS: u64 = 30;

/// Why the setup of the recorders failed. Each error carries what the part
/// that refused had to say.
#[derive(Clone, Debug)]
pub enum ConfigError {
    /// The recorder refused the buckets of a metric.
    Buckets(String),
    /// The handle of the recorder was already set.
    Handle(String),
    /// A global recorder was already registered.
    Recorder(String),
    /// The recorder's upkeep could not be started.
    Upkeep(String),
}

impl ConfigError {
    /// The text of the error.
    pub open spec fn text(self) -> Seq<char> {
        match self {
            ConfigError::Buckets(detail) => "Failed to set buckets for metric: "@ + detail@,
            ConfigError::Handle(detail) => "Unable to set Prometheus handle: "@ + detail@,
            ConfigError::Recorder(detail) => "Unable to register a recorder: "@ + detail@
                + ". Did you call this function multiple times?"@,
            ConfigError::Upkeep(detail) => "Unable to start the upkeep of the recorder: "@
                + detail@,
        }
    }

    /// The text of the error, for whoever reads the log.
    pub fn message(&self) -> (message: String)
        ensures
            message@ == self.text(),
    {
        match self {
            ConfigError::Buckets(detail) => {
                let mut message = String::from_str("Failed to set buckets for metric: ");
                message.append(detail.as_str());
                message
            },
            ConfigError::Handle(detail) => {
                let mut message = String::from_str("Unable to set Prometheus handle: ");
                message.append(detail.as_str());
                message
            },
            ConfigError::Recorder(detail) => {
                let mut message = String::from_str("Unable to register a recorder: ");
                message.append(detail.as_str());
                message.append(". Did you call this function multiple times?");
                message
            },
            ConfigError::Upkeep(detail) => {
                let mut message = String::from_str("Unable to start the upkeep of the recorder: ");
                message.append(detail.as_str());
                message
            },
        }
    }
}

} // verus!
