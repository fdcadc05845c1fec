//! Samples of a counter, the rate read off a window of them, and the
//! mathematical model of the sliding window.

use vstd::prelude::*;

verus! {

/// One observed reading of a counter.
///
/// `value` is an order-preserving code of the reading: a smaller reading has a
/// smaller code. The library compares codes and never does arithmetic on them,
/// so a caller is free to report whole counts as they are, or floating-point
/// numbers through the code of the module `code`. Readings that are equal as
/// numbers may differ in their codes, as the two zeros of a float do. `at` is
/// the time of the observation, in nanoseconds of a monotonic clock.
#[derive(Clone, Copy, Debug, PartialEq, Eq, Structural)]
pub struct Sample {
    pub value: u64,
    pub at: u64,
}

/// What a window of samples says about the rate of its counter.
///
/// `Zero` is a rate of exactly zero. `Rising` is the rate of a counter that
/// went from the reading coded `from` to the reading with the greater code
/// `to` in `nanos` nanoseconds: the difference of the two readings, which is
/// not negative, divided by that time.
#[derive(Clone, Copy, Debug, PartialEq, Eq, Structural)]
pub enum Rate {
    Zero,
    Rising { from: u64, to: u64, nanos: u64 },
}

/// Whether a sample taken at `at` is no older than `window` nanoseconds at the
/// time `now`. A sample that is exactly `window` old is still recent.
pub open spec fn is_recent(at: int, now: int, window: int) -> bool {
    at + window >= now
}

/// The predicate that `retain_recent` keeps samples by.
pub open spec fn recent_at(now: int, window: int) -> spec_fn(Sample) -> bool {
    |s: Sample| is_recent(s.at as int, now, window)
}

/// The samples that are no older than `window` at `now`, in their order.
pub open spec fn retain_recent(samples: Seq<Sample>, now: int, window: int) -> Seq<Sample> {
    samples.filter(recent_at(now, window))
}

/// The newest `max` samples, or all of them where there are no more than that.
pub open spec fn keep_newest(samples: Seq<Sample>, max: int) -> Seq<Sample> {
    if samples.len() > max {
        samples.skip(samples.len() - max)
    } else {
        samples
    }
}

/// The window after `sample` has been observed: the sample is appended, then
/// whatever has aged out at the sample's time is dropped, then the oldest
/// samples beyond `max`.
pub open spec fn observe(samples: Seq<Sample>, sample: Sample, window: int, max: int) -> Seq<
    Sample,
> {
    keep_newest(retain_recent(samples.push(sample), sample.at as int, window), max)
}

/// The rate between an earlier sample `a` and a later sample `b`: zero unless
/// both the time and the reading have moved forward.
pub open spec fn slope(a: Sample, b: Sample) -> Rate {
    if b.at > a.at && b.value > a.value {
        Rate::Rising { from: a.value, to: b.value, nanos: (b.at - a.at) as u64 }
    } else {
        Rate::Zero
    }
}

/// The rate of a window: the slope from its oldest to its newest sample, and
/// zero while it holds fewer than two.
pub open spec fn two_point(samples: Seq<Sample>) -> Rate {
    if samples.len() < 2 {
        Rate::Zero
    } else {
        slope(samples.first(), samples.last())
    }
}

impl Rate {
    /// A rising rate spans a positive time and goes to a greater reading.
    pub open spec fn wf(self) -> bool {
        self matches Rate::Rising { from, to, nanos } ==> from < to && nanos > 0
    }

    pub fn is_zero(&self) -> (r: bool)
        ensures
            r == (*self is Zero),
    {
        match self {
            Rate::Zero => true,
            Rate::Rising { .. } => false,
        }
    }
}

impl Sample {
    /// Whether this sample is no older than `window` nanoseconds at `now`.
    pub fn is_recent(&self, now: u64, window: u64) -> (r: bool)
        ensures
            r == is_recent(self.at as int, now as int, window as int),
    {
        if self.at >= now {
            true
        } else {
            now - self.at <= window
        }
    }

    /// The rate from this sample to the sample `later`.
    pub fn slope_to(&self, later: &Sample) -> (r: Rate)
        ensures
            r == slope(*self, *later),
            r.wf(),
    {
        if later.at > self.at && later.value > self.value {
            Rate::Rising { from: self.value, to: later.value, nanos: later.at - self.at }
        } else {
            Rate::Zero
        }
    }
}

} // verus!
