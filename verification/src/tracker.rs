//! The rate tracker of one key: a sliding window of samples, bounded in age
//! and in number.

use crate::laws::{lemma_observe_bounds, lemma_observe_newest};
use crate::sample::{is_recent, observe, recent_at, two_point, Rate, Sample};
use crate::smoothing::{pairwise_rates, Smoothed};
use vstd::prelude::*;

verus! {

/// The age beyond which a tracker made by `RateTracker::new` drops a sample:
/// two seconds, in nanoseconds.
pub const DEFAULT_WINDOW_NANOS: u64 = 2_000_000_000;

/// The most samples that a tracker made by `RateTracker::new` keeps.
pub const DEFAULT_MAX_SAMPLES: usize = 200;

/// How far a tracker has come.
#[derive(Clone, Copy, Debug, PartialEq, Eq, Structural)]
pub enum TrackerState {
    /// The window holds no sample.
    Empty,
    /// The window holds one sample: there is no rate to read yet.
    Warming,
    /// The window holds two samples or more.
    Active,
}

/// The state of a tracker with the window `samples`.
pub open spec fn state_of(samples: Seq<Sample>) -> TrackerState {
    if samples.len() == 0 {
        TrackerState::Empty
    } else if samples.len() == 1 {
        TrackerState::Warming
    } else {
        TrackerState::Active
    }
}

/// Turns the absolute readings of one counter into a rate.
///
/// The tracker keeps the readings of the recent past, oldest first, and reads
/// the rate off the oldest and the newest of them.
#[derive(Debug)]
pub struct RateTracker {
    samples: Vec<Sample>,
    window_nanos: u64,
    max_samples: usize,
}

impl View for RateTracker {
    type V = Seq<Sample>;

    /// The samples kept, oldest first.
    closed spec fn view(&self) -> Seq<Sample> {
        self.samples@
    }
}

impl RateTracker {
    /// The age, in nanoseconds, at which a sample leaves the window.
    pub closed spec fn window(&self) -> u64 {
        self.window_nanos
    }

    /// The most samples that the window keeps.
    pub closed spec fn capacity(&self) -> usize {
        self.max_samples
    }

    /// What holds of every tracker: it keeps no more samples than its capacity,
    /// and none of them is older than the window at the time of the newest
    /// one.
    #[verifier::type_invariant]
    pub open spec fn wf(&self) -> bool {
        &&& self@.len() <= self.capacity()
        &&& forall|i: int|
            0 <= i < self@.len() ==> is_recent(
                #[trigger] self@[i].at as int,
                self@.last().at as int,
                self.window() as int,
            )
    }

    /// A tracker with no samples, a window of two seconds and room for 200
    /// samples.
    pub fn new() -> (t: Self)
        ensures
            t@ == Seq::<Sample>::empty(),
            t.window() == DEFAULT_WINDOW_NANOS,
            t.capacity() == DEFAULT_MAX_SAMPLES,
            t.wf(),
    {
        RateTracker {
            samples: Vec::new(),
            window_nanos: DEFAULT_WINDOW_NANOS,
            max_samples: DEFAULT_MAX_SAMPLES,
        }
    }

    /// A tracker with no samples, a window of `window_nanos` nanoseconds and
    /// room for `max_samples` samples.
    pub fn with_limits(window_nanos: u64, max_samples: usize) -> (t: Self)
        ensures
            t@ == Seq::<Sample>::empty(),
            t.window() == window_nanos,
            t.capacity() == max_samples,
            t.wf(),
    {
        RateTracker { samples: Vec::new(), window_nanos, max_samples }
    }

    /// The number of samples kept.
    pub fn len(&self) -> (n: usize)
        ensures
            n == self@.len(),
            n <= self.capacity(),
    {
        proof {
            use_type_invariant(self);
        }
        self.samples.len()
    }

    /// Whether no sample is kept.
    pub fn is_empty(&self) -> (r: bool)
        ensures
            r == (self@.len() == 0),
    {
        self.samples.len() == 0
    }

    /// The sample at `index`, counted from the oldest, or `None` where the
    /// window has no such sample.
    pub fn sample(&self, index: usize) -> (s: Option<Sample>)
        ensures
            s == if index < self@.len() {
                Some(self@[index as int])
            } else {
                None
            },
    {
        if index < self.samples.len() {
            Some(self.samples[index])
        } else {
            None
        }
    }

    /// How far the tracker has come. Only an active tracker reads a rate other
    /// than zero.
    pub fn state(&self) -> (state: TrackerState)
        ensures
            state == state_of(self@),
            state != TrackerState::Active ==> two_point(self@) is Zero,
    {
        let n: usize = self.samples.len();
        if n == 0 {
            TrackerState::Empty
        } else if n == 1 {
            TrackerState::Warming
        } else {
            TrackerState::Active
        }
    }

    /// The age, in nanoseconds, at which a sample leaves the window.
    pub fn window_nanos(&self) -> (w: u64)
        ensures
            w == self.window(),
    {
        self.window_nanos
    }

    /// The most samples that the window keeps.
    pub fn max_samples(&self) -> (m: usize)
        ensures
            m == self.capacity(),
    {
        self.max_samples
    }

    /// The rate of the window as it stands, without a new sample.
    pub fn rate(&self) -> (rate: Rate)
        ensures
            rate == two_point(self@),
            rate.wf(),
    {
        let m: usize = self.samples.len();
        if m < 2 {
            Rate::Zero
        } else {
            self.samples[0].slope_to(&self.samples[m - 1])
        }
    }

    /// The smoothed reading of the window as it stands.
    pub fn smoothed(&self) -> (r: Smoothed)
        ensures
            r.reads(self@),
            r.wf(),
    {
        if self.samples.len() < 3 {
            Smoothed::TwoPoint(self.rate())
        } else {
            Smoothed::Pairwise(pairwise_rates(&self.samples))
        }
    }

    /// Records the reading `value` taken at the time `now`, as `update` does,
    /// and returns the smoothed reading of the window that is left.
    pub fn update_smoothed(&mut self, value: u64, now: u64) -> (r: Smoothed)
        ensures
            final(self)@ == observe(
                old(self)@,
                Sample { value, at: now },
                old(self).window() as int,
                old(self).capacity() as int,
            ),
            final(self).window() == old(self).window(),
            final(self).capacity() == old(self).capacity(),
            final(self).wf(),
            r.reads(final(self)@),
            r.wf(),
    {
        let _ = self.update(value, now);
        self.smoothed()
    }

    /// Records the reading `value` taken at the time `now` and returns the rate
    /// of the window that is left: the new sample is appended, the samples that
    /// are older than `window` nanoseconds at `now` are dropped, then the
    /// oldest ones beyond the capacity. A sample that is exactly `window`
    /// nanoseconds old stays.
    pub fn update(&mut self, value: u64, now: u64) -> (rate: Rate)
        ensures
            final(self)@ == observe(
                old(self)@,
                Sample { value, at: now },
                old(self).window() as int,
                old(self).capacity() as int,
            ),
            final(self).window() == old(self).window(),
            final(self).capacity() == old(self).capacity(),
            final(self).wf(),
            forall|i: int|
                0 <= i < final(self)@.len() ==> is_recent(
                    #[trigger] final(self)@[i].at as int,
                    now as int,
                    old(self).window() as int,
                ),
            rate == two_point(final(self)@),
            rate.wf(),
    {
        let sample = Sample { value, at: now };
        let ghost before = self.samples@;
        let ghost keep = recent_at(now as int, self.window_nanos as int);

        let mut kept: Vec<Sample> = Vec::new();
        let n: usize = self.samples.len();
        let mut i: usize = 0;
        while i < n
            invariant
                i <= n,
                n == self.samples@.len(),
                self.samples@ == before,
                keep == recent_at(now as int, self.window_nanos as int),
                kept@ == before.take(i as int).filter(keep),
            decreases n - i,
        {
            let s = self.samples[i];
            proof {
                assert(before.take(i as int + 1) == before.take(i as int).push(s));
                before.take(i as int).lemma_filter_push(s, keep);
            }
            if s.is_recent(now, self.window_nanos) {
                kept.push(s);
            }
            i += 1;
        }
        proof {
            assert(before.take(n as int) == before);
            before.lemma_filter_push(sample, keep);
        }
        kept.push(sample);
        if kept.len() > self.max_samples {
            let excess: usize = kept.len() - self.max_samples;
            let newest = kept.split_off(excess);
            kept = newest;
        }
        proof {
            lemma_observe_bounds(before, sample, self.window_nanos as int, self.max_samples as int);
            lemma_observe_newest(before, sample, self.window_nanos as int, self.max_samples as int);
        }
        self.samples = kept;
        self.rate()
    }
}

impl Clone for RateTracker {
    /// A tracker with the same samples and limits.
    fn clone(&self) -> (copy: Self)
        ensures
            copy@ == self@,
            copy.window() == self.window(),
            copy.capacity() == self.capacity(),
    {
        proof {
            use_type_invariant(self);
        }
        let mut samples: Vec<Sample> = Vec::new();
        let n: usize = self.samples.len();
        let mut i: usize = 0;
        while i < n
            invariant
                i <= n,
                n == self.samples@.len(),
                samples@ == self.samples@.take(i as int),
            decreases n - i,
        {
            samples.push(self.samples[i]);
            assert(self.samples@.take(i as int + 1) == self.samples@.take(i as int).push(
                self.samples@[i as int],
            ));
            i += 1;
        }
        assert(self.samples@.take(n as int) == self.samples@);
        RateTracker { samples, window_nanos: self.window_nanos, max_samples: self.max_samples }
    }
}

impl Default for RateTracker {
    /// The tracker that `RateTracker::new` makes.
    fn default() -> (t: Self)
        ensures
            t@ == Seq::<Sample>::empty(),
            t.window() == DEFAULT_WINDOW_NANOS,
            t.capacity() == DEFAULT_MAX_SAMPLES,
    {
        RateTracker::new()
    }
}

} // verus!
