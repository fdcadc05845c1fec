//! The registry of rate trackers: one tracker per key, made when the key is
//! first seen.

use crate::laws::{lemma_first_update_reads_zero, lemma_replay_bounds, replay};
use crate::sample::{is_recent, observe, two_point, Rate, Sample};
use crate::tracker::{RateTracker, DEFAULT_MAX_SAMPLES, DEFAULT_WINDOW_NANOS};
use vstd::hash_map::StringHashMap;
use vstd::prelude::*;

verus! {

/// The window that `key` has in `windows`: empty where the key is not known.
pub open spec fn window_of(windows: Map<Seq<char>, Seq<Sample>>, key: Seq<char>) -> Seq<Sample> {
    if windows.contains_key(key) {
        windows[key]
    } else {
        Seq::empty()
    }
}

/// The windows after `sample` has been observed under `key`: the window of
/// that key has observed the sample, with the limits of a new tracker, and no
/// other window has changed.
pub open spec fn observe_at(
    windows: Map<Seq<char>, Seq<Sample>>,
    key: Seq<char>,
    sample: Sample,
) -> Map<Seq<char>, Seq<Sample>> {
    windows.insert(
        key,
        observe(
            window_of(windows, key),
            sample,
            DEFAULT_WINDOW_NANOS as int,
            DEFAULT_MAX_SAMPLES as int,
        ),
    )
}

/// An update under one key leaves the window of every other key, and so its
/// rate, as it was.
pub proof fn lemma_keys_are_isolated(
    windows: Map<Seq<char>, Seq<Sample>>,
    key: Seq<char>,
    sample: Sample,
    other: Seq<char>,
)
    requires
        other != key,
    ensures
        observe_at(windows, key, sample).contains_key(other) == windows.contains_key(other),
        window_of(observe_at(windows, key, sample), other) == window_of(windows, other),
        two_point(window_of(observe_at(windows, key, sample), other)) == two_point(
            window_of(windows, other),
        ),
{
}

/// The first update under a key reads zero.
pub proof fn lemma_new_key_reads_zero(
    windows: Map<Seq<char>, Seq<Sample>>,
    key: Seq<char>,
    sample: Sample,
)
    requires
        !windows.contains_key(key),
    ensures
        two_point(observe_at(windows, key, sample)[key]) is Zero,
{
    lemma_first_update_reads_zero(sample, DEFAULT_WINDOW_NANOS as int, DEFAULT_MAX_SAMPLES as int);
}

/// The windows of a registry that was made empty and has then seen `updates`,
/// one after the other, each a key with the sample observed under it.
pub open spec fn replay_at(updates: Seq<(Seq<char>, Sample)>) -> Map<Seq<char>, Seq<Sample>>
    decreases updates.len(),
{
    if updates.len() == 0 {
        Map::empty()
    } else {
        observe_at(replay_at(updates.drop_last()), updates.last().0, updates.last().1)
    }
}

/// The samples that `updates` observed under `key`, in their order.
pub open spec fn updates_of(updates: Seq<(Seq<char>, Sample)>, key: Seq<char>) -> Seq<Sample>
    decreases updates.len(),
{
    if updates.len() == 0 {
        Seq::empty()
    } else {
        let earlier = updates_of(updates.drop_last(), key);
        if updates.last().0 == key {
            earlier.push(updates.last().1)
        } else {
            earlier
        }
    }
}

/// Over any run of updates a key's window is what a tracker of its own would
/// hold that had seen the key's samples and no others: whatever is observed
/// under other keys, before, between or after, leaves no trace in it. A key is
/// known as soon as it has been updated once.
pub proof fn lemma_runs_are_isolated(updates: Seq<(Seq<char>, Sample)>, key: Seq<char>)
    ensures
        window_of(replay_at(updates), key) == replay(
            updates_of(updates, key),
            DEFAULT_WINDOW_NANOS as int,
            DEFAULT_MAX_SAMPLES as int,
        ),
        replay_at(updates).contains_key(key) <==> updates_of(updates, key).len() > 0,
    decreases updates.len(),
{
    if updates.len() > 0 {
        lemma_runs_are_isolated(updates.drop_last(), key);
        if updates.last().0 == key {
            let mine = updates_of(updates, key);
            assert(mine.drop_last() == updates_of(updates.drop_last(), key));
        }
    }
}

/// After any run of updates the window of every key holds no more than 200
/// samples, and none of them is older than two seconds at the time of the
/// key's last update.
pub proof fn lemma_every_key_is_bounded(updates: Seq<(Seq<char>, Sample)>, key: Seq<char>)
    ensures
        window_of(replay_at(updates), key).len() <= DEFAULT_MAX_SAMPLES,
        forall|i: int|
            0 <= i < window_of(replay_at(updates), key).len() ==> is_recent(
                #[trigger] window_of(replay_at(updates), key)[i].at as int,
                updates_of(updates, key).last().at as int,
                DEFAULT_WINDOW_NANOS as int,
            ),
{
    lemma_runs_are_isolated(updates, key);
    lemma_replay_bounds(
        updates_of(updates, key),
        DEFAULT_WINDOW_NANOS as int,
        DEFAULT_MAX_SAMPLES as int,
    );
}

/// The rate trackers of all keys. A key gets its tracker, with the limits of
/// `RateTracker::new`, when it is first updated, and keeps it from then on.
pub struct RateRegistry {
    index: StringHashMap<usize>,
    slots: Vec<RateTracker>,
}

impl View for RateRegistry {
    type V = Map<Seq<char>, Seq<Sample>>;

    /// The window of each key that has been updated.
    closed spec fn view(&self) -> Map<Seq<char>, Seq<Sample>> {
        Map::new(
            |key: Seq<char>| self.index@.contains_key(key),
            |key: Seq<char>| self.slots@[self.index@[key] as int]@,
        )
    }
}

impl RateRegistry {
    /// What holds of every registry that `new` made and `update` changed: each
    /// key has a tracker of its own, well formed and with the limits of
    /// `RateTracker::new`.
    pub closed spec fn wf(&self) -> bool {
        &&& forall|key: Seq<char>| #[trigger]
            self.index@.contains_key(key) ==> self.index@[key] < self.slots@.len()
        &&& forall|a: Seq<char>, b: Seq<char>|
            #![trigger self.index@[a], self.index@[b]]
            self.index@.contains_key(a) && self.index@.contains_key(b) && self.index@[a]
                == self.index@[b] ==> a == b
        &&& forall|i: int|
            0 <= i < self.slots@.len() ==> (#[trigger] self.slots@[i]).window()
                == DEFAULT_WINDOW_NANOS && self.slots@[i].capacity() == DEFAULT_MAX_SAMPLES
                && self.slots@[i].wf()
    }

    /// The window of every key of a registry is bounded as that of a tracker
    /// is: it holds no more than 200 samples, and none of them is older than
    /// two seconds at the time of the key's newest sample.
    pub proof fn lemma_windows_are_bounded(&self, key: Seq<char>)
        requires
            self.wf(),
            self@.contains_key(key),
        ensures
            self@[key].len() <= DEFAULT_MAX_SAMPLES,
            forall|i: int|
                0 <= i < self@[key].len() ==> is_recent(
                    #[trigger] self@[key][i].at as int,
                    self@[key].last().at as int,
                    DEFAULT_WINDOW_NANOS as int,
                ),
    {
        let tracker = self.slots@[self.index@[key] as int];
        assert(tracker.wf());
    }

    /// A registry that knows no key.
    pub fn new() -> (registry: Self)
        ensures
            registry.wf(),
            registry@ == Map::<Seq<char>, Seq<Sample>>::empty(),
    {
        let registry = RateRegistry { index: StringHashMap::new(), slots: Vec::new() };
        assert(registry@ =~= Map::<Seq<char>, Seq<Sample>>::empty());
        registry
    }

    /// The rate of the window of `key` as it stands, or `None` where the key
    /// has not been updated yet.
    pub fn rate(&self, key: &str) -> (rate: Option<Rate>)
        requires
            self.wf(),
        ensures
            rate == if self@.contains_key(key@) {
                Some(two_point(self@[key@]))
            } else {
                None
            },
    {
        match self.index.get(key) {
            Some(slot) => Some(self.slots[*slot].rate()),
            None => None,
        }
    }

    /// The number of keys that have been updated.
    pub fn len(&self) -> (n: usize)
        requires
            self.wf(),
        ensures
            n == self@.dom().len(),
    {
        assert(self@.dom() =~= self.index@.dom());
        self.index.len()
    }

    /// Records the reading `value` taken at `now` under `key`, in a new tracker
    /// if the key is new, and returns the rate of that key's window.
    pub fn update(&mut self, key: String, value: u64, now: u64) -> (rate: Rate)
        requires
            old(self).wf(),
        ensures
            final(self).wf(),
            final(self)@ == observe_at(old(self)@, key@, Sample { value, at: now }),
            rate == two_point(final(self)@[key@]),
            rate.wf(),
    {
        let found = match self.index.get(key.as_str()) {
            Some(slot) => Some(*slot),
            None => None,
        };
        match found {
            Some(slot) => {
                let rate = self.slots[slot].update(value, now);
                assert(self@ =~= observe_at(old(self)@, key@, Sample { value, at: now }));
                rate
            },
            None => {
                let mut tracker = RateTracker::new();
                let rate = tracker.update(value, now);
                let slot: usize = self.slots.len();
                self.slots.push(tracker);
                self.index.insert(key, slot);
                assert(self@ =~= observe_at(old(self)@, key@, Sample { value, at: now }));
                rate
            },
        }
    }
}

/// Records the reading `value` of a counter, taken at `now`, under
/// `tracker_key` in `registry`, and returns the rate of that key. The key alone
/// says which tracker is meant: the counter's name is not looked at.
pub fn update_rate_tracker(
    registry: &mut RateRegistry,
    _counter_name: &str,
    value: u64,
    now: u64,
    tracker_key: String,
) -> (rate: Rate)
    requires
        old(registry).wf(),
    ensures
        final(registry).wf(),
        final(registry)@ == observe_at(old(registry)@, tracker_key@, Sample { value, at: now }),
        rate == two_point(final(registry)@[tracker_key@]),
        rate.wf(),
{
    registry.update(tracker_key, value, now)
}

} // verus!
