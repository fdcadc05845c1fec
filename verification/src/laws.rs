//! What holds of a window over any run of updates.

use crate::sample::{is_recent, keep_newest, observe, recent_at, retain_recent, slope, two_point, Rate, Sample};
use vstd::prelude::*;

verus! {

/// Whatever the window held before, after a sample has been observed it holds
/// at most `max` samples, and none of them is older than `window` at the
/// sample's time.
pub proof fn lemma_observe_bounds(samples: Seq<Sample>, sample: Sample, window: int, max: int)
    requires
        0 <= max,
    ensures
        observe(samples, sample, window, max).len() <= max,
        forall|i: int|
            0 <= i < observe(samples, sample, window, max).len() ==> is_recent(
                #[trigger] observe(samples, sample, window, max)[i].at as int,
                sample.at as int,
                window,
            ),
{
    let pushed = samples.push(sample);
    let recent = retain_recent(pushed, sample.at as int, window);
    let after = observe(samples, sample, window, max);
    assert forall|i: int| 0 <= i < after.len() implies is_recent(
        #[trigger] after[i].at as int,
        sample.at as int,
        window,
    ) by {
        let j = if recent.len() > max {
            i + recent.len() - max
        } else {
            i
        };
        assert(after[i] == recent[j]);
        pushed.lemma_filter_pred(recent_at(sample.at as int, window), j);
    }
}

/// Where the window is not empty after a sample has been observed, the sample
/// is its newest.
pub proof fn lemma_observe_newest(samples: Seq<Sample>, sample: Sample, window: int, max: int)
    requires
        0 <= max,
        0 <= window,
    ensures
        observe(samples, sample, window, max).len() > 0 ==> observe(
            samples,
            sample,
            window,
            max,
        ).last() == sample,
{
    samples.lemma_filter_push(sample, recent_at(sample.at as int, window));
}

/// A rate is positive exactly where the window holds two samples or more and
/// both the time and the reading of the newest are beyond those of the oldest.
/// In every other case it is zero: no rate is negative.
pub proof fn lemma_zero_unless_risen(samples: Seq<Sample>)
    ensures
        two_point(samples).wf(),
        two_point(samples) is Rising <==> samples.len() >= 2 && samples.first().at
            < samples.last().at && samples.first().value < samples.last().value,
{
}

/// The first update of a tracker reads zero, whatever its limits.
pub proof fn lemma_first_update_reads_zero(sample: Sample, window: int, max: int)
    requires
        0 <= max,
    ensures
        two_point(observe(Seq::empty(), sample, window, max)) is Zero,
{
    let pushed = Seq::<Sample>::empty().push(sample);
    pushed.lemma_filter_len(recent_at(sample.at as int, window));
}

/// The window of a tracker that was made empty and has then seen `updates`,
/// one after the other.
pub open spec fn replay(updates: Seq<Sample>, window: int, max: int) -> Seq<Sample>
    decreases updates.len(),
{
    if updates.len() == 0 {
        Seq::empty()
    } else {
        observe(replay(updates.drop_last(), window, max), updates.last(), window, max)
    }
}

/// Whether no update is earlier than one before it.
pub open spec fn in_time_order(updates: Seq<Sample>) -> bool {
    forall|i: int, j: int| 0 <= i <= j < updates.len() ==> updates[i].at <= updates[j].at
}

/// The index at which the samples of `updates` that are recent at `now` begin,
/// where the updates are in time order.
pub open spec fn recent_from(updates: Seq<Sample>, now: int, window: int) -> int {
    updates.len() - retain_recent(updates, now, window).len()
}

/// Among updates in time order, the recent ones are the newest ones: a suffix,
/// which begins at `recent_from`.
pub proof fn lemma_recent_is_suffix(updates: Seq<Sample>, now: int, window: int)
    requires
        in_time_order(updates),
    ensures
        0 <= recent_from(updates, now, window) <= updates.len(),
        retain_recent(updates, now, window) == updates.skip(recent_from(updates, now, window)),
        forall|i: int|
            0 <= i < updates.len() ==> (is_recent(#[trigger] updates[i].at as int, now, window)
                <==> recent_from(updates, now, window) <= i),
    decreases updates.len(),
{
    let keep = recent_at(now, window);
    updates.lemma_filter_len(keep);
    if updates.len() == 0 {
        assert(updates.filter(keep) =~= updates.skip(0));
    } else {
        let earlier = updates.drop_last();
        let last = updates.last();
        assert(earlier.push(last) == updates);
        earlier.lemma_filter_push(last, keep);
        earlier.lemma_filter_len(keep);
        lemma_recent_is_suffix(earlier, now, window);
        let from = recent_from(earlier, now, window);
        if is_recent(last.at as int, now, window) {
            assert(updates.filter(keep) =~= updates.skip(from));
            assert forall|i: int| 0 <= i < updates.len() implies (is_recent(
                #[trigger] updates[i].at as int,
                now,
                window,
            ) <==> from <= i) by {
                if i < earlier.len() {
                    assert(earlier[i] == updates[i]);
                }
            }
        } else {
            if from < earlier.len() {
                assert(is_recent(earlier[from].at as int, now, window));
                assert(earlier[from] == updates[from]);
                assert(updates[from].at <= last.at);
            }
            assert(from == earlier.len());
            assert(updates.filter(keep) =~= updates.skip(updates.len() as int));
            assert forall|i: int| 0 <= i < updates.len() implies (is_recent(
                #[trigger] updates[i].at as int,
                now,
                window,
            ) <==> updates.len() <= i) by {
                assert(updates[i].at <= last.at);
            }
        }
    }
}

/// The newest samples of `updates` that are no older than `window` at the time
/// of the last one, and no more than `max` of them.
pub open spec fn newest_window(updates: Seq<Sample>, window: int, max: int) -> Seq<Sample> {
    if updates.len() == 0 {
        Seq::empty()
    } else {
        keep_newest(retain_recent(updates, updates.last().at as int, window), max)
    }
}

/// A suffix of updates in time order is in time order.
proof fn lemma_suffix_in_time_order(updates: Seq<Sample>, from: int)
    requires
        in_time_order(updates),
        0 <= from <= updates.len(),
    ensures
        in_time_order(updates.skip(from)),
{
    let suffix = updates.skip(from);
    assert forall|i: int, j: int| 0 <= i <= j < suffix.len() implies suffix[i].at
        <= suffix[j].at by {
        assert(suffix[i] == updates[from + i]);
        assert(suffix[j] == updates[from + j]);
    }
}

/// The larger of two numbers.
pub open spec fn larger(a: int, b: int) -> int {
    if a >= b {
        a
    } else {
        b
    }
}

/// What is recent in a suffix of updates in time order is what is recent in
/// all of them, as far as the suffix reaches.
proof fn lemma_recent_in_suffix(updates: Seq<Sample>, from: int, now: int, window: int)
    requires
        in_time_order(updates),
        0 <= from <= updates.len(),
    ensures
        retain_recent(updates.skip(from), now, window) == updates.skip(
            larger(from, recent_from(updates, now, window)),
        ),
{
    let suffix = updates.skip(from);
    lemma_suffix_in_time_order(updates, from);
    lemma_recent_is_suffix(updates, now, window);
    lemma_recent_is_suffix(suffix, now, window);
    let all_from = recent_from(updates, now, window);
    let suffix_from = recent_from(suffix, now, window);
    let cut = larger(from, all_from) - from;
    assert(suffix_from == cut) by {
        if cut > 0 {
            assert(suffix[cut - 1] == updates[from + cut - 1]);
        }
        if cut < suffix.len() {
            assert(suffix[cut] == updates[from + cut]);
        }
    }
    assert(suffix.skip(cut) == updates.skip(from + cut));
}

/// The newest `max` samples of a suffix.
proof fn lemma_keep_newest_of_suffix(updates: Seq<Sample>, from: int, max_len: int)
    requires
        0 <= from <= updates.len(),
        0 <= max_len,
    ensures
        keep_newest(updates.skip(from), max_len) == updates.skip(
            larger(from, updates.len() - max_len),
        ),
{
    let suffix = updates.skip(from);
    if suffix.len() > max_len {
        assert(suffix.skip(suffix.len() - max_len) == updates.skip(updates.len() - max_len));
    }
}

/// The index from which `newest_window` keeps the updates.
pub open spec fn window_from(updates: Seq<Sample>, window: int, max_len: int) -> int {
    larger(recent_from(updates, updates.last().at as int, window), updates.len() - max_len)
}

/// Under a clock that does not run backwards, the window depends on the past
/// only through the newest samples: after any run of updates it holds exactly
/// those that are no older than `window` at the time of the last update, cut to
/// the newest `max`. Nothing that an earlier update dropped would be there
/// otherwise.
pub proof fn lemma_replay_in_time_order(updates: Seq<Sample>, window: int, max: int)
    requires
        in_time_order(updates),
        0 <= window,
        0 <= max,
    ensures
        replay(updates, window, max) == newest_window(updates, window, max),
        updates.len() > 0 ==> 0 <= window_from(updates, window, max) <= updates.len()
            && newest_window(updates, window, max) == updates.skip(
            window_from(updates, window, max),
        ),
    decreases updates.len(),
{
    if updates.len() > 0 {
        let earlier = updates.drop_last();
        let last = updates.last();
        let now = last.at as int;
        assert(earlier.push(last) == updates);
        assert(in_time_order(earlier)) by {
            assert forall|i: int, j: int| 0 <= i <= j < earlier.len() implies earlier[i].at
                <= earlier[j].at by {
                assert(earlier[i] == updates[i]);
                assert(earlier[j] == updates[j]);
            }
        }
        lemma_replay_in_time_order(earlier, window, max);
        lemma_recent_is_suffix(updates, now, window);
        let from = recent_from(updates, now, window);
        lemma_keep_newest_of_suffix(updates, from, max);
        if earlier.len() == 0 {
            assert(replay(earlier, window, max).push(last) == updates);
        } else {
            let kept_from = window_from(earlier, window, max);
            let seen = replay(earlier, window, max).push(last);
            assert(seen == updates.skip(kept_from));
            lemma_recent_in_suffix(updates, kept_from, now, window);
            lemma_keep_newest_of_suffix(updates, larger(kept_from, from), max);
            assert(recent_from(earlier, earlier.last().at as int, window) <= from) by {
                lemma_recent_is_suffix(earlier, earlier.last().at as int, window);
                if from < earlier.len() {
                    assert(is_recent(updates[from].at as int, now, window));
                    assert(updates[from] == earlier[from]);
                    assert(is_recent(
                        earlier[from].at as int,
                        earlier.last().at as int,
                        window,
                    ));
                }
            }
        }
    }
}

/// After any run of updates the window holds at most `max` samples, and none
/// of them is older than `window` at the time of the last update.
pub proof fn lemma_replay_bounds(updates: Seq<Sample>, window: int, max: int)
    requires
        0 <= max,
    ensures
        replay(updates, window, max).len() <= max,
        forall|i: int|
            0 <= i < replay(updates, window, max).len() ==> is_recent(
                #[trigger] replay(updates, window, max)[i].at as int,
                updates.last().at as int,
                window,
            ),
{
    if updates.len() > 0 {
        lemma_observe_bounds(
            replay(updates.drop_last(), window, max),
            updates.last(),
            window,
            max,
        );
    }
}

/// The updates of a counter that is read every `interval` nanoseconds from
/// `start` on: the reading `values[i]` is taken at `start + i * interval`.
pub open spec fn steady_updates(values: Seq<u64>, start: int, interval: int) -> Seq<Sample> {
    Seq::new(values.len(), |i: int| Sample { value: values[i], at: (start + i * interval) as u64 })
}

/// A counter that is read at a constant interval is judged over a constant
/// span. Let `span` be the greatest number of intervals that fits both the
/// window (`span * interval <= window`) and the capacity (`span < max`), or the
/// number of intervals there have been where that is fewer. Then the window
/// holds the newest `span + 1` readings and no others, so that
/// - the rate is the slope from the reading `span` intervals back to the
///   newest one, over `span * interval` nanoseconds;
/// - where each reading is `step` more than the one before, the rise over
///   that time is `span * step`: the rate is `step` per `interval`, whatever
///   the span and however long the counter has run.
pub proof fn lemma_steady_rate(
    values: Seq<u64>,
    start: int,
    interval: int,
    window: int,
    max: int,
    span: int,
    step: int,
)
    requires
        values.len() >= 1,
        0 <= start,
        0 < interval,
        start + (values.len() - 1) * interval <= u64::MAX,
        0 <= span <= values.len() - 1,
        span < max,
        span * interval <= window,
        span == values.len() - 1 || span + 1 == max || (span + 1) * interval > window,
    ensures
        replay(steady_updates(values, start, interval), window, max) == steady_updates(
            values,
            start,
            interval,
        ).skip(values.len() - 1 - span),
        span >= 1 ==> two_point(replay(steady_updates(values, start, interval), window, max))
            == slope(
            Sample {
                value: values[values.len() - 1 - span],
                at: (start + (values.len() - 1 - span) * interval) as u64,
            },
            Sample { value: values.last(), at: (start + (values.len() - 1) * interval) as u64 },
        ),
        span >= 1 && values[values.len() - 1 - span] < values.last() ==> two_point(
            replay(steady_updates(values, start, interval), window, max),
        ) == (Rate::Rising {
            from: values[values.len() - 1 - span],
            to: values.last(),
            nanos: (span * interval) as u64,
        }),
        (forall|i: int| 0 < i < values.len() ==> #[trigger] values[i] == values[i - 1] + step)
            ==> values.last() - values[values.len() - 1 - span] == span * step,
{
    let updates = steady_updates(values, start, interval);
    let n = values.len() - 1;
    let oldest = n - span;
    assert forall|i: int| 0 <= i <= n implies 0 <= #[trigger] (i * interval) <= n * interval by {
        assert(0 <= i * interval <= n * interval) by (nonlinear_arith)
            requires
                0 <= i <= n,
                0 < interval,
        ;
    }
    assert forall|i: int| 0 <= i <= n implies (#[trigger] updates[i]).at == start + i
        * interval by {
        assert(0 <= i * interval <= n * interval);
    }
    assert forall|i: int, j: int| 0 <= i <= j < updates.len() implies updates[i].at
        <= updates[j].at by {
        assert(updates[i].at == start + i * interval);
        assert(updates[j].at == start + j * interval);
        assert(i * interval <= j * interval) by (nonlinear_arith)
            requires
                0 <= i <= j,
                0 < interval,
        ;
    }
    assert(0 <= window) by (nonlinear_arith)
        requires
            0 <= span,
            0 < interval,
            span * interval <= window,
    ;
    lemma_replay_in_time_order(updates, window, max);
    let now = updates.last().at as int;
    assert(now == start + n * interval);
    lemma_recent_is_suffix(updates, now, window);
    let from = recent_from(updates, now, window);
    assert forall|i: int| oldest <= i <= n implies is_recent(
        #[trigger] updates[i].at as int,
        now,
        window,
    ) by {
        assert(updates[i].at == start + i * interval);
        assert(n * interval - i * interval <= span * interval) by (nonlinear_arith)
            requires
                n - i <= span,
                0 < interval,
        ;
    }
    assert(is_recent(updates[oldest].at as int, now, window));
    assert(from <= oldest);
    if from < oldest {
        assert(is_recent(updates[oldest - 1].at as int, now, window));
        assert(updates[oldest - 1].at == start + (oldest - 1) * interval);
        assert(n * interval - (oldest - 1) * interval == (span + 1) * interval)
            by (nonlinear_arith)
            requires
                oldest == n - span,
        ;
        assert(span + 1 == max);
    }
    assert(window_from(updates, window, max) == oldest);
    let kept = updates.skip(oldest);
    if span >= 1 {
        assert(kept.first() == updates[oldest]);
        assert(kept.last() == updates[n]);
        assert(updates[n].at - updates[oldest].at == span * interval) by {
            assert(updates[n].at == start + n * interval);
            assert(updates[oldest].at == start + oldest * interval);
            assert(n * interval - oldest * interval == span * interval) by (nonlinear_arith)
                requires
                    oldest == n - span,
            ;
        }
        assert(span * interval > 0) by (nonlinear_arith)
            requires
                span >= 1,
                interval > 0,
        ;
    }
    if forall|i: int| 0 < i < values.len() ==> #[trigger] values[i] == values[i - 1] + step {
        lemma_constant_step(values, step, oldest, n);
    }
}

/// Whether each update comes no less than `least` and no more than `most`
/// nanoseconds after the one before it.
pub open spec fn paced(updates: Seq<Sample>, least: int, most: int) -> bool {
    forall|i: int|
        0 < i < updates.len() ==> least <= (#[trigger] updates[i]).at - updates[i - 1].at <= most
}

/// Whether each reading is `step` more than the one before it.
pub open spec fn stepping(updates: Seq<Sample>, step: int) -> bool {
    forall|i: int| 0 < i < updates.len() ==> (#[trigger] updates[i]).value == updates[i - 1].value + step
}

/// Between two updates of a paced run lie as many intervals as their indices
/// differ by, each within the pace.
pub proof fn lemma_paced_span(updates: Seq<Sample>, least: int, most: int, low: int, high: int)
    requires
        paced(updates, least, most),
        0 <= low <= high < updates.len(),
    ensures
        (high - low) * least <= updates[high].at - updates[low].at <= (high - low) * most,
    decreases high - low,
{
    if low < high {
        lemma_paced_span(updates, least, most, low, high - 1);
        assert(least <= updates[high].at - updates[high - 1].at <= most);
        assert((high - low) * least == (high - 1 - low) * least + least) by (nonlinear_arith);
        assert((high - low) * most == (high - 1 - low) * most + most) by (nonlinear_arith);
    } else {
        assert((high - low) * least == 0 && (high - low) * most == 0) by (nonlinear_arith)
            requires
                high == low,
        ;
    }
}

/// Between two updates of a stepping run the readings differ by `step` times
/// the distance of their indices.
pub proof fn lemma_stepping_rise(updates: Seq<Sample>, step: int, low: int, high: int)
    requires
        stepping(updates, step),
        0 <= low <= high < updates.len(),
    ensures
        updates[high].value - updates[low].value == (high - low) * step,
    decreases high - low,
{
    if low < high {
        lemma_stepping_rise(updates, step, low, high - 1);
        assert(updates[high].value == updates[high - 1].value + step);
        assert((high - low) * step == (high - 1 - low) * step + step) by (nonlinear_arith);
    } else {
        assert((high - low) * step == 0) by (nonlinear_arith)
            requires
                high == low,
        ;
    }
}

/// A counter that is read at a roughly constant interval, never less than
/// `least` and never more than `most` nanoseconds after the reading before,
/// and that rises by `step` from reading to reading, reads a rate between
/// `step` per `most` and `step` per `least`, however long it has run. The
/// window holds the newest readings; let `spans` be how many intervals lie
/// between its oldest and its newest. Then
/// - the window holds two readings or more as soon as there have been two, the
///   capacity is two or more and the window is as long as an interval can be;
/// - the time between its oldest and its newest reading is between
///   `spans * least` and `spans * most`, and the rise is `spans * step`;
/// - where `step` and `least` are positive, the rate is that rise over that
///   time.
pub proof fn lemma_paced_rate(
    updates: Seq<Sample>,
    window: int,
    max: int,
    least: int,
    most: int,
    step: int,
)
    requires
        updates.len() >= 1,
        0 <= window,
        0 <= max,
        0 <= least,
        paced(updates, least, most),
        stepping(updates, step),
    ensures
        replay(updates, window, max).len() <= updates.len(),
        replay(updates, window, max) == updates.skip(
            updates.len() - replay(updates, window, max).len(),
        ),
        updates.len() >= 2 && max >= 2 && most <= window ==> replay(updates, window, max).len()
            >= 2,
        replay(updates, window, max).len() >= 2 ==> {
            let kept = replay(updates, window, max);
            let spans = kept.len() - 1;
            &&& spans * least <= kept.last().at - kept.first().at <= spans * most
            &&& kept.last().value - kept.first().value == spans * step
            &&& step > 0 && least > 0 ==> two_point(kept) == (Rate::Rising {
                from: kept.first().value,
                to: kept.last().value,
                nanos: (kept.last().at - kept.first().at) as u64,
            })
        },
{
    let n = updates.len() - 1;
    assert forall|i: int, j: int| 0 <= i <= j < updates.len() implies updates[i].at
        <= updates[j].at by {
        lemma_paced_span(updates, least, most, i, j);
        assert(0 <= (j - i) * least) by (nonlinear_arith)
            requires
                0 <= j - i,
                0 <= least,
        ;
    }
    lemma_replay_in_time_order(updates, window, max);
    let from = window_from(updates, window, max);
    let kept = replay(updates, window, max);
    assert(kept == updates.skip(from));
    lemma_recent_is_suffix(updates, updates.last().at as int, window);
    if updates.len() >= 2 && max >= 2 && most <= window {
        assert(most >= updates[n].at - updates[n - 1].at);
        assert(is_recent(updates[n - 1].at as int, updates.last().at as int, window));
    }
    if kept.len() >= 2 {
        let spans = kept.len() - 1;
        assert(kept.first() == updates[from]);
        assert(kept.last() == updates[n]);
        lemma_paced_span(updates, least, most, from, n);
        lemma_stepping_rise(updates, step, from, n);
        if step > 0 && least > 0 {
            assert(spans * step > 0 && spans * least > 0) by (nonlinear_arith)
                requires
                    spans >= 1,
                    step > 0,
                    least > 0,
            ;
        }
    }
}

/// Readings that each are `step` more than the one before differ by `step`
/// times their distance.
proof fn lemma_constant_step(values: Seq<u64>, step: int, low: int, high: int)
    requires
        0 <= low <= high < values.len(),
        forall|i: int| 0 < i < values.len() ==> #[trigger] values[i] == values[i - 1] + step,
    ensures
        values[high] - values[low] == (high - low) * step,
    decreases high - low,
{
    if low < high {
        lemma_constant_step(values, step, low, high - 1);
        assert((high - low) * step == (high - 1 - low) * step + step) by (nonlinear_arith);
    } else {
        assert((high - low) * step == 0) by (nonlinear_arith)
            requires
                high == low,
        ;
    }
}

} // verus!
