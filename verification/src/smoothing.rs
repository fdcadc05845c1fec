//! The smoothed reading of a window: the rates between neighbouring samples,
//! and the median of a list of rates.

use crate::sample::{slope, two_point, Rate, Sample};
use vstd::prelude::*;
use vstd::relations::{sorted_by, total_ordering};
use vstd::seq_lib::{lemma_sorted_unique, to_multiset_build, to_multiset_insert};

verus! {

/// The rates between each sample and the next, oldest pair first. A pair
/// between which no time has passed says nothing and is left out.
pub open spec fn pairwise(samples: Seq<Sample>) -> Seq<Rate>
    decreases samples.len(),
{
    if samples.len() < 2 {
        Seq::empty()
    } else {
        let earlier = pairwise(samples.drop_last());
        let a = samples[samples.len() - 2];
        let b = samples.last();
        if b.at > a.at {
            earlier.push(slope(a, b))
        } else {
            earlier
        }
    }
}

/// The rates between neighbouring samples, as `pairwise` defines them.
pub fn pairwise_rates(samples: &Vec<Sample>) -> (rates: Vec<Rate>)
    ensures
        rates@ == pairwise(samples@),
        forall|i: int| 0 <= i < rates@.len() ==> (#[trigger] rates@[i]).wf(),
{
    let mut rates: Vec<Rate> = Vec::new();
    let n: usize = samples.len();
    let mut i: usize = 1;
    proof {
        if n >= 2 {
            assert(samples@.take(1).len() == 1);
        }
    }
    while i < n
        invariant
            1 <= i,
            n == samples@.len(),
            n >= 2 ==> i <= n,
            n >= 2 ==> rates@ == pairwise(samples@.take(i as int)),
            n < 2 ==> rates@ == Seq::<Rate>::empty(),
            forall|k: int| 0 <= k < rates@.len() ==> (#[trigger] rates@[k]).wf(),
        decreases n - i,
    {
        let a = samples[i - 1];
        let b = samples[i];
        proof {
            let upto = samples@.take(i as int + 1);
            assert(upto.drop_last() == samples@.take(i as int));
            assert(upto[upto.len() - 2] == a);
            assert(upto.last() == b);
        }
        if b.at > a.at {
            rates.push(a.slope_to(&b));
        }
        i += 1;
    }
    proof {
        if n >= 2 {
            assert(samples@.take(n as int) == samples@);
        }
    }
    rates
}

/// The smoothed reading of a window. With three samples or more it is the list
/// of the rates between neighbours, of which the caller takes the median; with
/// fewer it falls back to the two-point rate.
#[derive(Debug)]
pub enum Smoothed {
    TwoPoint(Rate),
    Pairwise(Vec<Rate>),
}

impl Smoothed {
    /// Whether this is the smoothed reading of the window `samples`.
    pub open spec fn reads(self, samples: Seq<Sample>) -> bool {
        match self {
            Smoothed::TwoPoint(rate) => samples.len() < 3 && rate == two_point(samples),
            Smoothed::Pairwise(rates) => samples.len() >= 3 && rates@ == pairwise(samples),
        }
    }

    /// Each rate in a smoothed reading is well formed.
    pub open spec fn wf(self) -> bool {
        match self {
            Smoothed::TwoPoint(rate) => rate.wf(),
            Smoothed::Pairwise(rates) => forall|i: int|
                0 <= i < rates@.len() ==> (#[trigger] rates@[i]).wf(),
        }
    }
}

/// The order of codes: that of the numbers.
pub open spec fn ascending() -> spec_fn(u64, u64) -> bool {
    |a: u64, b: u64| a <= b
}

/// The codes of `codes` in ascending order.
pub open spec fn sorted(codes: Seq<u64>) -> Seq<u64> {
    codes.sort_by(ascending())
}

/// The median of a list of numbers.
#[derive(Clone, Copy, Debug, PartialEq, Eq, Structural)]
pub enum Median {
    /// The list is empty: it has no median.
    Empty,
    /// The list has an odd length: this is the number in the middle.
    Middle(u64),
    /// The list has an even length: the median lies half way between these
    /// two numbers in the middle, the lesser first.
    Between(u64, u64),
}

/// The median of a list that is in ascending order.
pub open spec fn median_in(ordered: Seq<u64>) -> Median {
    let n = ordered.len() as int;
    if n == 0 {
        Median::Empty
    } else if n % 2 == 1 {
        Median::Middle(ordered[n / 2])
    } else {
        Median::Between(ordered[n / 2 - 1], ordered[n / 2])
    }
}

/// A copy of `codes` in ascending order.
pub fn sort(codes: &Vec<u64>) -> (ordered: Vec<u64>)
    ensures
        ordered@ == sorted(codes@),
{
    let mut ordered: Vec<u64> = Vec::new();
    let n: usize = codes.len();
    let mut i: usize = 0;
    assert(ordered@ == codes@.take(0));
    while i < n
        invariant
            i <= n,
            n == codes@.len(),
            sorted_by(ordered@, ascending()),
            ordered@.to_multiset() == codes@.take(i as int).to_multiset(),
            ordered@.len() == i,
        decreases n - i,
    {
        let code = codes[i];
        let mut at: usize = 0;
        while at < ordered.len() && ordered[at] <= code
            invariant
                at <= ordered@.len(),
                forall|k: int| 0 <= k < at ==> ordered@[k] <= code,
            decreases ordered@.len() - at,
        {
            at += 1;
        }
        let ghost before = ordered@;
        ordered.insert(at, code);
        proof {
            broadcast use to_multiset_insert;
            broadcast use to_multiset_build;

            assert(codes@.take(i as int + 1) == codes@.take(i as int).push(code));
            assert forall|j: int, k: int| 0 <= j < k < ordered@.len() implies #[trigger] ascending()(
                ordered@[j],
                ordered@[k],
            ) by {
                let jb = if j < at {
                    j
                } else {
                    j - 1
                };
                let kb = if k < at {
                    k
                } else {
                    k - 1
                };
                if j != at && k != at {
                    assert(ascending()(before[jb], before[kb]));
                } else if j == at {
                    assert(ascending()(before[at as int], before[kb]));
                }
            }
        }
        i += 1;
    }
    proof {
        assert(codes@.take(n as int) == codes@);
        lemma_ascending_is_total();
        codes@.lemma_sort_by_ensures(ascending());
        lemma_sorted_unique(ordered@, sorted(codes@), ascending());
    }
    ordered
}

/// The list in ascending order holds what the list holds, each number as often,
/// and no number in it is greater than a later one.
pub proof fn lemma_sorted_is_ordered(codes: Seq<u64>)
    ensures
        sorted(codes).to_multiset() == codes.to_multiset(),
        sorted(codes).len() == codes.len(),
        forall|i: int, j: int|
            0 <= i <= j < sorted(codes).len() ==> sorted(codes)[i] <= sorted(codes)[j],
{
    lemma_ascending_is_total();
    codes.lemma_sort_by_ensures(ascending());
    let ordered = sorted(codes);
    assert(ordered.len() == codes.len()) by {
        broadcast use vstd::seq_lib::to_multiset_len;

        assert(ordered.to_multiset().len() == ordered.len());
        assert(codes.to_multiset().len() == codes.len());
    }
    assert forall|i: int, j: int| 0 <= i <= j < ordered.len() implies ordered[i]
        <= ordered[j] by {
        if i < j {
            assert(ascending()(ordered[i], ordered[j]));
        }
    }
}

/// The order of the numbers is a total order.
pub proof fn lemma_ascending_is_total()
    ensures
        total_ordering(ascending()),
{
}

/// The median of `codes`: the middle of the list in ascending order.
pub fn median(codes: &Vec<u64>) -> (m: Median)
    ensures
        m == median_in(sorted(codes@)),
{
    let ordered = sort(codes);
    let n: usize = ordered.len();
    if n == 0 {
        Median::Empty
    } else if n % 2 == 1 {
        Median::Middle(ordered[n / 2])
    } else {
        Median::Between(ordered[n / 2 - 1], ordered[n / 2])
    }
}

} // verus!
