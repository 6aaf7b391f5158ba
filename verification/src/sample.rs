//! A sample of durations and the statistics reported of it: mean, median
//! and 95th percentile.
//!
//! Durations are whole milliseconds. Statistics are converted into the
//! reporting unit and rounded to hundredths as the last step.

use vstd::prelude::*;
use vstd::seq_lib::{to_multiset_build, to_multiset_insert};
use crate::duration_unit::{
    lemma_rounded_hundredths_bound, round_hundredths, rounded_hundredths, DurationUnit,
};

verus! {

/// The position in `sorted` just behind the last element that does not exceed `value`.
pub open spec fn place_for(sorted: Seq<u64>, value: u64) -> int
    decreases sorted.len(),
{
    if sorted.len() == 0 {
        0
    } else if sorted.last() <= value {
        sorted.len() as int
    } else {
        place_for(sorted.drop_last(), value)
    }
}

/// The values in ascending order.
pub open spec fn ascending(values: Seq<u64>) -> Seq<u64>
    decreases values.len(),
{
    if values.len() == 0 {
        Seq::empty()
    } else {
        let rest = ascending(values.drop_last());
        rest.insert(place_for(rest, values.last()), values.last())
    }
}

/// Whether no element is followed by a smaller one.
pub open spec fn is_ascending(values: Seq<u64>) -> bool {
    forall|i: int, j: int| 0 <= i <= j < values.len() ==> values[i] <= values[j]
}

/// The sum of the values.
pub open spec fn total(values: Seq<u64>) -> nat
    decreases values.len(),
{
    if values.len() == 0 {
        0
    } else {
        total(values.drop_last()) + values.last() as nat
    }
}

/// The zero-based rank, among `count` values in ascending order, that lies
/// nearest to 95% of the way from the first to the last; a rank exactly
/// between two values is taken as the higher.
pub open spec fn nearest_rank_95(count: nat) -> int
    recommends
        count > 0,
{
    (19 * (count - 1) + 10) / 20
}

/// The arithmetic mean of the values, in hundredths of `unit`.
pub open spec fn mean_of(values: Seq<u64>, unit: DurationUnit) -> nat
    recommends
        values.len() > 0,
{
    rounded_hundredths(total(values), values.len() * unit.millis())
}

/// The median of the values, in hundredths of `unit`: the middle value of
/// an odd number of values, the mean of the two middle values of an even number.
pub open spec fn median_of(values: Seq<u64>, unit: DurationUnit) -> nat
    recommends
        values.len() > 0,
{
    let sorted = ascending(values);
    let n = sorted.len() as int;
    rounded_hundredths((sorted[(n - 1) / 2] + sorted[n / 2]) as nat, 2 * unit.millis())
}

/// The 95th percentile of the values, in hundredths of `unit`: the value
/// whose rank is nearest to the percentile, never a value between two ranks.
pub open spec fn p95_of(values: Seq<u64>, unit: DurationUnit) -> nat
    recommends
        values.len() > 0,
{
    let sorted = ascending(values);
    rounded_hundredths(sorted[nearest_rank_95(sorted.len())] as nat, unit.millis())
}

/// An insertion place lies within the sequence or at its end.
pub proof fn lemma_place_for_in_bounds(sorted: Seq<u64>, value: u64)
    ensures
        0 <= place_for(sorted, value) <= sorted.len(),
    decreases sorted.len(),
{
    if sorted.len() > 0 && sorted.last() > value {
        lemma_place_for_in_bounds(sorted.drop_last(), value);
    }
}

/// In an ascending sequence the insertion place of a value separates the
/// elements that do not exceed it from those that do.
pub proof fn lemma_place_for_separates(sorted: Seq<u64>, value: u64)
    requires
        is_ascending(sorted),
    ensures
        forall|i: int| 0 <= i < place_for(sorted, value) ==> sorted[i] <= value,
        forall|i: int| place_for(sorted, value) <= i < sorted.len() ==> sorted[i] > value,
    decreases sorted.len(),
{
    lemma_place_for_in_bounds(sorted, value);
    if sorted.len() > 0 && sorted.last() > value {
        let shorter = sorted.drop_last();
        assert(is_ascending(shorter)) by {
            assert forall|i: int, j: int| 0 <= i <= j < shorter.len() implies shorter[i]
                <= shorter[j] by {
                assert(sorted[i] <= sorted[j]);
            }
        }
        lemma_place_for_separates(shorter, value);
        lemma_place_for_in_bounds(shorter, value);
        assert forall|i: int| place_for(sorted, value) <= i < sorted.len() implies sorted[i]
            > value by {
            if i < shorter.len() {
                assert(shorter[i] > value);
            }
        }
        assert forall|i: int| 0 <= i < place_for(sorted, value) implies sorted[i] <= value by {
            assert(shorter[i] <= value);
        }
    }
}

/// `ascending` keeps every value, each as often as it occurs, and puts them
/// in ascending order.
pub proof fn lemma_ascending_sorts(values: Seq<u64>)
    ensures
        ascending(values).len() == values.len(),
        is_ascending(ascending(values)),
        ascending(values).to_multiset() == values.to_multiset(),
    decreases values.len(),
{
    if values.len() == 0 {
        assert(values =~= Seq::<u64>::empty());
    } else {
        let rest = ascending(values.drop_last());
        let value = values.last();
        let place = place_for(rest, value);
        lemma_ascending_sorts(values.drop_last());
        lemma_place_for_in_bounds(rest, value);
        lemma_place_for_separates(rest, value);
        let merged = rest.insert(place, value);
        assert(is_ascending(merged)) by {
            assert forall|i: int, j: int| 0 <= i <= j < merged.len() implies merged[i]
                <= merged[j] by {
                if j < place {
                    assert(rest[i] <= rest[j]);
                } else if j == place {
                } else if i < place {
                    assert(rest[j - 1] > value);
                } else if i == place {
                    assert(rest[j - 1] > value);
                } else {
                    assert(rest[i - 1] <= rest[j - 1]);
                }
            }
        }
        to_multiset_insert(rest, place, value);
        to_multiset_build(values.drop_last(), value);
        assert(values.drop_last().push(value) =~= values);
    }
}

/// No sum of 64-bit values exceeds their number times the largest value.
pub proof fn lemma_total_bound(values: Seq<u64>)
    ensures
        total(values) <= values.len() * u64::MAX,
    decreases values.len(),
{
    if values.len() > 0 {
        lemma_total_bound(values.drop_last());
        assert((values.len() - 1) * u64::MAX + u64::MAX == values.len() * u64::MAX)
            by (nonlinear_arith);
    }
}

/// The rank of the 95th percentile is the rank of one of the values.
pub proof fn lemma_nearest_rank_in_bounds(count: nat)
    requires
        count > 0,
    ensures
        0 <= nearest_rank_95(count) < count,
{
}

/// A sample of run durations in milliseconds.
///
/// The view is the sequence of durations in the order in which they were added.
pub struct DurationSample {
    sorted: Vec<u64>,
    sum: u128,
    added: Ghost<Seq<u64>>,
}

impl View for DurationSample {
    type V = Seq<u64>;

    closed spec fn view(&self) -> Seq<u64> {
        self.added@
    }
}

impl DurationSample {
    /// The sample holds its durations in ascending order beside their sum.
    pub closed spec fn wf(&self) -> bool {
        &&& self.sorted@ == ascending(self.added@)
        &&& self.sum == total(self.added@)
    }

    /// Returns the empty sample.
    pub fn new() -> (sample: Self)
        ensures
            sample.wf(),
            sample@ == Seq::<u64>::empty(),
    {
        DurationSample { sorted: Vec::new(), sum: 0, added: Ghost(Seq::empty()) }
    }

    /// Adds one duration to the sample.
    pub fn add(&mut self, ms: u64)
        requires
            old(self).wf(),
        ensures
            final(self).wf(),
            final(self)@ == old(self)@.push(ms),
    {
        let mut place: usize = self.sorted.len();
        assert(self.sorted@.take(place as int) =~= self.sorted@);
        while place > 0 && self.sorted[place - 1] > ms
            invariant
                place <= self.sorted.len(),
                place_for(self.sorted@, ms) == place_for(self.sorted@.take(place as int), ms),
            decreases place,
        {
            assert(self.sorted@.take(place as int).drop_last() =~= self.sorted@.take(
                place - 1,
            ));
            place -= 1;
        }
        proof {
            lemma_total_bound(self.added@);
            lemma_ascending_sorts(self.added@);
            assert(self.sorted.len() * u64::MAX + ms <= u128::MAX) by (nonlinear_arith)
                requires
                    self.sorted.len() <= u64::MAX,
                    ms <= u64::MAX,
            ;
            assert(self.added@.push(ms).drop_last() =~= self.added@);
        }
        self.sorted.insert(place, ms);
        self.sum = self.sum + ms as u128;
        proof {
            self.added@ = self.added@.push(ms);
        }
    }

    /// Returns the number of durations in the sample.
    pub fn count(&self) -> (count: usize)
        requires
            self.wf(),
        ensures
            count == self@.len(),
    {
        proof {
            lemma_ascending_sorts(self.added@);
        }
        self.sorted.len()
    }

    /// Returns the mean duration in hundredths of `unit`, or `None` for an empty sample.
    pub fn mean(&self, unit: DurationUnit) -> (mean: Option<u64>)
        requires
            self.wf(),
        ensures
            self@.len() == 0 ==> mean is None,
            self@.len() > 0 ==> (mean matches Some(value) && value == mean_of(self@, unit)),
    {
        let count: usize = self.count();
        if count == 0 {
            return None;
        }
        let millis: u64 = unit.millis_per_unit();
        proof {
            lemma_total_bound(self.added@);
            let n = count as int;
            let m = millis as int;
            let t = self.sum as int;
            assert(200 <= n * m <= 0x1_0000_0000_0000_0000_0000_0000) by (nonlinear_arith)
                requires
                    1 <= n <= u64::MAX,
                    1_000 <= m <= 3_600_000,
            ;
            assert(200 * t + n * m <= u64::MAX * (2 * (n * m))) by (nonlinear_arith)
                requires
                    0 <= t <= n * u64::MAX,
                    n >= 1,
                    m >= 1_000,
            ;
            lemma_rounded_hundredths_bound(t as nat, (n * m) as nat, u64::MAX as nat);
        }
        let denominator: u128 = count as u128 * millis as u128;
        Some(round_hundredths(self.sum, denominator) as u64)
    }

    /// Returns the median duration in hundredths of `unit`, or `None` for an empty sample.
    pub fn median(&self, unit: DurationUnit) -> (median: Option<u64>)
        requires
            self.wf(),
        ensures
            self@.len() == 0 ==> median is None,
            self@.len() > 0 ==> (median matches Some(value) && value == median_of(self@, unit)),
    {
        let count: usize = self.count();
        if count == 0 {
            return None;
        }
        let millis: u64 = unit.millis_per_unit();
        proof {
            lemma_ascending_sorts(self.added@);
        }
        let low: u64 = self.sorted[(count - 1) / 2];
        let high: u64 = self.sorted[count / 2];
        proof {
            let m = millis as int;
            let pair = low + high;
            assert(200 * pair + 2 * m <= u64::MAX * (2 * (2 * m))) by (nonlinear_arith)
                requires
                    0 <= pair <= 2 * u64::MAX,
                    m >= 1_000,
            ;
            lemma_rounded_hundredths_bound(pair as nat, (2 * m) as nat, u64::MAX as nat);
        }
        Some(round_hundredths(low as u128 + high as u128, 2 * millis as u128) as u64)
    }

    /// Returns the 95th percentile in hundredths of `unit`, or `None` for an empty sample.
    pub fn p95(&self, unit: DurationUnit) -> (p95: Option<u64>)
        requires
            self.wf(),
        ensures
            self@.len() == 0 ==> p95 is None,
            self@.len() > 0 ==> (p95 matches Some(value) && value == p95_of(self@, unit)),
    {
        let count: usize = self.count();
        if count == 0 {
            return None;
        }
        proof {
            lemma_ascending_sorts(self.added@);
            lemma_nearest_rank_in_bounds(self.added@.len());
        }
        let rank: u128 = (19 * (count as u128 - 1) + 10) / 20;
        Some(unit.convert(self.sorted[rank as usize]))
    }
}

} // verus!
