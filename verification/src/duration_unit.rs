//! Units in which durations are reported, and the fixed-point scaling from
//! milliseconds into them.
//!
//! Reported durations carry two decimal places. They are held as whole
//! numbers of hundredths of the unit, so `2.50` minutes is the number `250`.

use vstd::prelude::*;
use vstd::arithmetic::div_mod::{
    lemma_div_is_ordered, lemma_div_multiples_vanish, lemma_fundamental_div_mod,
    lemma_hoist_over_denominator, lemma_multiply_divide_lt,
};

verus! {

/// The quotient `numerator / denominator` in hundredths, rounded to the
/// nearest whole hundredth; a quotient that lies exactly halfway is rounded up.
pub open spec fn rounded_hundredths(numerator: nat, denominator: nat) -> nat
    recommends
        denominator > 0,
{
    (200 * numerator + denominator) / (2 * denominator)
}

/// The rounded quotient is the whole number of hundredths nearest to the
/// exact quotient: the two differ by at most half a hundredth, and by
/// exactly half only where the exact quotient lies below.
pub proof fn lemma_rounded_hundredths_is_nearest(numerator: nat, denominator: nat)
    requires
        denominator > 0,
    ensures
        200 * numerator - denominator < 2 * denominator * rounded_hundredths(
            numerator,
            denominator,
        ) <= 200 * numerator + denominator,
{
    let x = (200 * numerator + denominator) as int;
    let d = 2 * (denominator as int);
    lemma_fundamental_div_mod(x, d);
    assert(0 <= x % d < d);
    assert(d * (x / d) == 2 * denominator * rounded_hundredths(numerator, denominator))
        by (nonlinear_arith)
        requires
            d == 2 * denominator,
            x / d == rounded_hundredths(numerator, denominator),
    ;
}

/// The largest denominator that [`round_hundredths`] accepts.
pub const MAX_DENOMINATOR: u128 = 0x1_0000_0000_0000_0000_0000_0000;

/// A rounded quotient does not exceed `cap` when the quotient itself, taken
/// half a hundredth higher, does not.
pub proof fn lemma_rounded_hundredths_bound(numerator: nat, denominator: nat, cap: nat)
    requires
        denominator > 0,
        200 * numerator + denominator <= cap * (2 * denominator),
    ensures
        rounded_hundredths(numerator, denominator) <= cap,
{
    let d = 2 * (denominator as int);
    lemma_div_is_ordered((200 * numerator + denominator) as int, cap * d, d);
    lemma_div_multiples_vanish(cap as int, d);
    assert(cap * d == d * cap) by (nonlinear_arith);
}

/// Computes [`rounded_hundredths`] without leaving 128 bits.
pub(crate) fn round_hundredths(numerator: u128, denominator: u128) -> (rounded: u128)
    requires
        200 <= denominator <= MAX_DENOMINATOR,
    ensures
        rounded == rounded_hundredths(numerator as nat, denominator as nat),
{
    let whole: u128 = numerator / denominator;
    let rest: u128 = numerator % denominator;
    proof {
        let n = numerator as int;
        let d = denominator as int;
        lemma_fundamental_div_mod(n, d);
        assert(whole * 200 <= n) by (nonlinear_arith)
            requires
                n == d * whole + rest,
                d >= 200,
                whole >= 0,
                rest >= 0,
        ;
        assert((200 * rest + d) / (2 * d) <= 100) by {
            assert(200 * rest + d < (2 * d) * 101) by (nonlinear_arith)
                requires
                    0 <= rest < d,
            ;
            lemma_multiply_divide_lt(200 * rest + d, 2 * d, 101);
        }
        assert(200 * n + d == (200 * rest + d) + (100 * whole) * (2 * d)) by (nonlinear_arith)
            requires
                n == d * whole + rest,
        ;
        lemma_hoist_over_denominator(200 * rest + d, 100 * whole, (2 * d) as nat);
    }
    let fraction: u128 = (200 * rest + denominator) / (2 * denominator);
    100 * whole + fraction
}

/// The unit in which durations are reported.
#[derive(Debug, Clone, Copy, PartialEq, Eq, Structural)]
pub enum DurationUnit {
    Seconds,
    Minutes,
    Hours,
}

impl DurationUnit {
    /// The number of milliseconds in one unit.
    pub open spec fn millis(self) -> nat {
        match self {
            DurationUnit::Seconds => 1_000,
            DurationUnit::Minutes => 60_000,
            DurationUnit::Hours => 3_600_000,
        }
    }

    /// The lower-case name of the unit, as it is written on the command line.
    pub open spec fn name(self) -> Seq<char> {
        match self {
            DurationUnit::Seconds => "seconds"@,
            DurationUnit::Minutes => "minutes"@,
            DurationUnit::Hours => "hours"@,
        }
    }

    /// Returns the number of milliseconds in one unit.
    pub fn millis_per_unit(self) -> (millis: u64)
        ensures
            millis == self.millis(),
    {
        match self {
            DurationUnit::Seconds => 1_000,
            DurationUnit::Minutes => 60_000,
            DurationUnit::Hours => 3_600_000,
        }
    }

    /// Converts a duration in milliseconds into hundredths of this unit,
    /// rounded to the nearest hundredth.
    pub fn convert(self, ms: u64) -> (hundredths: u64)
        ensures
            hundredths == rounded_hundredths(ms as nat, self.millis()),
    {
        let unit: u64 = self.millis_per_unit();
        proof {
            assert(200 * ms + unit <= u64::MAX * (2 * unit)) by (nonlinear_arith)
                requires
                    ms <= u64::MAX,
                    unit >= 1_000,
            ;
            lemma_rounded_hundredths_bound(ms as nat, unit as nat, u64::MAX as nat);
        }
        round_hundredths(ms as u128, unit as u128) as u64
    }

    /// Returns the lower-case name of the unit.
    pub fn label(&self) -> (text: String)
        ensures
            text@ == self.name(),
    {
        match self {
            DurationUnit::Seconds => "seconds".to_owned(),
            DurationUnit::Minutes => "minutes".to_owned(),
            DurationUnit::Hours => "hours".to_owned(),
        }
    }
}

impl Default for DurationUnit {
    /// Durations are reported in seconds unless another unit is chosen.
    fn default() -> (unit: Self)
        ensures
            unit == DurationUnit::Seconds,
    {
        DurationUnit::Seconds
    }
}

/// Conversion is a linear scaling: a minute is sixty seconds and an hour is
/// sixty minutes, so a duration's value in the smaller unit is sixty times
/// its value in the larger one, up to the rounding of the larger value.
/// Both values are in hundredths; rounding moves the larger-unit value by at
/// most half a hundredth, which is thirty hundredths of the smaller unit.
pub proof fn lemma_conversion_is_linear(ms: nat)
    ensures
        DurationUnit::Minutes.millis() == 60 * DurationUnit::Seconds.millis(),
        DurationUnit::Hours.millis() == 60 * DurationUnit::Minutes.millis(),
        60 * rounded_hundredths(ms, 60_000) - 30 <= rounded_hundredths(ms, 1_000) <= 60
            * rounded_hundredths(ms, 60_000) + 30,
        60 * rounded_hundredths(ms, 3_600_000) - 30 <= rounded_hundredths(ms, 60_000) <= 60
            * rounded_hundredths(ms, 3_600_000) + 30,
{
    lemma_scaled_by_sixty(ms, 1_000);
    lemma_scaled_by_sixty(ms, 60_000);
}

/// The value in a unit of `unit` milliseconds is sixty times the value in
/// the unit sixty times as long, give or take thirty hundredths.
proof fn lemma_scaled_by_sixty(ms: nat, unit: nat)
    requires
        unit > 0,
    ensures
        60 * rounded_hundredths(ms, 60 * unit) - 30 <= rounded_hundredths(ms, unit) <= 60
            * rounded_hundredths(ms, 60 * unit) + 30,
{
    let u = unit as int;
    let small = rounded_hundredths(ms, unit) as int;
    let large = rounded_hundredths(ms, 60 * unit) as int;
    let a = 200 * ms + u;
    let b = 200 * ms + 60 * u;
    lemma_fundamental_div_mod(a, 2 * u);
    lemma_fundamental_div_mod(b, 2 * (60 * u));
    let ra = a % (2 * u);
    let rb = b % (2 * (60 * u));
    assert(0 <= ra < 2 * u);
    assert(0 <= rb < 120 * u);
    assert(a == (2 * u) * small + ra);
    assert(b == (2 * (60 * u)) * large + rb);
    assert(60 * large - 30 <= small <= 60 * large + 30) by (nonlinear_arith)
        requires
            a == (2 * u) * small + ra,
            b == (2 * (60 * u)) * large + rb,
            b == a + 59 * u,
            0 <= ra < 2 * u,
            0 <= rb < 120 * u,
            u > 0,
    ;
}

} // verus!
