//! Tank calibration: the two distances that map a radar reading to a fill level.
//!
//! A level is the radar distance to the liquid surface in centimetres; a smaller distance
//! means a fuller tank.

use vstd::prelude::*;

use crate::decimal;
use crate::decimal::Decimal;
use crate::exact;
use crate::exact::Integer;

verus! {

/// The distances, in centimetres, at which one tank reads full and empty.
#[derive(Clone, Copy, Debug, PartialEq, Eq, Structural)]
pub struct Calibration {
    /// Radar distance at which the tank reads full.
    pub full_dist: Decimal,
    /// Radar distance at which the tank reads empty.
    pub empty_dist: Decimal,
}

/// The fill percentage: how far the level is from empty, as a share of the way from empty to
/// full, rounded to the nearest integer and held between 0 and 100. Where full and empty are
/// the same distance, a level short of it is full and any other is empty.
pub open spec fn fill_percent(full: int, empty: int, level: int) -> int {
    let span = empty - full;
    let part = (empty - level) * 100;
    if span > 0 {
        exact::clamped(exact::rounded(part, span), 0, 100)
    } else if span < 0 {
        exact::clamped(exact::rounded(-part, -span), 0, 100)
    } else if part > 0 {
        100
    } else {
        0
    }
}

/// The whole centimetres from a level to full, rounded to the nearest.
pub open spec fn distance_to_full(full: int, level: int) -> int {
    exact::clamped(
        exact::rounded(level - full, decimal::one()),
        i64::MIN as int,
        i64::MAX as int,
    )
}

/// The calibration that reproduces the captured samples.
pub open spec fn default_calibration() -> Calibration {
    Calibration {
        full_dist: Decimal { negative: false, digits: 4, exp: 1 },
        empty_dist: Decimal { negative: false, digits: 178, exp: 0 },
    }
}

impl Default for Calibration {
    /// Full at 40 cm and empty at 178 cm.
    fn default() -> (c: Calibration)
        ensures
            c == default_calibration(),
    {
        Calibration {
            full_dist: Decimal { negative: false, digits: 4, exp: 1 },
            empty_dist: Decimal { negative: false, digits: 178, exp: 0 },
        }
    }
}

/// Defaults: without a configured calibration a tank is full at 40 cm and empty at 178 cm.
pub proof fn law_default_distances()
    ensures
        default_calibration().full_dist@ == 40 * decimal::one(),
        default_calibration().empty_dist@ == 178 * decimal::one(),
        default_calibration().full_dist.canonical(),
        default_calibration().empty_dist.canonical(),
{
    assert(exact::ten_pow(32769) == 10 * decimal::one());
}

fn smaller(a: i16, b: i16) -> (r: i16)
    ensures
        r <= a,
        r <= b,
        r == a || r == b,
{
    if a < b {
        a
    } else {
        b
    }
}

impl Calibration {
    /// The fill percentage at a level.
    pub fn pct(&self, level_cm: Decimal) -> (r: i64)
        ensures
            r == fill_percent(self.full_dist@, self.empty_dist@, level_cm@),
            0 <= r <= 100,
    {
        let exp: i16 = smaller(smaller(self.full_dist.exp, self.empty_dist.exp), level_cm.exp);
        let full: Integer = self.full_dist.at_scale(exp);
        let empty: Integer = self.empty_dist.at_scale(exp);
        let level: Integer = level_cm.at_scale(exp);
        let span: Integer = empty.minus(&full);
        let part: Integer = empty.minus(&level).times(&Integer::from_i64(100));
        proof {
            let k = exact::ten_pow((exp - decimal::MIN_EXP) as nat);
            decimal::scaled_down(self.full_dist, exp as int, decimal::MIN_EXP as int);
            decimal::scaled_down(self.empty_dist, exp as int, decimal::MIN_EXP as int);
            decimal::scaled_down(level_cm, exp as int, decimal::MIN_EXP as int);
            law_percent_in_any_unit(full@, empty@, level@, k);
        }
        if span.is_zero() {
            if part.is_zero() || part.is_negative() {
                0
            } else {
                100
            }
        } else if span.is_negative() {
            exact::rounded_quotient(&part.negated(), &span.negated(), 0, 100)
        } else {
            exact::rounded_quotient(&part, &span, 0, 100)
        }
    }

    /// The distance that the level still has to fall to reach full.
    pub fn lvl_to_full(&self, level_cm: Decimal) -> (r: i64)
        ensures
            r == distance_to_full(self.full_dist@, level_cm@),
    {
        let exp: i16 = smaller(smaller(self.full_dist.exp, level_cm.exp), 0);
        let full: Integer = self.full_dist.at_scale(exp);
        let level: Integer = level_cm.at_scale(exp);
        let unit: Integer = exact::power_of_ten((-(exp as i32)) as u32);
        let gap: Integer = level.minus(&full);
        proof {
            let k = exact::ten_pow((exp - decimal::MIN_EXP) as nat);
            decimal::scaled_down(self.full_dist, exp as int, decimal::MIN_EXP as int);
            decimal::scaled_down(level_cm, exp as int, decimal::MIN_EXP as int);
            exact::ten_pow_sum((-exp) as nat, (exp - decimal::MIN_EXP) as nat);
            exact::ten_pow_sum((exp - decimal::MIN_EXP) as nat, 0);
            let (f, l) = (full@, level@);
            assert(l * k - f * k == (l - f) * k) by (nonlinear_arith);
            exact::rounded_in_other_units(gap@, unit@, k);
        }
        exact::rounded_quotient(&gap, &unit, i64::MIN, i64::MAX)
    }
}

/// Units: the fill percentage is the same whatever unit the distances are counted in.
pub proof fn law_percent_in_any_unit(full: int, empty: int, level: int, k: int)
    requires
        k > 0,
    ensures
        fill_percent(full * k, empty * k, level * k) == fill_percent(full, empty, level),
{
    let span = empty - full;
    let part = (empty - level) * 100;
    assert(empty * k - full * k == span * k) by (nonlinear_arith)
        requires
            span == empty - full,
    ;
    assert((empty * k - level * k) * 100 == part * k) by (nonlinear_arith)
        requires
            part == (empty - level) * 100,
    ;
    assert(span * k > 0 <==> span > 0) by (nonlinear_arith)
        requires
            k > 0,
    ;
    assert(span * k < 0 <==> span < 0) by (nonlinear_arith)
        requires
            k > 0,
    ;
    assert(part * k > 0 <==> part > 0) by (nonlinear_arith)
        requires
            k > 0,
    ;
    if span > 0 {
        exact::rounded_in_other_units(part, span, k);
    } else if span < 0 {
        exact::rounded_in_other_units(-part, -span, k);
        assert((-part) * k == -(part * k)) by (nonlinear_arith);
        assert((-span) * k == -(span * k)) by (nonlinear_arith);
    }
}

/// Fullness: of two levels in one tank, the smaller distance is at least as full, and no
/// further from full.
pub proof fn law_smaller_distance_is_fuller(full: int, empty: int, near: int, far: int)
    requires
        full < empty,
        near <= far,
    ensures
        fill_percent(full, empty, near) >= fill_percent(full, empty, far),
        distance_to_full(full, near) <= distance_to_full(full, far),
{
    exact::rounded_grows((empty - far) * 100, (empty - near) * 100, empty - full);
    exact::ten_pow_sum(32768, 0);
    exact::rounded_grows(near - full, far - full, decimal::one());
}

/// End points: a level at the full distance or short of it reads 100, and one at the empty
/// distance or beyond it reads 0; at the full distance nothing is left to fall.
pub proof fn law_end_points(full: int, empty: int, level: int)
    requires
        full < empty,
    ensures
        level <= full ==> fill_percent(full, empty, level) == 100,
        level >= empty ==> fill_percent(full, empty, level) == 0,
        distance_to_full(full, full) == 0,
{
    let span = empty - full;
    exact::rounded_exact(100, span);
    exact::rounded_exact(0, span);
    if level <= full {
        exact::rounded_grows(100 * span, (empty - level) * 100, span);
    }
    if level >= empty {
        exact::rounded_grows((empty - level) * 100, 0 * span, span);
    }
    exact::ten_pow_sum(32768, 0);
    exact::rounded_exact(0, decimal::one());
    assert(0 * decimal::one() == 0);
}

/// Shares: between the two distances the percentage is the nearest to how much of the way from
/// empty to full the level has come, halves rounded up; it does not matter on which side of
/// full empty lies.
pub proof fn law_percent_is_the_nearest_share(full: int, empty: int, level: int)
    ensures
        full <= level <= empty && full < empty ==> {
            let missed = 100 * (empty - level) - fill_percent(full, empty, level) * (empty - full);
            -(empty - full) <= 2 * missed < empty - full
        },
        empty <= level <= full && empty < full ==> {
            let missed = 100 * (level - empty) - fill_percent(full, empty, level) * (full - empty);
            -(full - empty) <= 2 * missed < full - empty
        },
        empty < full && level <= empty ==> fill_percent(full, empty, level) == 0,
        empty < full && level >= full ==> fill_percent(full, empty, level) == 100,
        empty == full && level < empty ==> fill_percent(full, empty, level) == 100,
        empty == full && level >= empty ==> fill_percent(full, empty, level) == 0,
{
    let span = if full < empty {
        empty - full
    } else {
        full - empty
    };
    let part = if full < empty {
        100 * (empty - level)
    } else {
        100 * (level - empty)
    };
    if span > 0 {
        exact::law_rounded_is_nearest(part, span);
        exact::rounded_exact(100, span);
        exact::rounded_exact(0, span);
        assert(0 * span == 0);
        if part >= 0 {
            exact::rounded_grows(0, part, span);
        } else {
            exact::rounded_grows(part, 0, span);
        }
        if part <= 100 * span {
            exact::rounded_grows(part, 100 * span, span);
        } else {
            exact::rounded_grows(100 * span, part, span);
        }
        exact::law_clamped_is_within(exact::rounded(part, span), 0, 100);
    }
}

/// Distances: the distance to full is the nearest whole number of centimetres between the
/// level and the full distance, halves rounded away from zero, as far as an `i64` can hold it.
pub proof fn law_distance_is_the_nearest(full: int, level: int)
    ensures
        ({
            let one = decimal::one();
            let r = distance_to_full(full, level);
            let missed = r * one - (level - full);
            &&& -one <= 2 * missed <= one || r == i64::MIN || r == i64::MAX
            &&& r == i64::MAX && 2 * missed < -one ==> level > full
            &&& r == i64::MIN && 2 * missed > one ==> level < full
            &&& r != i64::MIN && r != i64::MAX && 2 * missed == one ==> level > full
            &&& r != i64::MIN && r != i64::MAX && 2 * missed == -one ==> level < full
            &&& 2 * missed > one ==> r == i64::MIN
            &&& 2 * missed < -one ==> r == i64::MAX
        }),
{
    let one = decimal::one();
    let gap = level - full;
    let q = exact::rounded(gap, one);
    exact::ten_pow_sum(32768, 0);
    exact::law_rounded_is_nearest(gap, one);
    let (lo, hi) = (i64::MIN as int, i64::MAX as int);
    if q < lo {
        assert(lo * one >= (q + 1) * one) by (nonlinear_arith)
            requires
                lo >= q + 1,
                one > 0,
        ;
        assert((q + 1) * one == q * one + one) by (nonlinear_arith);
        if level >= full {
            exact::rounded_exact(0, one);
            exact::rounded_grows(0, gap, one);
        }
    }
    if q > hi {
        assert(hi * one <= (q - 1) * one) by (nonlinear_arith)
            requires
                hi <= q - 1,
                one > 0,
        ;
        assert((q - 1) * one == q * one - one) by (nonlinear_arith);
        if level <= full {
            exact::rounded_exact(0, one);
            exact::rounded_grows(gap, 0, one);
        }
    }
}

} // verus!
