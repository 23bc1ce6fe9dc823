//! Battery voltage to percentage: a piecewise-linear curve over a small table of breakpoints.

use vstd::prelude::*;

use crate::exact;
use crate::exact::Integer;

verus! {

/// A mapping from millivolts to percent, defined by breakpoints.
#[derive(Debug)]
pub struct BatteryCurve {
    /// `(millivolts, percent)`, ascending by voltage.
    points: Vec<(i64, i64)>,
}

/// Whether breakpoints ascend by voltage.
pub open spec fn ascending(points: Seq<(i64, i64)>) -> bool {
    forall|i: int, j: int| 0 <= i <= j < points.len() ==> #[trigger] points[i].0 <= #[trigger] points[j].0
}

/// The breakpoints at one voltage, in their order.
pub open spec fn at_voltage(points: Seq<(i64, i64)>, mv: i64) -> Seq<(i64, i64)>
    decreases points.len(),
{
    if points.len() == 0 {
        Seq::empty()
    } else {
        let rest = at_voltage(points.drop_last(), mv);
        if points.last().0 == mv {
            rest.push(points.last())
        } else {
            rest
        }
    }
}

/// Whether one table is another one sorted by voltage: each voltage has the same breakpoints
/// in the same order.
pub open spec fn sorted_form(points: Seq<(i64, i64)>, sorted: Seq<(i64, i64)>) -> bool {
    &&& sorted.len() == points.len()
    &&& ascending(sorted)
    &&& forall|mv: i64| #[trigger] at_voltage(sorted, mv) == at_voltage(points, mv)
}

/// The first breakpoint, from `i` on, whose voltage is at least `mv`.
pub open spec fn first_reaching(points: Seq<(i64, i64)>, mv: int, i: int) -> int
    decreases points.len() - i,
{
    if i >= points.len() || mv <= points[i].0 {
        i
    } else {
        first_reaching(points, mv, i + 1)
    }
}

/// The value at `mv` on the line through two breakpoints, rounded to the nearest integer.
pub open spec fn on_line(lo: (i64, i64), hi: (i64, i64), mv: int) -> int {
    let width = hi.0 - lo.0;
    exact::rounded(lo.1 * width + (mv - lo.0) * (hi.1 - lo.1), width)
}

/// The percentage at a voltage: that of the first breakpoint below it, that of the last one
/// above it, and in between on the line through the two neighbours.
pub open spec fn percent_at(points: Seq<(i64, i64)>, mv: int) -> int {
    if mv <= points[0].0 {
        points[0].1 as int
    } else if mv >= points.last().0 {
        points.last().1 as int
    } else {
        let i = first_reaching(points, mv, 1);
        on_line(points[i - 1], points[i], mv)
    }
}

/// The table that is anchored on the one captured point, 83 percent at 3770 mV.
pub open spec fn default_points() -> Seq<(i64, i64)> {
    seq![(3300i64, 0i64), (3770i64, 83i64), (4200i64, 100i64)]
}

impl View for BatteryCurve {
    type V = Seq<(i64, i64)>;

    closed spec fn view(&self) -> Seq<(i64, i64)> {
        self.points@
    }
}

impl Default for BatteryCurve {
    fn default() -> (c: BatteryCurve)
        ensures
            c@ == default_points(),
            ascending(c@),
    {
        let mut points: Vec<(i64, i64)> = Vec::new();
        points.push((3300, 0));
        points.push((3770, 83));
        points.push((4200, 100));
        assert(points@ =~= default_points());
        BatteryCurve { points }
    }
}

impl Clone for BatteryCurve {
    fn clone(&self) -> (c: BatteryCurve)
        ensures
            c@ == self@,
    {
        proof {
            use_type_invariant(self);
        }
        let mut points: Vec<(i64, i64)> = Vec::new();
        let mut i: usize = 0;
        while i < self.points.len()
            invariant
                i <= self.points.len(),
                points@ == self.points@.take(i as int),
            decreases self.points.len() - i,
        {
            points.push(self.points[i]);
            i = i + 1;
            assert(points@ =~= self.points@.take(i as int));
        }
        assert(points@ =~= self.points@);
        BatteryCurve { points }
    }
}

proof fn at_voltage_of_sum(a: Seq<(i64, i64)>, b: Seq<(i64, i64)>, mv: i64)
    ensures
        at_voltage(a + b, mv) == at_voltage(a, mv) + at_voltage(b, mv),
    decreases b.len(),
{
    if b.len() == 0 {
        assert(a + b =~= a);
        assert(at_voltage(a, mv) + at_voltage(b, mv) =~= at_voltage(a, mv));
    } else {
        at_voltage_of_sum(a, b.drop_last(), mv);
        assert((a + b).drop_last() =~= a + b.drop_last());
        assert(at_voltage(a + b, mv) =~= at_voltage(a, mv) + at_voltage(b, mv));
    }
}

proof fn at_other_voltage(s: Seq<(i64, i64)>, mv: i64)
    requires
        forall|i: int| 0 <= i < s.len() ==> #[trigger] s[i].0 != mv,
    ensures
        at_voltage(s, mv) == Seq::<(i64, i64)>::empty(),
    decreases s.len(),
{
    if s.len() > 0 {
        assert(s[s.len() - 1].0 != mv);
        assert forall|i: int| 0 <= i < s.drop_last().len() implies #[trigger] s.drop_last()[i].0
            != mv by {
            assert(s[i].0 != mv);
        }
        at_other_voltage(s.drop_last(), mv);
    }
}

/// Putting a breakpoint behind all that are not above it keeps the order at each voltage.
proof fn insertion_is_stable(
    s: Seq<(i64, i64)>,
    at: int,
    x: (i64, i64),
    mv: i64,
)
    requires
        0 <= at <= s.len(),
        forall|i: int| at <= i < s.len() ==> #[trigger] s[i].0 > x.0,
    ensures
        at_voltage(s.insert(at, x), mv) == at_voltage(s.push(x), mv),
{
    let low = s.take(at);
    let high = s.skip(at);
    let one = seq![x];
    assert(s.insert(at, x) =~= low + one + high);
    assert(s =~= low + high);
    assert(s.push(x).drop_last() =~= s);
    at_voltage_of_sum(low + one, high, mv);
    at_voltage_of_sum(low, one, mv);
    at_voltage_of_sum(low, high, mv);
    assert(one.drop_last() =~= Seq::empty());
    assert(at_voltage(one.drop_last(), mv) =~= Seq::<(i64, i64)>::empty());
    if mv == x.0 {
        assert forall|i: int| 0 <= i < high.len() implies #[trigger] high[i].0 != mv by {
            assert(s[i + at].0 > x.0);
        }
        at_other_voltage(high, mv);
    }
    assert(at_voltage(s.insert(at, x), mv) =~= at_voltage(s.push(x), mv));
}

impl BatteryCurve {
    #[verifier::type_invariant]
    spec fn in_order(&self) -> bool {
        ascending(self.points@)
    }

    /// A curve through the given breakpoints, which need not be in order.
    pub fn new(points: Vec<(i64, i64)>) -> (c: BatteryCurve)
        ensures
            sorted_form(points@, c@),
    {
        let mut sorted: Vec<(i64, i64)> = Vec::new();
        let mut n: usize = 0;
        assert(points@.take(0) =~= Seq::empty());
        while n < points.len()
            invariant
                n <= points.len(),
                sorted_form(points@.take(n as int), sorted@),
            decreases points.len() - n,
        {
            let x: (i64, i64) = points[n];
            let mut at: usize = sorted.len();
            while at > 0 && sorted[at - 1].0 > x.0
                invariant
                    at <= sorted.len(),
                    ascending(sorted@),
                    forall|i: int| at <= i < sorted.len() ==> #[trigger] sorted@[i].0 > x.0,
                decreases at,
            {
                at = at - 1;
            }
            let ghost before = sorted@;
            sorted.insert(at, x);
            proof {
                let next = points@.take(n + 1);
                assert(next.drop_last() =~= points@.take(n as int));
                assert(next.last() == x);
                assert forall|mv: i64| #[trigger] at_voltage(sorted@, mv) == at_voltage(
                    next,
                    mv,
                ) by {
                    insertion_is_stable(before, at as int, x, mv);
                    assert(before.push(x).drop_last() =~= before);
                    assert(at_voltage(before, mv) == at_voltage(points@.take(n as int), mv));
                }
                assert forall|i: int, j: int| 0 <= i <= j < sorted@.len() implies #[trigger]
                    sorted@[i].0 <= #[trigger] sorted@[j].0 by {
                    if i < at {
                        assert(sorted@[i] == before[i]);
                        if at > 0 {
                            assert(before[i].0 <= before[at - 1].0);
                        }
                    } else if i > at {
                        assert(sorted@[i] == before[i - 1]);
                    }
                    if j < at {
                        assert(sorted@[j] == before[j]);
                    } else if j > at {
                        assert(sorted@[j] == before[j - 1]);
                    }
                }
            }
            n = n + 1;
        }
        assert(points@.take(n as int) =~= points@);
        BatteryCurve { points: sorted }
    }

    /// The percentage at a voltage.
    pub fn percent(&self, mv: i64) -> (r: i64)
        requires
            self@.len() > 0,
        ensures
            r == percent_at(self@, mv as int),
    {
        proof {
            use_type_invariant(self);
        }
        let n: usize = self.points.len();
        if mv <= self.points[0].0 {
            return self.points[0].1;
        }
        if mv >= self.points[n - 1].0 {
            return self.points[n - 1].1;
        }
        let mut i: usize = 1;
        while self.points[i].0 < mv
            invariant
                1 <= i < n == self.points@.len(),
                self.points@[i - 1].0 < mv < self.points@[n - 1].0,
                first_reaching(self.points@, mv as int, 1) == first_reaching(
                    self.points@,
                    mv as int,
                    i as int,
                ),
            decreases n - i,
        {
            i = i + 1;
        }
        let (lo_mv, lo_pct) = self.points[i - 1];
        let (hi_mv, hi_pct) = self.points[i];
        let width: Integer = Integer::from_i64(hi_mv).minus(&Integer::from_i64(lo_mv));
        let run: Integer = Integer::from_i64(mv).minus(&Integer::from_i64(lo_mv));
        let rise: Integer = Integer::from_i64(hi_pct).minus(&Integer::from_i64(lo_pct));
        let height: Integer = Integer::from_i64(lo_pct).times(&width).plus(&run.times(&rise));
        proof {
            between_neighbours(self.points@[i - 1], self.points@[i as int], mv as int);
        }
        exact::rounded_quotient(&height, &width, i64::MIN, i64::MAX)
    }
}

/// On a line between two breakpoints the value stays between theirs.
proof fn between_neighbours(lo: (i64, i64), hi: (i64, i64), mv: int)
    requires
        lo.0 < mv <= hi.0,
    ensures
        lo.1 <= hi.1 ==> lo.1 <= on_line(lo, hi, mv) <= hi.1,
        lo.1 >= hi.1 ==> hi.1 <= on_line(lo, hi, mv) <= lo.1,
{
    let width = hi.0 - lo.0;
    let run = mv - lo.0;
    let rise = hi.1 - lo.1;
    let height = lo.1 * width + run * rise;
    exact::rounded_exact(lo.1 as int, width);
    exact::rounded_exact(hi.1 as int, width);
    assert(hi.1 * width == lo.1 * width + width * rise) by (nonlinear_arith)
        requires
            rise == hi.1 - lo.1,
    ;
    if rise >= 0 {
        assert(0 <= run * rise <= width * rise) by (nonlinear_arith)
            requires
                0 <= run <= width,
                rise >= 0,
        ;
        exact::rounded_grows(lo.1 * width, height, width);
        exact::rounded_grows(height, hi.1 * width, width);
    }
    if rise <= 0 {
        assert(width * rise <= run * rise <= 0) by (nonlinear_arith)
            requires
                0 <= run <= width,
                rise <= 0,
        ;
        exact::rounded_grows(hi.1 * width, height, width);
        exact::rounded_grows(height, lo.1 * width, width);
    }
}

/// Where the search for the neighbour ends.
proof fn first_reaching_found(points: Seq<(i64, i64)>, mv: int, from: int)
    requires
        1 <= from < points.len(),
        points[from - 1].0 < mv < points.last().0,
    ensures
        from <= first_reaching(points, mv, from) < points.len(),
        points[first_reaching(points, mv, from) - 1].0 < mv <= points[first_reaching(
            points,
            mv,
            from,
        )].0,
    decreases points.len() - from,
{
    if mv > points[from].0 {
        first_reaching_found(points, mv, from + 1);
    }
}

/// Whether percentages never fall from one breakpoint to the next.
pub open spec fn rising(points: Seq<(i64, i64)>) -> bool {
    forall|i: int, j: int| 0 <= i <= j < points.len() ==> #[trigger] points[i].1 <= #[trigger] points[j].1
}

/// Clamping: on a curve whose percentages rise, every voltage gives a percentage between
/// those of the first and the last breakpoint.
pub proof fn law_percent_stays_in_range(points: Seq<(i64, i64)>, mv: int)
    requires
        points.len() > 0,
        ascending(points),
        rising(points),
    ensures
        points[0].1 <= percent_at(points, mv) <= points.last().1,
{
    let n = points.len() as int;
    assert(points[0].1 <= points[n - 1].1);
    if points[0].0 < mv < points.last().0 {
        first_reaching_found(points, mv, 1);
        let i = first_reaching(points, mv, 1);
        between_neighbours(points[i - 1], points[i], mv);
        assert(points[0].1 <= points[i - 1].1);
        assert(points[i - 1].1 <= points[i].1);
        assert(points[i].1 <= points[n - 1].1);
    }
}

/// Monotonicity: on a curve whose percentages rise, a higher voltage never gives a lower
/// percentage.
pub proof fn law_percent_never_falls(points: Seq<(i64, i64)>, low: int, high: int)
    requires
        points.len() > 0,
        ascending(points),
        rising(points),
        low <= high,
    ensures
        percent_at(points, low) <= percent_at(points, high),
{
    let n = points.len() as int;
    law_percent_stays_in_range(points, low);
    law_percent_stays_in_range(points, high);
    if points[0].0 < low && high < points.last().0 {
        first_reaching_found(points, low, 1);
        first_reaching_found(points, high, 1);
        let i = first_reaching(points, low, 1);
        let j = first_reaching(points, high, 1);
        between_neighbours(points[i - 1], points[i], low);
        between_neighbours(points[j - 1], points[j], high);
        assert(points[i - 1].1 <= points[i].1);
        assert(points[j - 1].1 <= points[j].1);
        if i < j {
            assert(points[i].1 <= points[j - 1].1);
        } else if i > j {
            assert(points[j].0 <= points[i - 1].0);
        } else {
            let (lo, hi) = (points[i - 1], points[i]);
            let width = hi.0 - lo.0;
            let rise = hi.1 - lo.1;
            assert((low - lo.0) * rise <= (high - lo.0) * rise) by (nonlinear_arith)
                requires
                    low <= high,
                    rise >= 0,
            ;
            exact::rounded_grows(
                lo.1 * width + (low - lo.0) * rise,
                lo.1 * width + (high - lo.0) * rise,
                width,
            );
        }
    }
}

/// Breakpoints: where voltages differ, the curve goes through every breakpoint.
pub proof fn law_curve_meets_its_breakpoints(points: Seq<(i64, i64)>, k: int)
    requires
        0 <= k < points.len(),
        forall|i: int, j: int|
            0 <= i < j < points.len() ==> #[trigger] points[i].0 < #[trigger] points[j].0,
    ensures
        percent_at(points, points[k].0 as int) == points[k].1,
{
    let n = points.len() as int;
    let mv = points[k].0 as int;
    if 0 < k < n - 1 {
        assert(points[0].0 < points[k].0);
        assert(points[k].0 < points[n - 1].0);
        first_reaching_found(points, mv, 1);
        let i = first_reaching(points, mv, 1);
        assert(i == k) by {
            if i < k {
                assert(points[i].0 < points[k].0);
            }
            if i > k && i - 1 > k {
                assert(points[k].0 < points[i - 1].0);
            }
        }
        let (lo, hi) = (points[k - 1], points[k]);
        let width = hi.0 - lo.0;
        assert(lo.0 < hi.0);
        assert(lo.1 * width + width * (hi.1 - lo.1) == hi.1 * width) by (nonlinear_arith);
        exact::rounded_exact(hi.1 as int, width);
    } else if k == n - 1 && n > 1 {
        assert(points[0].0 < points[k].0);
    }
}

/// The default curve: it gives a percentage for every voltage, never falls, and reproduces
/// the captured point.
pub proof fn law_default_curve(low: int, high: int)
    requires
        low <= high,
    ensures
        0 <= percent_at(default_points(), low) <= percent_at(default_points(), high) <= 100,
        percent_at(default_points(), 3770) == 83,
{
    let points = default_points();
    assert(points[0] == (3300i64, 0i64));
    assert(points[1] == (3770i64, 83i64));
    assert(points[2] == (4200i64, 100i64));
    law_percent_stays_in_range(points, low);
    law_percent_stays_in_range(points, high);
    law_percent_never_falls(points, low, high);
    law_curve_meets_its_breakpoints(points, 1);
}

/// Straight lines: between two neighbouring breakpoints the percentage is the nearest to the
/// straight line through both, halves rounded away from zero.
pub proof fn law_percent_is_nearest_to_the_line(points: Seq<(i64, i64)>, k: int, mv: int)
    requires
        ascending(points),
        0 <= k < points.len() - 1,
        points[k].0 < mv < points[k + 1].0,
    ensures
        ({
            let (lo, hi) = (points[k], points[k + 1]);
            let width = hi.0 - lo.0;
            let line = lo.1 * width + (mv - lo.0) * (hi.1 - lo.1);
            let missed = (percent_at(points, mv) - lo.1) * width - (mv - lo.0) * (hi.1 - lo.1);
            &&& -width <= 2 * missed <= width
            &&& 2 * missed == width ==> line > 0
            &&& 2 * missed == -width ==> line < 0
        }),
{
    let n = points.len() as int;
    assert(points[0].0 <= points[k].0);
    assert(points[k + 1].0 <= points[n - 1].0);
    first_reaching_found(points, mv, 1);
    let i = first_reaching(points, mv, 1);
    assert(i == k + 1) by {
        if i < k + 1 {
            assert(points[i].0 <= points[k].0);
        }
        if i > k + 1 {
            assert(points[k + 1].0 <= points[i - 1].0);
        }
    }
    let (lo, hi) = (points[k], points[k + 1]);
    let width = hi.0 - lo.0;
    let (low, run, rise) = (lo.1 as int, mv - lo.0, hi.1 - lo.1);
    let r = percent_at(points, mv);
    exact::law_rounded_is_nearest(low * width + run * rise, width);
    assert((r - low) * width == r * width - low * width) by (nonlinear_arith);
}

/// Ends: at or below the first voltage the percentage is that of the first breakpoint, at or
/// above the last voltage it is that of the last one, and at a voltage in between that has
/// breakpoints it is that of the first of them.
pub proof fn law_curve_is_flat_beyond_its_ends(points: Seq<(i64, i64)>, mv: int)
    requires
        points.len() > 0,
        ascending(points),
    ensures
        mv <= points[0].0 ==> percent_at(points, mv) == points[0].1,
        mv >= points.last().0 && mv > points[0].0 ==> percent_at(points, mv) == points.last().1,
        forall|k: int|
            0 < k < points.len() && points[k - 1].0 < mv && mv == (#[trigger] points[k]).0 && mv
                < points.last().0 ==> percent_at(points, mv) == points[k].1,
{
    assert forall|k: int|
        0 < k < points.len() && points[k - 1].0 < mv && mv == (#[trigger] points[k]).0 && mv
            < points.last().0 implies percent_at(points, mv) == points[k].1 by {
        assert(points[0].0 <= points[k - 1].0);
        first_reaching_found(points, mv, 1);
        let i = first_reaching(points, mv, 1);
        assert(i == k) by {
            if i < k {
                assert(points[i].0 <= points[k - 1].0);
            }
            if i > k {
                assert(points[k].0 <= points[i - 1].0);
            }
        }
        let (lo, hi) = (points[k - 1], points[k]);
        let width = hi.0 - lo.0;
        assert(lo.1 * width + width * (hi.1 - lo.1) == hi.1 * width) by (nonlinear_arith);
        exact::rounded_exact(hi.1 as int, width);
    }
}

/// The default curve, voltage by voltage: empty at 3300 mV and below, full at 4200 mV and
/// above, and in between on two straight lines that meet at 83 percent and 3770 mV.
pub proof fn law_default_curve_is_two_lines(mv: int)
    ensures
        ({
            let r = percent_at(default_points(), mv);
            &&& mv <= 3300 ==> r == 0
            &&& mv >= 4200 ==> r == 100
            &&& 3300 <= mv <= 3770 ==> -470 < 2 * (470 * r - 83 * (mv - 3300)) <= 470
            &&& 3770 <= mv <= 4200 ==> -430 < 2 * (430 * (r - 83) - 17 * (mv - 3770)) <= 430
        }),
{
    let points = default_points();
    assert(points[0] == (3300i64, 0i64));
    assert(points[1] == (3770i64, 83i64));
    assert(points[2] == (4200i64, 100i64));
    let r = percent_at(points, mv);
    law_default_curve(mv, mv);
    law_curve_is_flat_beyond_its_ends(points, mv);
    if 3300 < mv < 3770 {
        law_percent_is_nearest_to_the_line(points, 0, mv);
        let (a, w) = (points[0].1 as int, points[1].0 - points[0].0);
        let (x, y) = (mv - points[0].0, points[1].1 - points[0].1);
        assert((r - a) * w - x * y == 470 * r - 83 * (mv - 3300)) by (nonlinear_arith)
            requires
                a == 0,
                w == 470,
                x == mv - 3300,
                y == 83,
        ;
        assert(a * w + x * y >= 0) by (nonlinear_arith)
            requires
                a == 0,
                x >= 0,
                y == 83,
        ;
    }
    if 3770 < mv < 4200 {
        law_percent_is_nearest_to_the_line(points, 1, mv);
        let (a, w) = (points[1].1 as int, points[2].0 - points[1].0);
        let (x, y) = (mv - points[1].0, points[2].1 - points[1].1);
        assert((r - a) * w - x * y == 430 * (r - 83) - 17 * (mv - 3770)) by (nonlinear_arith)
            requires
                a == 83,
                w == 430,
                x == mv - 3770,
                y == 17,
        ;
        assert(a * w + x * y >= 0) by (nonlinear_arith)
            requires
                a == 83,
                w == 430,
                x >= 0,
                y == 17,
        ;
    }
}

/// The breakpoints at one voltage are those that a filter leaves.
proof fn at_voltage_is_filter(
    points: Seq<(i64, i64)>,
    mv: i64,
    there: spec_fn((i64, i64)) -> bool,
)
    requires
        forall|p: (i64, i64)| #[trigger] there(p) <==> p.0 == mv,
    ensures
        at_voltage(points, mv) == points.filter(there),
    decreases points.len(),
{
    reveal(Seq::filter);
    if points.len() > 0 {
        at_voltage_is_filter(points.drop_last(), mv, there);
    } else {
        assert(points =~= Seq::empty());
    }
}

proof fn count_is_count_at_voltage(points: Seq<(i64, i64)>, p: (i64, i64))
    ensures
        points.to_multiset().count(p) == at_voltage(points, p.0).to_multiset().count(p),
    decreases points.len(),
{
    broadcast use vstd::seq_lib::group_to_multiset_ensures;

    if points.len() > 0 {
        count_is_count_at_voltage(points.drop_last(), p);
        assert(points =~= points.drop_last().push(points.last()));
    }
}

/// Sorting: a curve has the breakpoints that it was given, each as often as it was given, by
/// ascending voltage, and those at one voltage in the order in which they were given.
pub proof fn law_sorting_keeps_the_breakpoints(
    points: Seq<(i64, i64)>,
    sorted: Seq<(i64, i64)>,
    mv: i64,
    there: spec_fn((i64, i64)) -> bool,
)
    requires
        sorted_form(points, sorted),
        forall|p: (i64, i64)| #[trigger] there(p) <==> p.0 == mv,
    ensures
        sorted.to_multiset() == points.to_multiset(),
        forall|i: int, j: int|
            0 <= i <= j < sorted.len() ==> #[trigger] sorted[i].0 <= #[trigger] sorted[j].0,
        sorted.filter(there) == points.filter(there),
{
    assert forall|p: (i64, i64)|
        #[trigger] sorted.to_multiset().count(p) == points.to_multiset().count(p) by {
        count_is_count_at_voltage(points, p);
        count_is_count_at_voltage(sorted, p);
        assert(at_voltage(sorted, p.0) == at_voltage(points, p.0));
    }
    assert(sorted.to_multiset() =~= points.to_multiset());
    at_voltage_is_filter(points, mv, there);
    at_voltage_is_filter(sorted, mv, there);
    assert(at_voltage(sorted, mv) == at_voltage(points, mv));
}

/// Range: whatever the voltage, the percentage lies between two of the curve's percentages, and
/// so is an `i64`.
pub proof fn law_percent_is_between_breakpoints(points: Seq<(i64, i64)>, mv: int)
    requires
        points.len() > 0,
        ascending(points),
    ensures
        exists|i: int, j: int|
            0 <= i < points.len() && 0 <= j < points.len() && (#[trigger] points[i]).1
                <= percent_at(points, mv) <= (#[trigger] points[j]).1,
        i64::MIN <= percent_at(points, mv) <= i64::MAX,
{
    let n = points.len() as int;
    if mv <= points[0].0 {
        assert(points[0].1 <= percent_at(points, mv) <= points[0].1);
    } else if mv >= points.last().0 {
        assert(points[n - 1].1 <= percent_at(points, mv) <= points[n - 1].1);
    } else {
        first_reaching_found(points, mv, 1);
        let k = first_reaching(points, mv, 1);
        between_neighbours(points[k - 1], points[k], mv);
        if points[k - 1].1 <= points[k].1 {
            assert(points[k - 1].1 <= percent_at(points, mv) <= points[k].1);
        } else {
            assert(points[k].1 <= percent_at(points, mv) <= points[k - 1].1);
        }
    }
}

} // verus!
