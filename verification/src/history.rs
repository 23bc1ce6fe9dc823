//! Reading history, and what is projected from it: pump-out detection and the days left
//! until the tank is full.

use vstd::prelude::*;

use crate::decimal;
use crate::decimal::Decimal;
use crate::exact;
use crate::exact::Integer;

verus! {

/// One stored reading.
#[derive(Clone, Debug, PartialEq)]
pub struct ReadingRecord {
    /// When the reading was received (RFC 3339 with an offset).
    pub ts: String,
    /// Radar distance to the surface in centimetres.
    pub lvl: Decimal,
    /// Battery percentage.
    pub bat: i64,
}

/// What a [`ReadingRecord`] holds.
pub struct RecordView {
    pub ts: Seq<char>,
    pub lvl: Decimal,
    pub bat: i64,
}

impl View for ReadingRecord {
    type V = RecordView;

    open spec fn view(&self) -> RecordView {
        RecordView { ts: self.ts@, lvl: self.lvl, bat: self.bat }
    }
}

/// What the records of a history hold.
pub open spec fn records(history: Seq<ReadingRecord>) -> Seq<RecordView> {
    history.map_values(|r: ReadingRecord| r@)
}

/// Copies a history from a record on.
pub fn copied_from(history: &Vec<ReadingRecord>, from: usize) -> (out: Vec<ReadingRecord>)
    requires
        from <= history@.len(),
    ensures
        records(out@) == records(history@).skip(from as int),
{
    let mut out: Vec<ReadingRecord> = Vec::new();
    let mut i: usize = from;
    while i < history.len()
        invariant
            from <= i <= history@.len(),
            records(out@) == records(history@).subrange(from as int, i as int),
        decreases history@.len() - i,
    {
        let ghost before = records(out@);
        let r = &history[i];
        out.push(ReadingRecord { ts: r.ts.clone(), lvl: r.lvl, bat: r.bat });
        assert(records(out@) =~= before.push(history@[i as int]@));
        i = i + 1;
        assert(records(out@) =~= records(history@).subrange(from as int, i as int));
    }
    assert(records(out@) =~= records(history@).skip(from as int));
    out
}

/// Whether the fullness fell from one reading to the next by at least the threshold, in
/// percentage points.
pub open spec fn pumped_out(prev_pct: int, new_pct: int, drop_threshold_pct: int) -> bool {
    prev_pct - new_pct >= drop_threshold_pct
}

/// Detects a pump-out: emptying the tank shows up as a sharp fall in fullness.
pub fn is_pump_out(prev_pct: i64, new_pct: i64, drop_threshold_pct: i64) -> (r: bool)
    ensures
        r == pumped_out(prev_pct as int, new_pct as int, drop_threshold_pct as int),
        r <==> prev_pct - new_pct >= drop_threshold_pct,
{
    prev_pct as i128 - new_pct as i128 >= drop_threshold_pct as i128
}

/// The seconds since the epoch that `chrono` reads from an RFC 3339 timestamp, if it is one.
pub uninterp spec fn rfc3339_epoch(ts: Seq<char>) -> Option<i64>;

/// Calls `chrono::DateTime::parse_from_rfc3339` and asks what it parsed for its
/// `timestamp`. Both depend on the text alone; which texts are timestamps, and of which
/// instants, is left to the name.
#[verifier::external_body]
fn parse_ts(ts: &str) -> (r: Option<i64>)
    ensures
        r == rfc3339_epoch(ts@),
{
    match chrono::DateTime::parse_from_rfc3339(ts) {
        Ok(instant) => Some(instant.timestamp()),
        Err(_) => None,
    }
}

/// The sum of numbers.
pub open spec fn total(s: Seq<int>) -> int
    decreases s.len(),
{
    if s.len() == 0 {
        0
    } else {
        total(s.drop_last()) + s.last()
    }
}

/// How far a number is from the mean of all, times how many there are.
pub open spec fn deviation(s: Seq<int>, i: int) -> int {
    s.len() * s[i] - total(s)
}

/// The sum, over the first `n` pairs, of the product of their deviations.
pub open spec fn codeviation(xs: Seq<int>, ys: Seq<int>, n: int) -> int
    decreases n,
{
    if n <= 0 {
        0
    } else {
        codeviation(xs, ys, n - 1) + deviation(xs, n - 1) * deviation(ys, n - 1)
    }
}

/// How spread out numbers are: zero where they are all the same.
pub open spec fn spread(xs: Seq<int>) -> int {
    codeviation(xs, xs, xs.len() as int)
}

/// How the second numbers go with the first. Over [`spread`] it is the slope of the line
/// fitted to the pairs by least squares.
pub open spec fn trend(xs: Seq<int>, ys: Seq<int>) -> int {
    codeviation(xs, ys, xs.len() as int)
}

/// The whole days, from the last level, until a level that falls at the fitted rate reaches
/// full. `times` are in seconds; `levels` and `full` are in one unit. There is no such
/// number where all times are the same or the level does not fall.
pub open spec fn days_to_full(times: Seq<int>, levels: Seq<int>, full: int) -> Option<i64> {
    if spread(times) == 0 || trend(times, levels) >= 0 {
        None
    } else {
        Some(
            exact::clamped(
                exact::rounded(
                    (levels.last() - full) * spread(times),
                    86400 * -trend(times, levels),
                ),
                0,
                i64::MAX as int,
            ) as i64,
        )
    }
}

/// Machine integers as numbers.
pub open spec fn as_numbers(s: Seq<i64>) -> Seq<int> {
    s.map_values(|t: i64| t as int)
}

/// The values of decimals.
pub open spec fn as_values(s: Seq<Decimal>) -> Seq<int> {
    s.map_values(|d: Decimal| d@)
}

/// The numbers that unbounded integers hold.
spec fn numbers(s: Seq<Integer>) -> Seq<int> {
    s.map_values(|n: Integer| n@)
}

fn sum(s: &Vec<Integer>) -> (r: Integer)
    ensures
        r@ == total(numbers(s@)),
{
    let mut r: Integer = Integer::from_i64(0);
    let mut i: usize = 0;
    let ghost all = numbers(s@);
    assert(all.take(0) =~= Seq::empty());
    while i < s.len()
        invariant
            i <= s.len(),
            all == numbers(s@),
            r@ == total(all.take(i as int)),
        decreases s.len() - i,
    {
        assert(all.take(i + 1).drop_last() =~= all.take(i as int));
        r = r.plus(&s[i]);
        i = i + 1;
    }
    assert(all.take(i as int) =~= all);
    r
}

fn deviation_at(s: &Vec<Integer>, total: &Integer, i: usize) -> (r: Integer)
    requires
        i < s.len(),
        total@ == self::total(numbers(s@)),
    ensures
        r@ == deviation(numbers(s@), i as int),
{
    let n: Integer = Integer::from_parts(false, s.len() as u64);
    n.times(&s[i]).minus(total)
}

fn codeviation_of(xs: &Vec<Integer>, ys: &Vec<Integer>) -> (r: Integer)
    requires
        xs.len() == ys.len(),
    ensures
        r@ == trend(numbers(xs@), numbers(ys@)),
{
    let total_x: Integer = sum(xs);
    let total_y: Integer = sum(ys);
    let mut r: Integer = Integer::from_i64(0);
    let mut i: usize = 0;
    while i < xs.len()
        invariant
            i <= xs.len() == ys.len(),
            total_x@ == total(numbers(xs@)),
            total_y@ == total(numbers(ys@)),
            r@ == codeviation(numbers(xs@), numbers(ys@), i as int),
        decreases xs.len() - i,
    {
        let dx: Integer = deviation_at(xs, &total_x, i);
        let dy: Integer = deviation_at(ys, &total_y, i);
        r = r.plus(&dx.times(&dy));
        i = i + 1;
    }
    r
}

fn smallest_exponent(levels: &[Decimal], other: i16) -> (r: i16)
    ensures
        r <= other,
        forall|i: int| 0 <= i < levels@.len() ==> r <= (#[trigger] levels@[i]).exp,
{
    let mut r: i16 = other;
    let mut i: usize = 0;
    while i < levels.len()
        invariant
            i <= levels@.len(),
            r <= other,
            forall|j: int| 0 <= j < i ==> r <= (#[trigger] levels@[j]).exp,
        decreases levels@.len() - i,
    {
        if levels[i].exp < r {
            r = levels[i].exp;
        }
        i = i + 1;
    }
    r
}

proof fn total_in_other_units(s: Seq<int>, k: int)
    ensures
        total(s.map_values(|v: int| v * k)) == total(s) * k,
    decreases s.len(),
{
    let t = s.map_values(|v: int| v * k);
    if s.len() == 0 {
        assert(0 * k == 0);
    } else {
        assert(t.drop_last() =~= s.drop_last().map_values(|v: int| v * k));
        total_in_other_units(s.drop_last(), k);
        assert((total(s.drop_last()) + s.last()) * k == total(s.drop_last()) * k + s.last() * k)
            by (nonlinear_arith);
    }
}

proof fn trend_in_other_units(xs: Seq<int>, ys: Seq<int>, k: int, n: int)
    requires
        0 <= n <= xs.len() == ys.len(),
    ensures
        codeviation(xs, ys.map_values(|v: int| v * k), n) == codeviation(xs, ys, n) * k,
    decreases n,
{
    let zs = ys.map_values(|v: int| v * k);
    if n > 0 {
        trend_in_other_units(xs, ys, k, n - 1);
        total_in_other_units(ys, k);
        let c = codeviation(xs, ys, n - 1);
        let dx = deviation(xs, n - 1);
        let dy = deviation(ys, n - 1);
        let y = ys[n - 1];
        let count = ys.len() as int;
        let t = total(ys);
        assert(count * (y * k) - t * k == (count * y - t) * k) by (nonlinear_arith);
        assert(dx * (dy * k) + c * k == (c + dx * dy) * k) by (nonlinear_arith);
    } else {
        assert(0 * k == 0);
    }
}

/// Projects the days to full from when each level was read, in seconds.
pub fn project_days(times: &[i64], levels: &[Decimal], full_dist: Decimal) -> (r: Option<i64>)
    requires
        times@.len() == levels@.len(),
    ensures
        r == days_to_full(as_numbers(times@), as_values(levels@), full_dist@),
{
    let exp: i16 = smallest_exponent(levels, full_dist.exp);
    let mut xs: Vec<Integer> = Vec::new();
    let mut ys: Vec<Integer> = Vec::new();
    let mut i: usize = 0;
    while i < times.len()
        invariant
            i <= times@.len() == levels@.len(),
            xs.len() == i,
            ys.len() == i,
            forall|j: int| 0 <= j < levels@.len() ==> exp <= (#[trigger] levels@[j]).exp,
            forall|j: int| 0 <= j < i ==> (#[trigger] xs@[j])@ == times@[j],
            forall|j: int| 0 <= j < i ==> (#[trigger] ys@[j])@ == levels@[j].scaled(exp as int),
        decreases times@.len() - i,
    {
        xs.push(Integer::from_i64(times[i]));
        ys.push(levels[i].at_scale(exp));
        i = i + 1;
    }
    let ghost k = exact::ten_pow((exp - decimal::MIN_EXP) as nat);
    let spread: Integer = codeviation_of(&xs, &xs);
    let trend: Integer = codeviation_of(&xs, &ys);
    proof {
        let fine = as_values(levels@);
        assert(numbers(xs@) =~= as_numbers(times@));
        decimal::scaled_down(full_dist, exp as int, decimal::MIN_EXP as int);
        assert(fine =~= numbers(ys@).map_values(|v: int| v * k)) by {
            assert forall|j: int| 0 <= j < fine.len() implies fine[j] == #[trigger] numbers(
                ys@,
            )[j] * k by {
                decimal::scaled_down(levels@[j], exp as int, decimal::MIN_EXP as int);
                assert(ys@[j]@ == levels@[j].scaled(exp as int));
            }
        }
        trend_in_other_units(numbers(xs@), numbers(ys@), k, xs@.len() as int);
        assert(trend@ * k < 0 <==> trend@ < 0) by (nonlinear_arith)
            requires
                k >= 1,
        ;
    }
    if spread.is_zero() || !trend.is_negative() {
        return None;
    }
    let n: usize = times.len();
    if n == 0 {
        assert(spread@ == 0);
        return None;
    }
    let gap: Integer = levels[n - 1].at_scale(exp).minus(&full_dist.at_scale(exp));
    let above: Integer = gap.times(&spread);
    let below: Integer = Integer::from_i64(86400).times(&trend.negated());
    proof {
        exact::rounded_in_other_units(above@, below@, k);
        decimal::scaled_down(levels@[n - 1], exp as int, decimal::MIN_EXP as int);
        let (l, f) = (levels@[n - 1].scaled(exp as int), full_dist.scaled(exp as int));
        let (s, t) = (spread@, trend@);
        assert((l * k - f * k) * s == ((l - f) * s) * k) by (nonlinear_arith);
        assert(86400 * -(t * k) == (86400 * -t) * k) by (nonlinear_arith);
    }
    Some(exact::rounded_quotient(&above, &below, 0, i64::MAX))
}

/// The instants of a history, where every record has one.
pub open spec fn instants(history: Seq<RecordView>) -> Option<Seq<i64>>
    decreases history.len(),
{
    if history.len() == 0 {
        Some(Seq::empty())
    } else {
        match (instants(history.drop_last()), rfc3339_epoch(history.last().ts)) {
            (Some(earlier), Some(t)) => Some(earlier.push(t)),
            _ => None,
        }
    }
}

/// The levels of a history.
pub open spec fn levels(history: Seq<RecordView>) -> Seq<Decimal> {
    history.map_values(|r: RecordView| r.lvl)
}

/// The days left that a history projects: none where a timestamp cannot be read.
pub open spec fn projected(history: Seq<RecordView>, full: int) -> Option<i64> {
    match instants(history) {
        Some(times) => days_to_full(as_numbers(times), as_values(levels(history)), full),
        None => None,
    }
}

/// One record that cannot be read is enough.
proof fn instants_need_every_record(history: Seq<RecordView>, n: int)
    requires
        0 <= n <= history.len(),
        instants(history.take(n)) is None,
    ensures
        instants(history) is None,
    decreases history.len() - n,
{
    if n < history.len() {
        assert(history.take(n + 1).drop_last() =~= history.take(n));
        instants_need_every_record(history, n + 1);
    } else {
        assert(history.take(n) =~= history);
    }
}

proof fn instants_length(history: Seq<RecordView>)
    ensures
        instants(history) matches Some(times) ==> times.len() == history.len(),
    decreases history.len(),
{
    if history.len() > 0 {
        instants_length(history.drop_last());
    }
}

/// Projects the number of days until the tank is full, from a least-squares fit of distance
/// against time over the history.
pub fn days_left(history: &[ReadingRecord], full_dist: Decimal) -> (r: Option<i64>)
    ensures
        r == projected(records(history@), full_dist@),
        r matches Some(days) ==> days >= 0,
{
    let ghost all = records(history@);
    let mut times: Vec<i64> = Vec::new();
    let mut lvls: Vec<Decimal> = Vec::new();
    let mut i: usize = 0;
    assert(all.take(0) =~= Seq::empty());
    while i < history.len()
        invariant
            i <= history@.len() == all.len(),
            all == records(history@),
            instants(all.take(i as int)) == Some(times@),
            lvls@ == levels(all.take(i as int)),
        decreases history@.len() - i,
    {
        let parsed: Option<i64> = parse_ts(history[i].ts.as_str());
        proof {
            assert(all.take(i + 1).drop_last() =~= all.take(i as int));
            assert(all.take(i + 1).last() == history@[i as int]@);
        }
        match parsed {
            Some(t) => {
                times.push(t);
                lvls.push(history[i].lvl);
                assert(lvls@ =~= levels(all.take(i + 1)));
            },
            None => {
                proof {
                    instants_need_every_record(all, i + 1);
                }
                return None;
            },
        }
        i = i + 1;
    }
    assert(all.take(i as int) =~= all);
    proof {
        instants_length(all);
    }
    project_days(times.as_slice(), lvls.as_slice(), full_dist)
}

/// The products of pairs.
spec fn products(xs: Seq<int>, ys: Seq<int>) -> Seq<int> {
    Seq::new(xs.len(), |i: int| xs[i] * ys[i])
}

/// How pairs go together, over all pairs of pairs.
spec fn joint(xs: Seq<int>, ys: Seq<int>) -> int {
    xs.len() * total(products(xs, ys)) - total(xs) * total(ys)
}

/// The sum, over the first `n` pairs, of their products with the distances to one more pair.
spec fn steps(xs: Seq<int>, ys: Seq<int>, x: int, y: int, n: int) -> int
    decreases n,
{
    if n <= 0 {
        0
    } else {
        steps(xs, ys, x, y, n - 1) + (x - xs[n - 1]) * (y - ys[n - 1])
    }
}

proof fn codeviation_expanded(xs: Seq<int>, ys: Seq<int>, n: int)
    requires
        0 <= n <= xs.len() == ys.len(),
    ensures
        codeviation(xs, ys, n) == xs.len() * xs.len() * total(products(xs, ys).take(n)) - xs.len()
            * total(ys) * total(xs.take(n)) - xs.len() * total(xs) * total(ys.take(n)) + n
            * total(xs) * total(ys),
    decreases n,
{
    let ps = products(xs, ys);
    let c = xs.len() as int;
    let (tx, ty) = (total(xs), total(ys));
    if n > 0 {
        codeviation_expanded(xs, ys, n - 1);
        assert(ps.take(n).drop_last() =~= ps.take(n - 1));
        assert(xs.take(n).drop_last() =~= xs.take(n - 1));
        assert(ys.take(n).drop_last() =~= ys.take(n - 1));
        let (x, y) = (xs[n - 1], ys[n - 1]);
        let (a, b, p) = (total(xs.take(n - 1)), total(ys.take(n - 1)), total(ps.take(n - 1)));
        let m = n - 1;
        let (u, v) = (c * x, c * y);
        assert((u - tx) * (v - ty) == u * v - u * ty - tx * v + tx * ty) by (nonlinear_arith);
        assert((c * x) * (c * y) == c * c * (x * y)) by (nonlinear_arith);
        assert((c * x) * ty == c * ty * x) by (nonlinear_arith);
        assert(tx * (c * y) == c * tx * y) by (nonlinear_arith);
        assert(c * c * (p + x * y) == c * c * p + c * c * (x * y)) by (nonlinear_arith);
        assert(c * ty * (a + x) == c * ty * a + c * ty * x) by (nonlinear_arith);
        assert(c * tx * (b + y) == c * tx * b + c * tx * y) by (nonlinear_arith);
        assert((m + 1) * tx * ty == m * tx * ty + tx * ty) by (nonlinear_arith);
    } else {
        assert(ps.take(0) =~= Seq::empty());
        assert(xs.take(0) =~= Seq::empty());
        assert(ys.take(0) =~= Seq::empty());
        assert(0 * tx * ty == 0) by (nonlinear_arith);
        assert(c * c * 0 == 0) by (nonlinear_arith);
        assert(c * ty * 0 == 0) by (nonlinear_arith);
        assert(c * tx * 0 == 0) by (nonlinear_arith);
    }
}

proof fn trend_is_joint(xs: Seq<int>, ys: Seq<int>)
    requires
        xs.len() == ys.len(),
    ensures
        trend(xs, ys) == xs.len() * joint(xs, ys),
{
    let n = xs.len() as int;
    codeviation_expanded(xs, ys, n);
    assert(products(xs, ys).take(n) =~= products(xs, ys));
    assert(xs.take(n) =~= xs);
    assert(ys.take(n) =~= ys);
    let (tx, ty, p) = (total(xs), total(ys), total(products(xs, ys)));
    assert(n * n * p - n * ty * tx - n * tx * ty + n * tx * ty == n * (n * p - tx * ty))
        by (nonlinear_arith);
}

proof fn steps_expanded(xs: Seq<int>, ys: Seq<int>, x: int, y: int, n: int)
    requires
        0 <= n <= xs.len() == ys.len(),
    ensures
        steps(xs, ys, x, y, n) == total(products(xs, ys).take(n)) + n * x * y - total(xs.take(n))
            * y - total(ys.take(n)) * x,
    decreases n,
{
    let ps = products(xs, ys);
    if n > 0 {
        steps_expanded(xs, ys, x, y, n - 1);
        assert(ps.take(n).drop_last() =~= ps.take(n - 1));
        assert(xs.take(n).drop_last() =~= xs.take(n - 1));
        assert(ys.take(n).drop_last() =~= ys.take(n - 1));
        let (u, v) = (xs[n - 1], ys[n - 1]);
        let (a, b) = (total(xs.take(n - 1)), total(ys.take(n - 1)));
        let m = n - 1;
        assert((x - u) * (y - v) == x * y - u * y - v * x + u * v) by (nonlinear_arith);
        assert((m + 1) * x * y == m * x * y + x * y) by (nonlinear_arith);
        assert((a + u) * y == a * y + u * y) by (nonlinear_arith);
        assert((b + v) * x == b * x + v * x) by (nonlinear_arith);
    } else {
        assert(ps.take(0) =~= Seq::empty());
        assert(xs.take(0) =~= Seq::empty());
        assert(ys.take(0) =~= Seq::empty());
        assert(0 * x * y == 0) by (nonlinear_arith);
    }
}

/// One more pair adds its steps from all the others.
proof fn joint_grows_by_steps(xs: Seq<int>, ys: Seq<int>)
    requires
        xs.len() == ys.len(),
        xs.len() > 0,
    ensures
        joint(xs, ys) == joint(xs.drop_last(), ys.drop_last()) + steps(
            xs.drop_last(),
            ys.drop_last(),
            xs.last(),
            ys.last(),
            xs.len() - 1,
        ),
{
    let (us, vs) = (xs.drop_last(), ys.drop_last());
    let (x, y) = (xs.last(), ys.last());
    let n = us.len() as int;
    steps_expanded(us, vs, x, y, n);
    assert(us.take(n) =~= us);
    assert(vs.take(n) =~= vs);
    assert(products(us, vs).take(n) =~= products(us, vs));
    assert(products(xs, ys).drop_last() =~= products(us, vs));
    let (a, b, p) = (total(us), total(vs), total(products(us, vs)));
    let xy = x * y;
    assert((n + 1) * (p + xy) == n * p + n * xy + p + xy) by (nonlinear_arith);
    assert((a + x) * (b + y) == a * b + a * y + b * x + x * y) by (nonlinear_arith);
    assert(n * (x * y) == n * x * y) by (nonlinear_arith);
}

/// Whether the second numbers never fall while the first ones rise.
pub open spec fn never_falls(xs: Seq<int>, ys: Seq<int>) -> bool {
    forall|i: int, j: int|
        0 <= i < xs.len() && 0 <= j < xs.len() && #[trigger] xs[i] <= #[trigger] xs[j] ==> ys[i]
            <= ys[j]
}

proof fn steps_not_negative(xs: Seq<int>, ys: Seq<int>, n: int)
    requires
        never_falls(xs, ys),
        0 <= n < xs.len() == ys.len(),
    ensures
        steps(xs.drop_last(), ys.drop_last(), xs.last(), ys.last(), n) >= 0,
    decreases n,
{
    if n > 0 {
        steps_not_negative(xs, ys, n - 1);
        let l = xs.len() - 1;
        let (dx, dy) = (xs[l] - xs[n - 1], ys[l] - ys[n - 1]);
        assert(dx >= 0 ==> dy >= 0);
        assert(dx <= 0 ==> dy <= 0);
        assert(dx * dy >= 0) by (nonlinear_arith)
            requires
                dx >= 0 ==> dy >= 0,
                dx <= 0 ==> dy <= 0,
        ;
    }
}

proof fn joint_not_negative(xs: Seq<int>, ys: Seq<int>)
    requires
        never_falls(xs, ys),
        xs.len() == ys.len(),
    ensures
        joint(xs, ys) >= 0,
    decreases xs.len(),
{
    if xs.len() > 0 {
        let (us, vs) = (xs.drop_last(), ys.drop_last());
        assert(never_falls(us, vs)) by {
            assert forall|i: int, j: int|
                0 <= i < us.len() && 0 <= j < us.len() && #[trigger] us[i]
                    <= #[trigger] us[j] implies vs[i] <= vs[j] by {
                assert(xs[i] <= xs[j]);
            }
        }
        joint_not_negative(us, vs);
        steps_not_negative(xs, ys, xs.len() - 1);
        joint_grows_by_steps(xs, ys);
    } else {
        assert(total(products(xs, ys)) == 0);
        assert(0 * total(products(xs, ys)) == 0);
        assert(0 * total(ys) == 0);
    }
}

/// No estimate while emptying: a level that never falls as time goes on projects nothing.
pub proof fn law_no_estimate_unless_filling(times: Seq<int>, levels: Seq<int>, full: int)
    requires
        times.len() == levels.len(),
        never_falls(times, levels),
    ensures
        days_to_full(times, levels, full) is None,
{
    joint_not_negative(times, levels);
    trend_is_joint(times, levels);
    let (n, j) = (times.len() as int, joint(times, levels));
    assert(n * j >= 0) by (nonlinear_arith)
        requires
            n >= 0,
            j >= 0,
    ;
}

/// Squares that add up to nothing are all nothing.
proof fn no_steps_between_equals(xs: Seq<int>, x: int, n: int)
    requires
        0 <= n <= xs.len(),
    ensures
        steps(xs, xs, x, x, n) >= 0,
        steps(xs, xs, x, x, n) == 0 <==> forall|i: int| 0 <= i < n ==> #[trigger] xs[i] == x,
    decreases n,
{
    if n > 0 {
        no_steps_between_equals(xs, x, n - 1);
        let d = x - xs[n - 1];
        assert(d * d >= 0 && (d * d == 0 <==> d == 0)) by (nonlinear_arith);
    }
}

proof fn joint_of_equals(xs: Seq<int>)
    ensures
        joint(xs, xs) >= 0,
        joint(xs, xs) == 0 <==> forall|i: int, j: int|
            0 <= i < xs.len() && 0 <= j < xs.len() ==> #[trigger] xs[i] == #[trigger] xs[j],
    decreases xs.len(),
{
    if xs.len() > 0 {
        let us = xs.drop_last();
        let n = us.len() as int;
        joint_of_equals(us);
        joint_grows_by_steps(xs, xs);
        no_steps_between_equals(us, xs.last(), n);
        if joint(xs, xs) == 0 {
            assert forall|i: int, j: int|
                0 <= i < xs.len() && 0 <= j < xs.len() implies #[trigger] xs[i]
                == #[trigger] xs[j] by {
                if i < n {
                    assert(us[i] == xs.last());
                }
                if j < n {
                    assert(us[j] == xs.last());
                }
            }
        }
        if forall|i: int, j: int|
            0 <= i < xs.len() && 0 <= j < xs.len() ==> #[trigger] xs[i] == #[trigger] xs[j] {
            assert forall|i: int| 0 <= i < n implies #[trigger] us[i] == xs.last() by {
                assert(xs[i] == xs[n]);
            }
            assert forall|i: int, j: int|
                0 <= i < us.len() && 0 <= j < us.len() implies #[trigger] us[i]
                == #[trigger] us[j] by {
                assert(xs[i] == xs[j]);
            }
        }
    } else {
        assert(total(products(xs, xs)) == 0);
        assert(0 * total(products(xs, xs)) == 0);
        assert(0 * total(xs) == 0);
    }
}

/// No estimate from one instant: the times of a history have no spread where they are all
/// the same, and otherwise their spread is positive.
pub proof fn law_spread_needs_two_instants(times: Seq<int>)
    ensures
        spread(times) >= 0,
        spread(times) == 0 <==> forall|i: int, j: int|
            0 <= i < times.len() && 0 <= j < times.len() ==> #[trigger] times[i]
                == #[trigger] times[j],
{
    joint_of_equals(times);
    trend_is_joint(times, times);
    let (n, j) = (times.len() as int, joint(times, times));
    assert(n * j >= 0 && (n * j == 0 <==> n == 0 || j == 0)) by (nonlinear_arith)
        requires
            n >= 0,
            j >= 0,
    ;
}

/// No estimate without history: one reading, or none, projects nothing.
pub proof fn law_no_estimate_without_history(history: Seq<RecordView>, full: int)
    requires
        history.len() < 2,
    ensures
        projected(history, full) is None,
{
    instants_length(history);
    if let Some(times) = instants(history) {
        law_spread_needs_two_instants(as_numbers(times));
    }
}

proof fn total_on_line(xs: Seq<int>, ys: Seq<int>, a: int, p: int, q: int)
    requires
        xs.len() == ys.len(),
        forall|i: int| 0 <= i < xs.len() ==> #[trigger] ys[i] * q == a - p * xs[i],
    ensures
        total(ys) * q == xs.len() * a - p * total(xs),
    decreases xs.len(),
{
    if xs.len() > 0 {
        let (us, vs) = (xs.drop_last(), ys.drop_last());
        assert forall|i: int| 0 <= i < us.len() implies #[trigger] vs[i] * q == a - p * us[i] by {
            assert(ys[i] * q == a - p * xs[i]);
        }
        total_on_line(us, vs, a, p, q);
        let n = us.len() as int;
        let (x, y, tx, ty) = (xs.last(), ys.last(), total(us), total(vs));
        assert(ys[n] * q == a - p * xs[n]);
        assert((ty + y) * q == ty * q + y * q) by (nonlinear_arith);
        assert((n + 1) * a == n * a + a) by (nonlinear_arith);
        assert(p * (tx + x) == p * tx + p * x) by (nonlinear_arith);
    } else {
        assert(0 * q == 0 && 0 * a == 0 && p * 0 == 0);
    }
}

proof fn codeviation_on_line(xs: Seq<int>, ys: Seq<int>, a: int, p: int, q: int, n: int)
    requires
        0 <= n <= xs.len() == ys.len(),
        forall|i: int| 0 <= i < xs.len() ==> #[trigger] ys[i] * q == a - p * xs[i],
    ensures
        codeviation(xs, ys, n) * q == -(p * codeviation(xs, xs, n)),
    decreases n,
{
    if n > 0 {
        codeviation_on_line(xs, ys, a, p, q, n - 1);
        total_on_line(xs, ys, a, p, q);
        let c = xs.len() as int;
        let (x, y, tx, ty) = (xs[n - 1], ys[n - 1], total(xs), total(ys));
        let (dx, dy) = (deviation(xs, n - 1), deviation(ys, n - 1));
        let (cx, cy) = (c * x, c * y);
        assert(dy * q == -(p * dx)) by {
            assert((cy - ty) * q == cy * q - ty * q) by (nonlinear_arith);
            assert((c * y) * q == c * (y * q)) by (nonlinear_arith);
            assert(c * (a - p * x) == c * a - c * (p * x)) by (nonlinear_arith);
            assert(c * (p * x) == p * (c * x)) by (nonlinear_arith);
            assert(p * (cx - tx) == p * cx - p * tx) by (nonlinear_arith);
        }
        let (cxy, cxx) = (codeviation(xs, ys, n - 1), codeviation(xs, xs, n - 1));
        let (dxy, dxx) = (dx * dy, dx * dx);
        assert((cxy + dxy) * q == cxy * q + dxy * q) by (nonlinear_arith);
        assert((dx * dy) * q == dx * (dy * q)) by (nonlinear_arith);
        assert(dx * (-(p * dx)) == -(p * (dx * dx))) by (nonlinear_arith);
        assert(p * (cxx + dxx) == p * cxx + p * dxx) by (nonlinear_arith);
    } else {
        assert(0 * q == 0 && p * 0 == 0);
    }
}

/// Steady fill: where the level falls by `p` units in every `q` seconds, the days left are
/// the distance to full over that rate, rounded to the nearest day and not below zero.
pub proof fn law_steady_fill_is_projected(
    times: Seq<int>,
    levels: Seq<int>,
    full: int,
    start: int,
    p: int,
    q: int,
)
    requires
        times.len() == levels.len(),
        p > 0,
        q > 0,
        forall|i: int| 0 <= i < times.len() ==> #[trigger] levels[i] * q == start - p * times[i],
        exists|i: int, j: int|
            0 <= i < times.len() && 0 <= j < times.len() && #[trigger] times[i] != #[trigger] times[j],
    ensures
        days_to_full(times, levels, full) == Some(
            exact::clamped(
                exact::rounded((levels.last() - full) * q, 86400 * p),
                0,
                i64::MAX as int,
            ) as i64,
        ),
{
    let (s, t) = (spread(times), trend(times, levels));
    law_spread_needs_two_instants(times);
    codeviation_on_line(times, levels, start, p, q, times.len() as int);
    assert(s > 0);
    assert(p * s > 0) by (nonlinear_arith)
        requires
            p > 0,
            s > 0,
    ;
    assert(t * q < 0 ==> t < 0) by (nonlinear_arith)
        requires
            q > 0,
    ;
    let gap = levels.last() - full;
    assert(86400 * -t > 0);
    // Both quotients are the same fraction, over t on one side and over p on the other.
    exact::rounded_in_other_units(gap * s, 86400 * -t, q);
    exact::rounded_in_other_units(gap * q, 86400 * p, s);
    assert((gap * s) * q == (gap * q) * s) by (nonlinear_arith);
    assert((86400 * -t) * q == 86400 * -(t * q)) by (nonlinear_arith);
    assert((86400 * p) * s == 86400 * (p * s)) by (nonlinear_arith);
}

/// The sum, over the first `n` pairs, of the squared distances to the line
/// `q * y == p * x + r`, each distance taken `q` times.
pub open spec fn misfit(xs: Seq<int>, ys: Seq<int>, p: int, q: int, r: int, n: int) -> int
    decreases n,
{
    if n <= 0 {
        0
    } else {
        let d = q * ys[n - 1] - p * xs[n - 1] - r;
        misfit(xs, ys, p, q, r, n - 1) + d * d
    }
}

/// The sum of the first `n` deviations.
spec fn drift(s: Seq<int>, n: int) -> int {
    s.len() * total(s.take(n)) - n * total(s)
}

proof fn drift_step(s: Seq<int>, n: int)
    requires
        0 < n <= s.len(),
    ensures
        drift(s, n) == drift(s, n - 1) + deviation(s, n - 1),
{
    assert(s.take(n).drop_last() =~= s.take(n - 1));
    let (c, t, a, x) = (s.len() as int, total(s), total(s.take(n - 1)), s[n - 1]);
    let m = n - 1;
    assert(c * (a + x) == c * a + c * x) by (nonlinear_arith);
    assert((m + 1) * t == m * t + t) by (nonlinear_arith);
}

/// One pair's part in comparing a line with the fitted one.
proof fn misfit_step(f: int, e: int, g: int, k: int, q: int)
    requires
        k * f == q * e + g,
    ensures
        (k * k) * (f * f) >= (q * q) * (e * e) + 2 * q * (e * g),
{
    let h = q * e;
    assert((k * k) * (f * f) == (k * f) * (k * f)) by (nonlinear_arith);
    assert((h + g) * (h + g) == h * h + 2 * (h * g) + g * g) by (nonlinear_arith);
    assert(g * g >= 0) by (nonlinear_arith);
    assert((q * e) * (q * e) == (q * q) * (e * e)) by (nonlinear_arith);
    assert(2 * ((q * e) * g) == 2 * q * (e * g)) by (nonlinear_arith);
}

proof fn misfit_of_other_line(xs: Seq<int>, ys: Seq<int>, p: int, q: int, r: int, n: int)
    requires
        0 <= n <= xs.len() == ys.len(),
    ensures
        ({
            let c = xs.len() as int;
            let (s, t) = (spread(xs), trend(xs, ys));
            let (tx, ty) = (total(xs), total(ys));
            let v = q * t - s * p;
            let u = q * s * ty - s * p * tx - c * s * r;
            ((c * s) * (c * s)) * misfit(xs, ys, p, q, r, n) >= (q * q) * misfit(
                xs,
                ys,
                c * t,
                c * s,
                s * ty - t * tx,
                n,
            ) + 2 * q * (v * (s * codeviation(xs, ys, n) - t * codeviation(xs, xs, n)) + u * (s
                * drift(ys, n) - t * drift(xs, n)))
        }),
    decreases n,
{
    let c = xs.len() as int;
    let (s, t) = (spread(xs), trend(xs, ys));
    let (tx, ty) = (total(xs), total(ys));
    let v = q * t - s * p;
    let u = q * s * ty - s * p * tx - c * s * r;
    let k = c * s;
    if n > 0 {
        misfit_of_other_line(xs, ys, p, q, r, n - 1);
        drift_step(xs, n);
        drift_step(ys, n);
        let (x, y) = (xs[n - 1], ys[n - 1]);
        let (dx, dy) = (deviation(xs, n - 1), deviation(ys, n - 1));
        let f = q * y - p * x - r;
        let e = (c * s) * y - (c * t) * x - (s * ty - t * tx);
        let g = v * dx + u;
        // The fitted line goes through the means, so its distance is made of deviations.
        let (cx, cy) = (c * x, c * y);
        assert(e == s * dy - t * dx) by {
            assert((c * s) * y == s * (c * y)) by (nonlinear_arith);
            assert((c * t) * x == t * (c * x)) by (nonlinear_arith);
            assert(s * (cy - ty) == s * cy - s * ty) by (nonlinear_arith);
            assert(t * (cx - tx) == t * cx - t * tx) by (nonlinear_arith);
        }
        // Both lines differ by a line.
        assert(k * f == q * e + g) by {
            assert(k * f == q * (s * cy) - p * (s * cx) - c * s * r) by {
                assert(k * (q * y - p * x - r) == k * (q * y) - k * (p * x) - k * r)
                    by (nonlinear_arith);
                assert((c * s) * (q * y) == q * (s * (c * y))) by (nonlinear_arith);
                assert((c * s) * (p * x) == p * (s * (c * x))) by (nonlinear_arith);
            }
            assert(q * (s * cy) - p * (s * cx) - c * s * r == q * (s * dy - t * dx) + ((q * t - s
                * p) * dx + (q * s * ty - s * p * tx - c * s * r))) by {
                assert(cy == dy + ty && cx == dx + tx);
                assert(q * (s * (dy + ty)) == q * (s * dy) + q * s * ty) by (nonlinear_arith);
                assert(p * (s * (dx + tx)) == s * p * dx + s * p * tx) by (nonlinear_arith);
                assert(q * (s * dy - t * dx) == q * (s * dy) - q * (t * dx)) by (nonlinear_arith);
                assert((q * t - s * p) * dx == q * (t * dx) - s * p * dx) by (nonlinear_arith);
            }
        }
        misfit_step(f, e, g, k, q);
        let (m0, e0) = (
            misfit(xs, ys, p, q, r, n - 1),
            misfit(xs, ys, c * t, c * s, s * ty - t * tx, n - 1),
        );
        assert((k * k) * (m0 + f * f) == (k * k) * m0 + (k * k) * (f * f)) by (nonlinear_arith);
        assert((q * q) * (e0 + e * e) == (q * q) * e0 + (q * q) * (e * e)) by (nonlinear_arith);
        let (cxy, cxx) = (codeviation(xs, ys, n - 1), codeviation(xs, xs, n - 1));
        let (bx, by) = (drift(xs, n - 1), drift(ys, n - 1));
        let part = v * (s * cxy - t * cxx) + u * (s * by - t * bx);
        let whole = v * (s * (cxy + dx * dy) - t * (cxx + dx * dx)) + u * (s * (by + dy) - t * (bx
            + dx));
        assert(whole == part + e * g) by {
            let w = s * dy - t * dx;
            let (dxy, dxx, sdy, tdx) = (dx * dy, dx * dx, s * dy, t * dx);
            assert(s * (cxy + dxy) == s * cxy + s * dxy) by (nonlinear_arith);
            assert(t * (cxx + dxx) == t * cxx + t * dxx) by (nonlinear_arith);
            assert(s * (dx * dy) == dx * (s * dy)) by (nonlinear_arith);
            assert(t * (dx * dx) == dx * (t * dx)) by (nonlinear_arith);
            assert(dx * (sdy - tdx) == dx * sdy - dx * tdx) by (nonlinear_arith);
            assert(s * (by + dy) == s * by + s * dy) by (nonlinear_arith);
            assert(t * (bx + dx) == t * bx + t * dx) by (nonlinear_arith);
            let (a1, a2, dxw, vdx) = (s * cxy - t * cxx, s * by - t * bx, dx * w, v * dx);
            assert(v * (a1 + dxw) == v * a1 + v * dxw) by (nonlinear_arith);
            assert(u * (a2 + w) == u * a2 + u * w) by (nonlinear_arith);
            assert(v * (dx * w) == w * (v * dx)) by (nonlinear_arith);
            assert(w * (vdx + u) == w * vdx + u * w) by (nonlinear_arith);
        }
        assert(2 * q * (part + e * g) == 2 * q * part + 2 * q * (e * g)) by (nonlinear_arith);
    } else {
        assert(xs.take(0) =~= Seq::empty());
        assert(ys.take(0) =~= Seq::empty());
        assert(drift(xs, 0) == 0) by {
            assert(c * 0 == 0);
            assert(0 * tx == 0);
        }
        assert(drift(ys, 0) == 0) by {
            assert(c * 0 == 0);
            assert(0 * ty == 0);
        }
        assert((k * k) * 0 == 0 && (q * q) * 0 == 0) by (nonlinear_arith);
        assert(s * 0 - t * 0 == 0) by (nonlinear_arith);
        assert(v * 0 + u * 0 == 0) by (nonlinear_arith);
        assert(2 * q * 0 == 0) by (nonlinear_arith);
    }
}

/// Least squares: no line `q * y == p * x + r` is closer to the readings, in the sum of the
/// squared distances, than the line whose slope is the trend over the spread and that goes
/// through the means.
pub proof fn law_fit_is_least_squares(xs: Seq<int>, ys: Seq<int>, p: int, q: int, r: int)
    requires
        xs.len() == ys.len(),
    ensures
        ({
            let n = xs.len() as int;
            let (s, t) = (spread(xs), trend(xs, ys));
            let fitted = misfit(xs, ys, n * t, n * s, s * total(ys) - t * total(xs), n);
            ((n * s) * (n * s)) * misfit(xs, ys, p, q, r, n) >= (q * q) * fitted
        }),
{
    let n = xs.len() as int;
    let (s, t) = (spread(xs), trend(xs, ys));
    misfit_of_other_line(xs, ys, p, q, r, n);
    assert(xs.take(n) =~= xs);
    assert(ys.take(n) =~= ys);
    assert(s * t - t * s == 0) by (nonlinear_arith);
    assert(s * 0 - t * 0 == 0) by (nonlinear_arith);
    let v = q * t - s * p;
    let u = q * s * total(ys) - s * p * total(xs) - n * s * r;
    assert(2 * q * (v * 0 + u * 0) == 0) by (nonlinear_arith);
}

/// A rounded count of days that is not below zero and fits, against what it was rounded from.
proof fn days_are_nearest(above: int, below: int)
    requires
        below > 0,
    ensures
        ({
            let d = exact::clamped(exact::rounded(above, below), 0, i64::MAX as int);
            &&& 0 <= d <= i64::MAX
            &&& above <= 0 ==> d == 0
            &&& above > 0 ==> 2 * (d * below - above) <= below
            &&& above > 0 && d < i64::MAX ==> -below < 2 * (d * below - above)
        }),
{
    let q = exact::rounded(above, below);
    let max = i64::MAX as int;
    exact::law_rounded_is_nearest(above, below);
    exact::rounded_exact(0, below);
    assert(0 * below == 0);
    if above <= 0 {
        exact::rounded_grows(above, 0, below);
    } else {
        exact::rounded_grows(0, above, below);
        if q > max {
            assert(max * below <= q * below) by (nonlinear_arith)
                requires
                    max <= q,
                    below > 0,
            ;
        }
    }
}

/// Days left: there is an estimate exactly where the times differ and the fitted level falls, and
/// then it is the whole number of days, of 86400 seconds each, nearest to the distance between
/// the last level and full over the fitted rate, and zero for a level that is already there.
pub proof fn law_days_are_the_distance_over_the_rate(times: Seq<int>, levels: Seq<int>, full: int)
    ensures
        days_to_full(times, levels, full) is Some <==> spread(times) != 0 && trend(times, levels)
            < 0,
        days_to_full(times, levels, full) matches Some(d) ==> {
            let above = (levels.last() - full) * spread(times);
            let below = 86400 * -trend(times, levels);
            &&& d >= 0
            &&& levels.last() <= full ==> d == 0
            &&& levels.last() > full ==> 2 * (d * below - above) <= below
            &&& levels.last() > full && d < i64::MAX ==> -below < 2 * (d * below - above)
        },
{
    if spread(times) != 0 && trend(times, levels) < 0 {
        law_spread_needs_two_instants(times);
        let (gap, s) = (levels.last() - full, spread(times));
        let below = 86400 * -trend(times, levels);
        days_are_nearest(gap * s, below);
        assert(gap <= 0 ==> gap * s <= 0) by (nonlinear_arith)
            requires
                s > 0,
        ;
        assert(gap > 0 ==> gap * s > 0) by (nonlinear_arith)
            requires
                s > 0,
        ;
    }
}

/// Steady fill in days: where the level falls by `p` units in every `q` seconds, the estimate is
/// the number of days nearest to what it takes to come from the last level to full.
pub proof fn law_steady_fill_takes_its_days(
    times: Seq<int>,
    levels: Seq<int>,
    full: int,
    start: int,
    p: int,
    q: int,
)
    requires
        times.len() == levels.len(),
        p > 0,
        q > 0,
        forall|i: int| 0 <= i < times.len() ==> #[trigger] levels[i] * q == start - p * times[i],
        exists|i: int, j: int|
            0 <= i < times.len() && 0 <= j < times.len() && #[trigger] times[i] != #[trigger] times[j],
    ensures
        ({
            let d = days_to_full(times, levels, full)->0;
            let gap = levels.last() - full;
            &&& days_to_full(times, levels, full) is Some
            &&& d >= 0
            &&& gap <= 0 ==> d == 0
            &&& gap > 0 ==> 2 * (d * (86400 * p) - gap * q) <= 86400 * p
            &&& gap > 0 && d < i64::MAX ==> -(86400 * p) < 2 * (d * (86400 * p) - gap * q)
        }),
{
    law_steady_fill_is_projected(times, levels, full, start, p, q);
    let gap = levels.last() - full;
    days_are_nearest(gap * q, 86400 * p);
    assert(gap <= 0 ==> gap * q <= 0) by (nonlinear_arith)
        requires
            q > 0,
    ;
    assert(gap > 0 ==> gap * q > 0) by (nonlinear_arith)
        requires
            q > 0,
    ;
}

/// Two readings: from two levels the estimate is the number of days nearest to what it takes to
/// come from the second to full at the rate between them; where the second is not lower there is
/// none.
pub proof fn law_two_readings_give_the_rate(t0: int, t1: int, l0: int, l1: int, full: int)
    requires
        t0 < t1,
    ensures
        ({
            let said = days_to_full(seq![t0, t1], seq![l0, l1], full);
            let d = said->0;
            let (fall, seconds) = (l0 - l1, t1 - t0);
            &&& said is Some <==> fall > 0
            &&& fall > 0 && l1 <= full ==> d == 0
            &&& fall > 0 && l1 > full ==> 2 * (d * (86400 * fall) - (l1 - full) * seconds) <= 86400
                * fall
            &&& fall > 0 && l1 > full && d < i64::MAX ==> -(86400 * fall) < 2 * (d * (86400 * fall)
                - (l1 - full) * seconds)
        }),
{
    let (times, levels) = (seq![t0, t1], seq![l0, l1]);
    let (fall, seconds) = (l0 - l1, t1 - t0);
    assert(times[0] != times[1]);
    if fall > 0 {
        let start = l0 * seconds + fall * t0;
        assert(l1 * seconds == start - fall * t1) by (nonlinear_arith)
            requires
                start == l0 * seconds + fall * t0,
                fall == l0 - l1,
                seconds == t1 - t0,
        ;
        assert forall|i: int| 0 <= i < times.len() implies #[trigger] levels[i] * seconds == start
            - fall * times[i] by {
            if i == 0 {
                assert(levels[0] == l0 && times[0] == t0);
            } else {
                assert(levels[1] == l1 && times[1] == t1);
            }
        }
        law_steady_fill_takes_its_days(times, levels, full, start, fall, seconds);
    } else {
        law_no_estimate_unless_filling(times, levels, full);
    }
}

proof fn total_shifted(s: Seq<int>, by: int)
    ensures
        total(s.map_values(|v: int| v + by)) == total(s) + s.len() * by,
    decreases s.len(),
{
    let t = s.map_values(|v: int| v + by);
    if s.len() > 0 {
        assert(t.drop_last() =~= s.drop_last().map_values(|v: int| v + by));
        total_shifted(s.drop_last(), by);
        let n = s.len() as int;
        assert((n - 1) * by + by == n * by) by (nonlinear_arith);
    } else {
        assert(0 * by == 0);
    }
}

proof fn deviation_shifted(s: Seq<int>, by: int, i: int)
    requires
        0 <= i < s.len(),
    ensures
        deviation(s.map_values(|v: int| v + by), i) == deviation(s, i),
{
    total_shifted(s, by);
    let (n, x) = (s.len() as int, s[i]);
    assert(n * (x + by) == n * x + n * by) by (nonlinear_arith);
}

proof fn codeviation_shifted(xs: Seq<int>, ys: Seq<int>, by: int, up: int, n: int)
    requires
        0 <= n <= xs.len() == ys.len(),
    ensures
        codeviation(xs.map_values(|v: int| v + by), ys.map_values(|v: int| v + up), n)
            == codeviation(xs, ys, n),
    decreases n,
{
    if n > 0 {
        codeviation_shifted(xs, ys, by, up, n - 1);
        deviation_shifted(xs, by, n - 1);
        deviation_shifted(ys, up, n - 1);
    }
}

/// Shifts: the estimate does not depend on when the readings were taken, only on the time between
/// them, nor on where distances are counted from.
pub proof fn law_estimate_depends_on_differences(
    times: Seq<int>,
    levels: Seq<int>,
    full: int,
    by: int,
    up: int,
)
    requires
        times.len() == levels.len(),
        times.len() > 0,
    ensures
        days_to_full(
            times.map_values(|t: int| t + by),
            levels.map_values(|l: int| l + up),
            full + up,
        ) == days_to_full(times, levels, full),
{
    let n = times.len() as int;
    codeviation_shifted(times, times, by, by, n);
    codeviation_shifted(times, levels, by, up, n);
    assert(levels.map_values(|l: int| l + up).last() == levels.last() + up);
}

proof fn instants_are_read(history: Seq<RecordView>, times: Seq<i64>)
    requires
        times.len() == history.len(),
        forall|i: int|
            0 <= i < history.len() ==> rfc3339_epoch((#[trigger] history[i]).ts) == Some(times[i]),
    ensures
        instants(history) == Some(times),
    decreases history.len(),
{
    if history.len() > 0 {
        let (h, t) = (history.drop_last(), times.drop_last());
        assert forall|i: int| 0 <= i < h.len() implies rfc3339_epoch((#[trigger] h[i]).ts) == Some(
            t[i],
        ) by {
            assert(rfc3339_epoch(history[i].ts) == Some(times[i]));
        }
        instants_are_read(h, t);
        assert(rfc3339_epoch(history[history.len() - 1].ts) == Some(times[history.len() - 1]));
        assert(t.push(times.last()) =~= times);
    } else {
        assert(times =~= Seq::empty());
    }
}

/// Every record counts: the estimate is made from the time and the level of each record, in
/// order, and there is none where one time cannot be read.
pub proof fn law_every_record_counts(history: Seq<RecordView>, times: Seq<i64>, full: int, bad: int)
    requires
        times.len() == history.len(),
    ensures
        (forall|i: int|
            0 <= i < history.len() ==> rfc3339_epoch((#[trigger] history[i]).ts) == Some(times[i]))
            ==> projected(history, full) == days_to_full(
            Seq::new(history.len(), |i: int| times[i] as int),
            Seq::new(history.len(), |i: int| history[i].lvl@),
            full,
        ),
        0 <= bad < history.len() && rfc3339_epoch(history[bad].ts) is None ==> projected(
            history,
            full,
        ) is None,
{
    if forall|i: int|
        0 <= i < history.len() ==> rfc3339_epoch((#[trigger] history[i]).ts) == Some(times[i]) {
        instants_are_read(history, times);
        assert(as_numbers(times) =~= Seq::new(history.len(), |i: int| times[i] as int));
        assert(as_values(levels(history)) =~= Seq::new(history.len(), |i: int| history[i].lvl@));
    }
    if 0 <= bad < history.len() && rfc3339_epoch(history[bad].ts) is None {
        assert(history.take(bad + 1).last() == history[bad]);
        instants_need_every_record(history, bad + 1);
    }
}

} // verus!
