//! Integers of any size, and division rounded to the nearest integer. The formulas of the
//! library are computed in them, so that no input overflows and no digit is lost.

use vstd::prelude::*;

verus! {

/// The base that magnitudes are kept in.
pub open spec fn base() -> int {
    0x1_0000_0000
}

/// A power of the base.
pub open spec fn base_pow(n: nat) -> int
    decreases n,
{
    if n == 0 {
        1
    } else {
        base() * base_pow((n - 1) as nat)
    }
}

/// The number that limbs stand for, least significant limb first.
pub open spec fn limbs_value(s: Seq<u32>) -> int
    decreases s.len(),
{
    if s.len() == 0 {
        0
    } else {
        limbs_value(s.drop_last()) + s.last() * base_pow((s.len() - 1) as nat)
    }
}

/// The value of the lowest `n` limbs, where missing limbs count as zero.
spec fn low_value(s: Seq<u32>, n: int) -> int {
    if n <= s.len() {
        limbs_value(s.take(n))
    } else {
        limbs_value(s)
    }
}

/// One limb, where missing limbs count as zero.
spec fn limb(s: Seq<u32>, i: int) -> int {
    if i < s.len() {
        s[i] as int
    } else {
        0
    }
}

proof fn base_pow_positive(n: nat)
    ensures
        base_pow(n) > 0,
    decreases n,
{
    if n > 0 {
        base_pow_positive((n - 1) as nat);
        assert(base() * base_pow((n - 1) as nat) > 0) by (nonlinear_arith)
            requires
                base_pow((n - 1) as nat) > 0,
                base() > 0,
        ;
    }
}

proof fn limbs_value_bounds(s: Seq<u32>)
    ensures
        0 <= limbs_value(s) < base_pow(s.len()),
    decreases s.len(),
{
    if s.len() > 0 {
        limbs_value_bounds(s.drop_last());
        let p = base_pow((s.len() - 1) as nat);
        let v = limbs_value(s.drop_last());
        let x = s.last() as int;
        assert(0 <= v + x * p < base() * p) by (nonlinear_arith)
            requires
                0 <= v < p,
                0 <= x < base(),
        ;
    }
}

proof fn low_value_step(s: Seq<u32>, i: int)
    requires
        0 <= i,
    ensures
        low_value(s, i + 1) == low_value(s, i) + limb(s, i) * base_pow(i as nat),
{
    if i < s.len() {
        assert(s.take(i + 1).drop_last() =~= s.take(i));
    } else {
        assert(s.take(s.len() as int) =~= s);
    }
}

proof fn low_value_whole(s: Seq<u32>, n: int)
    requires
        n >= s.len(),
    ensures
        low_value(s, n) == limbs_value(s),
{
    assert(s.take(s.len() as int) =~= s);
}

proof fn push_value(s: Seq<u32>, x: u32)
    ensures
        limbs_value(s.push(x)) == limbs_value(s) + x * base_pow(s.len()),
{
    assert(s.push(x).drop_last() =~= s);
}

/// A limb put below the others.
proof fn cons_value(x: u32, s: Seq<u32>)
    ensures
        limbs_value(seq![x] + s) == x + base() * limbs_value(s),
    decreases s.len(),
{
    let t = seq![x] + s;
    if s.len() == 0 {
        assert(t =~= Seq::<u32>::empty().push(x));
        push_value(Seq::empty(), x);
        assert(limbs_value(Seq::<u32>::empty()) == 0);
        assert(base_pow(0) == 1);
    } else {
        cons_value(x, s.drop_last());
        assert(t.drop_last() =~= seq![x] + s.drop_last());
        let p = base_pow((s.len() - 1) as nat);
        let v = limbs_value(s.drop_last());
        let y = s.last() as int;
        assert(x + base() * v + y * (base() * p) == x + base() * (v + y * p)) by (nonlinear_arith);
    }
}

/// Splitting a digit sum into a limb and a carry keeps its value.
proof fn carry_step(sum: int, p: int)
    ensures
        (sum % base()) * p + (sum / base()) * (base() * p) == sum * p,
{
    let q = sum / base();
    let r = sum % base();
    assert(sum == base() * q + r);
    assert(r * p + q * (base() * p) == (base() * q + r) * p) by (nonlinear_arith);
}

fn add_limbs(a: &Vec<u32>, b: &Vec<u32>) -> (out: Vec<u32>)
    ensures
        limbs_value(out@) == limbs_value(a@) + limbs_value(b@),
{
    let n: usize = if a.len() < b.len() {
        b.len()
    } else {
        a.len()
    };
    let mut out: Vec<u32> = Vec::new();
    let mut carry: u64 = 0;
    let mut i: usize = 0;
    while i < n
        invariant
            i <= n,
            out.len() == i,
            carry <= 1,
            limbs_value(out@) + carry * base_pow(i as nat) == low_value(a@, i as int) + low_value(
                b@,
                i as int,
            ),
        decreases n - i,
    {
        let x: u64 = if i < a.len() {
            a[i] as u64
        } else {
            0
        };
        let y: u64 = if i < b.len() {
            b[i] as u64
        } else {
            0
        };
        let sum: u64 = x + y + carry;
        let ghost p = base_pow(i as nat);
        proof {
            low_value_step(a@, i as int);
            low_value_step(b@, i as int);
            push_value(out@, (sum % 0x1_0000_0000) as u32);
            carry_step(sum as int, p);
            assert(sum * p == x * p + y * p + carry * p) by (nonlinear_arith)
                requires
                    sum == x + y + carry,
            ;
        }
        out.push((sum % 0x1_0000_0000) as u32);
        carry = sum / 0x1_0000_0000;
        i = i + 1;
    }
    proof {
        low_value_whole(a@, n as int);
        low_value_whole(b@, n as int);
        push_value(out@, carry as u32);
    }
    out.push(carry as u32);
    out
}

/// Subtracts, or finds that the first number is the smaller one.
fn sub_limbs(a: &Vec<u32>, b: &Vec<u32>) -> (r: Option<Vec<u32>>)
    ensures
        r is None <==> limbs_value(a@) < limbs_value(b@),
        r matches Some(out) ==> limbs_value(out@) == limbs_value(a@) - limbs_value(b@),
{
    let n: usize = if a.len() < b.len() {
        b.len()
    } else {
        a.len()
    };
    let mut out: Vec<u32> = Vec::new();
    let mut borrow: i64 = 0;
    let mut i: usize = 0;
    while i < n
        invariant
            i <= n,
            out.len() == i,
            0 <= borrow <= 1,
            limbs_value(out@) - borrow * base_pow(i as nat) == low_value(a@, i as int) - low_value(
                b@,
                i as int,
            ),
        decreases n - i,
    {
        let x: i64 = if i < a.len() {
            a[i] as i64
        } else {
            0
        };
        let y: i64 = if i < b.len() {
            b[i] as i64
        } else {
            0
        };
        let diff: i64 = x - y - borrow;
        let next: i64 = if diff < 0 {
            1
        } else {
            0
        };
        let digit: i64 = diff + next * 0x1_0000_0000;
        let ghost p = base_pow(i as nat);
        proof {
            low_value_step(a@, i as int);
            low_value_step(b@, i as int);
            push_value(out@, digit as u32);
            assert(digit * p - next * (base() * p) == x * p - y * p - borrow * p)
                by (nonlinear_arith)
                requires
                    digit == x - y - borrow + next * base(),
            ;
        }
        out.push(digit as u32);
        borrow = next;
        i = i + 1;
    }
    proof {
        low_value_whole(a@, n as int);
        low_value_whole(b@, n as int);
        limbs_value_bounds(out@);
    }
    if borrow == 0 {
        Some(out)
    } else {
        None
    }
}

fn scale_limbs(a: &Vec<u32>, m: u32) -> (out: Vec<u32>)
    ensures
        limbs_value(out@) == limbs_value(a@) * m,
{
    let mut out: Vec<u32> = Vec::new();
    let mut carry: u64 = 0;
    let mut i: usize = 0;
    proof {
        assert(a@.take(0) =~= Seq::empty());
        assert(low_value(a@, 0) == 0);
        assert(0 * m == 0);
    }
    while i < a.len()
        invariant
            i <= a.len(),
            out.len() == i,
            carry < 0x1_0000_0000,
            limbs_value(out@) + carry * base_pow(i as nat) == low_value(a@, i as int) * m,
        decreases a.len() - i,
    {
        let x: u64 = a[i] as u64;
        assert(x * m <= 0xffff_ffff * 0xffff_ffff) by (nonlinear_arith)
            requires
                x <= 0xffff_ffff,
                m <= 0xffff_ffff,
        ;
        let sum: u64 = x * (m as u64) + carry;
        let ghost p = base_pow(i as nat);
        let ghost low = low_value(a@, i as int);
        proof {
            low_value_step(a@, i as int);
            push_value(out@, (sum % 0x1_0000_0000) as u32);
            carry_step(sum as int, p);
            assert((low + x * p) * m == low * m + (x * m) * p) by (nonlinear_arith);
            assert((x * m + carry) * p == (x * m) * p + carry * p) by (nonlinear_arith);
        }
        out.push((sum % 0x1_0000_0000) as u32);
        carry = sum / 0x1_0000_0000;
        i = i + 1;
    }
    proof {
        low_value_whole(a@, a@.len() as int);
        push_value(out@, carry as u32);
    }
    out.push(carry as u32);
    out
}

fn mul_limbs(a: &Vec<u32>, b: &Vec<u32>) -> (out: Vec<u32>)
    ensures
        limbs_value(out@) == limbs_value(a@) * limbs_value(b@),
{
    let mut out: Vec<u32> = Vec::new();
    let mut i: usize = b.len();
    assert(b@.skip(b@.len() as int) =~= Seq::empty());
    while i > 0
        invariant
            i <= b.len(),
            limbs_value(out@) == limbs_value(a@) * limbs_value(b@.skip(i as int)),
        decreases i,
    {
        i = i - 1;
        let ghost before = out@;
        let partial: Vec<u32> = scale_limbs(a, b[i]);
        out.insert(0, 0);
        proof {
            assert(out@ =~= seq![0u32] + before);
            cons_value(0, before);
            assert(b@.skip(i as int) =~= seq![b@[i as int]] + b@.skip(i + 1));
            cons_value(b@[i as int], b@.skip(i + 1));
            let va = limbs_value(a@);
            let vb = limbs_value(b@.skip(i + 1));
            let x = b@[i as int] as int;
            assert(base() * (va * vb) + va * x == va * (x + base() * vb)) by (nonlinear_arith);
        }
        out = add_limbs(&out, &partial);
    }
    assert(b@.skip(0) =~= b@);
    out
}

fn limbs_of(n: u64) -> (out: Vec<u32>)
    ensures
        limbs_value(out@) == n,
{
    let low: u32 = (n % 0x1_0000_0000) as u32;
    let high: u32 = (n / 0x1_0000_0000) as u32;
    let mut out: Vec<u32> = Vec::new();
    proof {
        push_value(out@, low);
        push_value(out@.push(low), high);
        assert(base_pow(0) == 1);
        assert(base_pow(1) == base());
        assert(low + high * base() == n);
    }
    out.push(low);
    out.push(high);
    out
}

/// A signed integer of any size.
pub struct Integer {
    negative: bool,
    limbs: Vec<u32>,
}

impl View for Integer {
    type V = int;

    closed spec fn view(&self) -> int {
        if self.negative {
            -limbs_value(self.limbs@)
        } else {
            limbs_value(self.limbs@)
        }
    }
}

impl Integer {
    /// An integer from its sign and its magnitude.
    pub fn from_parts(negative: bool, magnitude: u64) -> (r: Integer)
        ensures
            r@ == (if negative {
                -magnitude
            } else {
                magnitude as int
            }),
    {
        Integer { negative, limbs: limbs_of(magnitude) }
    }

    /// A machine integer.
    pub fn from_i64(n: i64) -> (r: Integer)
        ensures
            r@ == n,
    {
        if n < 0 {
            Integer::from_parts(true, (-(n as i128)) as u64)
        } else {
            Integer::from_parts(false, n as u64)
        }
    }

    /// The sum of two integers.
    pub fn plus(&self, other: &Integer) -> (r: Integer)
        ensures
            r@ == self@ + other@,
    {
        if self.negative == other.negative {
            Integer { negative: self.negative, limbs: add_limbs(&self.limbs, &other.limbs) }
        } else {
            match sub_limbs(&self.limbs, &other.limbs) {
                Some(limbs) => Integer { negative: self.negative, limbs },
                None => match sub_limbs(&other.limbs, &self.limbs) {
                    Some(limbs) => Integer { negative: other.negative, limbs },
                    None => {
                        assert(false);
                        Integer::from_parts(false, 0)
                    },
                },
            }
        }
    }

    /// An integer with the sign turned.
    pub fn negated(&self) -> (r: Integer)
        ensures
            r@ == -self@,
    {
        Integer { negative: !self.negative, limbs: scale_limbs(&self.limbs, 1) }
    }

    /// The difference of two integers.
    pub fn minus(&self, other: &Integer) -> (r: Integer)
        ensures
            r@ == self@ - other@,
    {
        self.plus(&other.negated())
    }

    /// The product of two integers.
    pub fn times(&self, other: &Integer) -> (r: Integer)
        ensures
            r@ == self@ * other@,
    {
        let r = Integer {
            negative: self.negative != other.negative,
            limbs: mul_limbs(&self.limbs, &other.limbs),
        };
        proof {
            let a = limbs_value(self.limbs@);
            let b = limbs_value(other.limbs@);
            assert((-a) * b == -(a * b)) by (nonlinear_arith);
            assert(a * (-b) == -(a * b)) by (nonlinear_arith);
            assert((-a) * (-b) == a * b) by (nonlinear_arith);
        }
        r
    }

    /// Whether an integer is below zero.
    pub fn is_negative(&self) -> (r: bool)
        ensures
            r == (self@ < 0),
    {
        proof {
            limbs_value_bounds(self.limbs@);
        }
        let zero: Vec<u32> = Vec::new();
        self.negative && sub_limbs(&zero, &self.limbs).is_none()
    }

    /// Whether an integer is zero.
    pub fn is_zero(&self) -> (r: bool)
        ensures
            r == (self@ == 0),
    {
        proof {
            limbs_value_bounds(self.limbs@);
        }
        let zero: Vec<u32> = Vec::new();
        sub_limbs(&zero, &self.limbs).is_some()
    }

    /// Whether an integer is at most another.
    pub fn at_most(&self, other: &Integer) -> (r: bool)
        ensures
            r == (self@ <= other@),
    {
        !other.minus(self).is_negative()
    }
}

/// A power of ten.
pub open spec fn ten_pow(n: nat) -> int
    decreases n,
{
    if n == 0 {
        1
    } else {
        10 * ten_pow((n - 1) as nat)
    }
}

/// Computes a power of ten.
pub fn power_of_ten(n: u32) -> (r: Integer)
    ensures
        r@ == ten_pow(n as nat),
{
    let mut limbs: Vec<u32> = limbs_of(1);
    let mut i: u32 = 0;
    while i < n
        invariant
            i <= n,
            limbs_value(limbs@) == ten_pow(i as nat),
        decreases n - i,
    {
        limbs = scale_limbs(&limbs, 10);
        i = i + 1;
    }
    Integer { negative: false, limbs }
}

/// Powers of ten multiply by adding their exponents, and none is below one.
pub proof fn ten_pow_sum(a: nat, b: nat)
    ensures
        ten_pow(a + b) == ten_pow(a) * ten_pow(b),
        ten_pow(a) >= 1,
    decreases a,
{
    if a > 0 {
        ten_pow_sum((a - 1) as nat, b);
        let p = ten_pow((a - 1) as nat);
        let q = ten_pow(b);
        assert((10 * p) * q == 10 * (p * q)) by (nonlinear_arith);
        assert((a + b - 1) as nat == (a - 1) as nat + b);
    } else {
        assert(1 * ten_pow(b) == ten_pow(b));
    }
}

/// A quotient rounded to the nearest integer, halves away from zero.
pub open spec fn rounded(n: int, d: int) -> int {
    if n >= 0 {
        (2 * n + d) / (2 * d)
    } else {
        -((2 * (-n) + d) / (2 * d))
    }
}

/// A number held between two bounds.
pub open spec fn clamped(n: int, lo: int, hi: int) -> int {
    if n < lo {
        lo
    } else if n > hi {
        hi
    } else {
        n
    }
}

proof fn product_order(a: int, b: int, y: int)
    requires
        y > 0,
    ensures
        a <= b ==> a * y <= b * y,
{
    if a <= b {
        assert(a * y <= b * y) by (nonlinear_arith)
            requires
                a <= b,
                y > 0,
        ;
    }
}

/// When an integer is at most a rounded quotient.
proof fn at_most_rounded(q: int, n: int, d: int)
    requires
        d > 0,
    ensures
        q <= rounded(n, d) <==> if n >= 0 {
            q * (2 * d) <= 2 * n + d
        } else {
            q * (2 * d) < 2 * n + d
        },
{
    let y = 2 * d;
    let x = if n >= 0 {
        2 * n + d
    } else {
        2 * (-n) + d
    };
    let k = x / y;
    vstd::arithmetic::div_mod::lemma_fundamental_div_mod(x, y);
    assert(x == y * k + x % y);
    assert(0 <= x % y < y);
    if n >= 0 {
        product_order(q, k, y);
        product_order(k + 1, q, y);
        assert((k + 1) * y == y * k + y) by (nonlinear_arith);
        assert(k * y == y * k) by (nonlinear_arith);
    } else {
        product_order(q, -k, y);
        product_order(1 - k, q, y);
        assert((1 - k) * y == y - y * k) by (nonlinear_arith);
        assert((-k) * y == -(y * k)) by (nonlinear_arith);
    }
}

/// A larger dividend never rounds to a smaller quotient.
pub proof fn rounded_grows(a: int, b: int, d: int)
    requires
        a <= b,
        d > 0,
    ensures
        rounded(a, d) <= rounded(b, d),
{
    at_most_rounded(rounded(a, d), a, d);
    at_most_rounded(rounded(a, d), b, d);
}

/// The unit that a quotient's two sides are counted in does not matter.
pub proof fn rounded_in_other_units(n: int, d: int, k: int)
    requires
        d > 0,
        k > 0,
    ensures
        rounded(n * k, d * k) == rounded(n, d),
        d * k > 0,
        n * k >= 0 <==> n >= 0,
{
    assert(d * k > 0) by (nonlinear_arith)
        requires
            d > 0,
            k > 0,
    ;
    assert(n * k >= 0 <==> n >= 0) by (nonlinear_arith)
        requires
            k > 0,
    ;
    let m = if n >= 0 {
        n
    } else {
        -n
    };
    assert(k * (2 * m + d) == 2 * (m * k) + d * k) by (nonlinear_arith);
    assert(k * (2 * d) == 2 * (d * k)) by (nonlinear_arith);
    assert((-n) * k == -(n * k)) by (nonlinear_arith);
    vstd::arithmetic::div_mod::lemma_div_multiples_vanish_quotient(k, 2 * m + d, 2 * d);
}

/// A quotient that comes out even is not rounded.
pub proof fn rounded_exact(q: int, d: int)
    requires
        d > 0,
    ensures
        rounded(q * d, d) == q,
{
    at_most_rounded(q, q * d, d);
    at_most_rounded(q + 1, q * d, d);
    assert(q * (2 * d) == 2 * (q * d)) by (nonlinear_arith);
    assert((q + 1) * (2 * d) == 2 * (q * d) + 2 * d) by (nonlinear_arith);
}

/// Divides, rounds to the nearest integer and holds the result between two bounds.
pub fn rounded_quotient(n: &Integer, d: &Integer, lo: i64, hi: i64) -> (r: i64)
    requires
        d@ > 0,
        lo <= hi,
    ensures
        r == clamped(rounded(n@, d@), lo as int, hi as int),
{
    let two: Integer = Integer::from_i64(2);
    let twice: Integer = two.times(d);
    let sum: Integer = two.times(n).plus(d);
    let below: bool = n.is_negative();
    let mut low: i64 = lo;
    let mut high: i64 = hi;
    // The result lies between `low` and `high`.
    while low < high
        invariant
            lo <= low <= high <= hi,
            d@ > 0,
            twice@ == 2 * d@,
            sum@ == 2 * n@ + d@,
            below == (n@ < 0),
            low == lo || low <= rounded(n@, d@),
            high == hi || rounded(n@, d@) <= high,
        decreases high - low,
    {
        let mid: i64 = ((low as i128 + high as i128 + 1) / 2) as i64;
        let scaled: Integer = Integer::from_i64(mid).times(&twice);
        let reached: bool = if below {
            !sum.at_most(&scaled)
        } else {
            scaled.at_most(&sum)
        };
        proof {
            at_most_rounded(mid as int, n@, d@);
        }
        if reached {
            low = mid;
        } else {
            high = mid - 1;
        }
    }
    low
}

/// Rounding: the rounded quotient is a nearest integer, and of two that are equally near it is
/// the one further from zero.
pub proof fn law_rounded_is_nearest(n: int, d: int)
    requires
        d > 0,
    ensures
        -d <= 2 * (rounded(n, d) * d - n) <= d,
        2 * (rounded(n, d) * d - n) == d ==> n > 0,
        2 * (rounded(n, d) * d - n) == -d ==> n < 0,
{
    let m = if n >= 0 {
        n
    } else {
        -n
    };
    let q = (2 * m + d) / (2 * d);
    vstd::arithmetic::div_mod::lemma_fundamental_div_mod(2 * m + d, 2 * d);
    vstd::arithmetic::div_mod::lemma_mod_bound(2 * m + d, 2 * d);
    assert((2 * d) * q == 2 * (q * d)) by (nonlinear_arith);
    assert((-q) * d == -(q * d)) by (nonlinear_arith);
    if n == 0 {
        rounded_exact(0, d);
        assert(0 * d == 0);
    }
}

/// Bounds: a number within the bounds is kept, and any other becomes the bound that it passed.
pub proof fn law_clamped_is_within(n: int, lo: int, hi: int)
    requires
        lo <= hi,
    ensures
        lo <= clamped(n, lo, hi) <= hi,
        lo <= n <= hi ==> clamped(n, lo, hi) == n,
        n <= lo ==> clamped(n, lo, hi) == lo,
        n >= hi ==> clamped(n, lo, hi) == hi,
{
}

/// Powers of ten: the first is one, and each is ten times the one before.
pub proof fn law_powers_of_ten(n: nat)
    ensures
        ten_pow(0) == 1,
        ten_pow(n + 1) == 10 * ten_pow(n),
        ten_pow(n) > 0,
{
    ten_pow_sum(n, 0);
}

} // verus!
