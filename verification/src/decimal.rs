//! Decimal fractions, exact: radar levels and tank distances in centimetres.

use vstd::prelude::*;
use vstd::slice::slice_subrange;
use vstd::string::StringExecFns;

use crate::exact;
use crate::exact::Integer;
use crate::number;

verus! {

/// A decimal fraction: `digits` times ten to the power of `exp`, negated where `negative`.
#[derive(Clone, Copy, Debug, PartialEq, Eq, Structural)]
pub struct Decimal {
    pub negative: bool,
    pub digits: u64,
    pub exp: i16,
}

/// The smallest exponent of a [`Decimal`]: values are counted in units of ten to this power.
pub const MIN_EXP: i16 = -32768;

/// A whole one, in units of ten to the power of [`MIN_EXP`].
pub open spec fn one() -> int {
    exact::ten_pow(32768)
}

impl View for Decimal {
    type V = int;

    /// The value, counted in units of ten to the power of [`MIN_EXP`].
    open spec fn view(&self) -> int {
        self.scaled(MIN_EXP as int)
    }
}

impl Decimal {
    /// The digits with their sign.
    pub open spec fn mantissa(self) -> int {
        if self.negative {
            -self.digits
        } else {
            self.digits as int
        }
    }

    /// The value, counted in units of ten to the power of `exp`.
    pub open spec fn scaled(self, exp: int) -> int {
        self.mantissa() * exact::ten_pow((self.exp - exp) as nat)
    }

    /// Whether a value is written with as few digits as can be. Two such decimals are equal
    /// where their values are, but for a zero, which keeps the sign that it is written with.
    pub open spec fn canonical(self) -> bool {
        if self.digits == 0 {
            self.exp == 0
        } else {
            self.digits % 10 != 0
        }
    }

    /// Whether a value has at most fifteen digits and is zero or of a size from 0.0001
    /// up to below ten to the power of fifteen. A floating-point number of
    /// double precision tells any two such values apart.
    pub open spec fn short(self) -> bool {
        &&& self.canonical()
        &&& self.digits < 1_000_000_000_000_000
        &&& self.digits == 0 || -3 <= number::natural_text(self.digits as nat).len() + self.exp
            <= 15
    }

    /// Counts the value in units of a power of ten that divides it.
    pub fn at_scale(&self, exp: i16) -> (r: Integer)
        requires
            exp <= self.exp,
        ensures
            r@ == self.scaled(exp as int),
    {
        let shift: u32 = (self.exp as i32 - exp as i32) as u32;
        Integer::from_parts(self.negative, self.digits).times(&exact::power_of_ten(shift))
    }
}

/// Counting in smaller units multiplies the count.
pub proof fn scaled_down(d: Decimal, coarse: int, fine: int)
    requires
        fine <= coarse <= d.exp,
    ensures
        d.scaled(fine) == d.scaled(coarse) * exact::ten_pow((coarse - fine) as nat),
        exact::ten_pow((coarse - fine) as nat) >= 1,
{
    let a = (d.exp - coarse) as nat;
    let b = (coarse - fine) as nat;
    exact::ten_pow_sum(a, b);
    exact::ten_pow_sum(b, 0);
    assert((d.exp - fine) as nat == a + b);
    let m = d.mantissa();
    let p = exact::ten_pow(a);
    let q = exact::ten_pow(b);
    assert(m * (p * q) == (m * p) * q) by (nonlinear_arith);
}

/// The decimal `digits * 10^exp`, with trailing zeros moved into the exponent. It is there
/// where that exponent fits.
pub open spec fn normalised(negative: bool, digits: nat, exp: int) -> Option<Decimal>
    decreases digits,
{
    if digits == 0 {
        Some(Decimal { negative, digits: 0, exp: 0 })
    } else if digits % 10 == 0 {
        normalised(negative, digits / 10, exp + 1)
    } else if MIN_EXP <= exp <= i16::MAX {
        Some(Decimal { negative, digits: digits as u64, exp: exp as i16 })
    } else {
        None
    }
}

fn normalise(negative: bool, digits: u64, exp: i128) -> (r: Option<Decimal>)
    requires
        -0x4_0000_0000_0000_0000 < exp < 0x4_0000_0000_0000_0000,
    ensures
        r == normalised(negative, digits as nat, exp as int),
{
    if digits == 0 {
        return Some(Decimal { negative, digits: 0, exp: 0 });
    }
    let mut d: u64 = digits;
    let mut e: i128 = exp;
    while d % 10 == 0
        invariant
            d > 0,
            e + d <= exp + digits,
            exp <= e,
            exp < 0x4_0000_0000_0000_0000,
            normalised(negative, d as nat, e as int) == normalised(
                negative,
                digits as nat,
                exp as int,
            ),
        decreases d,
    {
        d = d / 10;
        e = e + 1;
    }
    if -32768 <= e && e <= 32767 {
        Some(Decimal { negative, digits: d, exp: e as i16 })
    } else {
        None
    }
}

/// Normalising keeps the value, and gives the canonical form.
proof fn normalised_keeps_value(negative: bool, digits: nat, exp: int)
    requires
        digits <= u64::MAX,
        exp >= MIN_EXP,
        normalised(negative, digits, exp) is Some,
    ensures
        normalised(negative, digits, exp)->0.canonical(),
        normalised(negative, digits, exp)->0@ == (if negative {
            -(digits as int)
        } else {
            digits as int
        }) * exact::ten_pow((exp - MIN_EXP) as nat),
    decreases digits,
{
    let m = if negative {
        -(digits as int)
    } else {
        digits as int
    };
    let p = exact::ten_pow((exp - MIN_EXP) as nat);
    if digits == 0 {
        assert(0 * p == 0) by (nonlinear_arith);
        assert(0 * one() == 0) by (nonlinear_arith);
    } else if digits % 10 == 0 {
        normalised_keeps_value(negative, digits / 10, exp + 1);
        let k = if negative {
            -(digits as int / 10)
        } else {
            digits as int / 10
        };
        assert(exact::ten_pow((exp + 1 - MIN_EXP) as nat) == 10 * p);
        assert(m == 10 * k);
        assert((10 * k) * p == k * (10 * p)) by (nonlinear_arith);
    }
}

/// A canonical decimal is its own normal form.
proof fn canonical_is_normal(d: Decimal)
    requires
        d.canonical(),
    ensures
        normalised(d.negative, d.digits as nat, d.exp as int) == Some(d),
{
}

/// The decimal `value / 10^places`.
pub open spec fn fraction(value: int, places: int) -> Decimal {
    normalised(
        value < 0,
        (if value < 0 {
            -value
        } else {
            value
        }) as nat,
        -places,
    )->0
}

impl Decimal {
    /// The decimal `value / 10^places`.
    pub fn new(value: i64, places: u8) -> (r: Decimal)
        ensures
            r == fraction(value as int, places as int),
            r.canonical(),
            r@ == value * exact::ten_pow((32768 - places) as nat),
    {
        let negative: bool = value < 0;
        let digits: u64 = if negative {
            (-(value as i128)) as u64
        } else {
            value as u64
        };
        let exp: i128 = -(places as i128);
        match normalise(negative, digits, exp) {
            Some(d) => {
                proof {
                    normalised_keeps_value(negative, digits as nat, exp as int);
                }
                d
            },
            None => {
                proof {
                    reveal_with_fuel(exact::ten_pow, 21);
                    short_normal_form(negative, digits as nat, exp as int, 20);
                }
                Decimal { negative: false, digits: 0, exp: 0 }
            },
        }
    }
}

/// A number below `10^n` has no more than `n` trailing zeros to move.
proof fn short_normal_form(negative: bool, digits: nat, exp: int, n: nat)
    requires
        digits < exact::ten_pow(n),
        MIN_EXP <= exp,
        exp + n <= i16::MAX,
    ensures
        normalised(negative, digits, exp) is Some,
    decreases n,
{
    if digits == 0 {
    } else if digits % 10 == 0 {
        if n == 0 {
            assert(digits < 1);
        } else {
            assert(digits / 10 < exact::ten_pow((n - 1) as nat));
            short_normal_form(negative, digits / 10, exp + 1, (n - 1) as nat);
        }
    }
}

/// A run of zeros.
pub open spec fn zeros(n: nat) -> Seq<char> {
    Seq::new(n, |i: int| '0')
}

/// The digits `ds` times ten to the power of `exp`, with a decimal point and at least one
/// digit on each side of it.
pub open spec fn positional_text(ds: Seq<char>, exp: int) -> Seq<char> {
    let point = ds.len() + exp;
    if point <= 0 {
        seq!['0', '.'] + zeros((-point) as nat) + ds
    } else if exp >= 0 {
        ds + zeros(exp as nat) + seq!['.', '0']
    } else {
        ds.take(point) + seq!['.'] + ds.skip(point)
    }
}

/// The digits `ds` times ten to the power of `exp`, with the point behind the first digit and
/// an exponent.
pub open spec fn scientific_text(ds: Seq<char>, exp: int) -> Seq<char> {
    let mantissa = if ds.len() == 1 {
        ds
    } else {
        ds.take(1) + seq!['.'] + ds.skip(1)
    };
    mantissa + seq!['e'] + number::integer_text(ds.len() + exp - 1)
}

/// A magnitude as text: with an exponent where it is below 1e-4 or not below 1e16.
pub open spec fn magnitude_text(digits: nat, exp: int) -> Seq<char> {
    let ds = number::natural_text(digits);
    let point = ds.len() + exp;
    if digits != 0 && (point < -3 || point > 16) {
        scientific_text(ds, exp)
    } else {
        positional_text(ds, exp)
    }
}

/// A decimal as text.
pub open spec fn decimal_text(d: Decimal) -> Seq<char> {
    if d.negative {
        seq!['-'] + magnitude_text(d.digits as nat, d.exp as int)
    } else {
        magnitude_text(d.digits as nat, d.exp as int)
    }
}

/// How many digits a text starts with.
pub open spec fn leading_digits(s: Seq<char>) -> nat
    decreases s.len(),
{
    if s.len() > 0 && number::is_digit(s[0]) {
        1 + leading_digits(s.skip(1))
    } else {
        0
    }
}

/// The exponent at the end of a decimal: none, or an `e` and an integer.
pub open spec fn exponent_of(s: Seq<char>) -> Option<int> {
    if s.len() == 0 {
        Some(0)
    } else if s[0] == 'e' || s[0] == 'E' {
        match number::i64_of(s.skip(1)) {
            Some(e) => Some(e as int),
            None => None,
        }
    } else {
        None
    }
}

/// The decimal with the given digits before and behind the point, and what follows them.
pub open spec fn assembled(
    negative: bool,
    whole: Seq<char>,
    fraction: Seq<char>,
    rest: Seq<char>,
) -> Option<Decimal> {
    let digits = number::digits_value(whole + fraction);
    match exponent_of(rest) {
        Some(e) => if digits <= u64::MAX {
            normalised(negative, digits as nat, e - fraction.len())
        } else {
            None
        },
        None => None,
    }
}

/// The magnitude that a text spells: digits, where there is a point digits behind it, and an
/// optional exponent.
pub open spec fn magnitude_of(negative: bool, s: Seq<char>) -> Option<Decimal> {
    let k = leading_digits(s) as int;
    if k == 0 {
        None
    } else if k < s.len() && s[k] == '.' {
        let tail = s.skip(k + 1);
        let f = leading_digits(tail) as int;
        if f == 0 {
            None
        } else {
            assembled(negative, s.take(k), tail.take(f), tail.skip(f))
        }
    } else {
        assembled(negative, s.take(k), Seq::empty(), s.skip(k))
    }
}

/// The decimal that a text spells, if it spells one whose digits and exponent fit.
pub open spec fn decimal_of(s: Seq<char>) -> Option<Decimal> {
    if s.len() > 0 && s[0] == '-' {
        magnitude_of(true, s.skip(1))
    } else {
        magnitude_of(false, s)
    }
}

fn write_zeros(n: usize) -> (s: String)
    ensures
        s@ == zeros(n as nat),
{
    let mut s: String = String::new();
    let mut i: usize = 0;
    proof {
        reveal_strlit("0");
        assert(s@ =~= zeros(0));
    }
    while i < n
        invariant
            i <= n,
            s@ == zeros(i as nat),
            "0"@ == seq!['0'],
        decreases n - i,
    {
        s.append("0");
        i = i + 1;
        assert(s@ =~= zeros(i as nat));
    }
    s
}

fn write_positional(ds: &str, exp: i16) -> (s: String)
    requires
        0 < ds@.len() < 100,
    ensures
        s@ == positional_text(ds@, exp as int),
{
    let n: usize = ds.unicode_len();
    let point: i64 = n as i64 + exp as i64;
    proof {
        reveal_strlit("0.");
        reveal_strlit(".0");
        reveal_strlit(".");
    }
    if point <= 0 {
        let mut s: String = "0.".to_owned();
        s.append(write_zeros((-point) as usize).as_str());
        s.append(ds);
        assert(s@ =~= positional_text(ds@, exp as int));
        s
    } else if exp >= 0 {
        let mut s: String = ds.to_owned();
        s.append(write_zeros(exp as usize).as_str());
        s.append(".0");
        assert(s@ =~= positional_text(ds@, exp as int));
        s
    } else {
        let mut s: String = ds.substring_char(0, point as usize).to_owned();
        s.append(".");
        s.append(ds.substring_char(point as usize, n));
        assert(s@ =~= positional_text(ds@, exp as int));
        s
    }
}

fn write_scientific(ds: &str, exp: i16) -> (s: String)
    requires
        0 < ds@.len() < 100,
    ensures
        s@ == scientific_text(ds@, exp as int),
{
    let n: usize = ds.unicode_len();
    proof {
        reveal_strlit(".");
        reveal_strlit("e");
    }
    let mut s: String = ds.substring_char(0, 1).to_owned();
    if n > 1 {
        s.append(".");
        s.append(ds.substring_char(1, n));
    }
    s.append("e");
    s.append(number::write_integer(n as i64 + exp as i64 - 1).as_str());
    assert(s@ =~= scientific_text(ds@, exp as int));
    s
}

/// A number below `10^k` has at most `k` digits.
proof fn natural_text_len(n: nat, k: nat)
    requires
        n < exact::ten_pow(k),
        k >= 1,
    ensures
        0 < number::natural_text(n).len() <= k,
    decreases k,
{
    if n >= 10 {
        if k == 1 {
            assert(exact::ten_pow(0) == 1);
        } else {
            natural_text_len(n / 10, (k - 1) as nat);
        }
    }
}

impl Decimal {
    /// The decimal as text, in the shape that `{:?}` gives a floating-point number: `150.2`,
    /// `40.0`, `1e-7`.
    pub fn text(&self) -> (s: String)
        ensures
            s@ == decimal_text(*self),
    {
        let ds: String = number::write_natural(self.digits);
        proof {
            reveal_with_fuel(exact::ten_pow, 21);
            natural_text_len(self.digits as nat, 20);
            reveal_strlit("-");
        }
        let point: i64 = ds.as_str().unicode_len() as i64 + self.exp as i64;
        let magnitude: String = if self.digits != 0 && (point < -3 || point > 16) {
            write_scientific(ds.as_str(), self.exp)
        } else {
            write_positional(ds.as_str(), self.exp)
        };
        if self.negative {
            let mut s: String = "-".to_owned();
            s.append(magnitude.as_str());
            assert(s@ =~= decimal_text(*self));
            s
        } else {
            magnitude
        }
    }
}

/// The leading digits of a text are digits, and what follows them is not one.
proof fn leading_digits_are_digits(s: Seq<char>)
    ensures
        leading_digits(s) <= s.len(),
        number::all_digits(s.take(leading_digits(s) as int)),
        leading_digits(s) < s.len() ==> !number::is_digit(s[leading_digits(s) as int]),
    decreases s.len(),
{
    if s.len() > 0 && number::is_digit(s[0]) {
        leading_digits_are_digits(s.skip(1));
        let k = leading_digits(s) as int;
        let rest = s.skip(1).take(k - 1);
        assert forall|i: int| 0 <= i < k implies number::is_digit(#[trigger] s.take(k)[i]) by {
            if i > 0 {
                assert(number::is_digit(rest[i - 1]));
            }
        }
    }
}

fn count_digits(s: &[char], from: usize) -> (n: usize)
    requires
        from <= s@.len(),
    ensures
        n == leading_digits(s@.skip(from as int)),
        from + n <= s@.len(),
{
    let mut i: usize = from;
    while i < s.len() && '0' <= s[i] && s[i] <= '9'
        invariant
            from <= i <= s@.len(),
            leading_digits(s@.skip(from as int)) == i - from + leading_digits(s@.skip(i as int)),
        decreases s@.len() - i,
    {
        assert(s@.skip(i as int).skip(1) =~= s@.skip(i + 1));
        i = i + 1;
    }
    i - from
}

fn assemble(negative: bool, whole: &[char], fraction: &[char], rest: &[char]) -> (r: Option<Decimal>)
    requires
        whole@.len() > 0,
        number::all_digits(whole@),
        number::all_digits(fraction@),
    ensures
        r == assembled(negative, whole@, fraction@, rest@),
{
    let e: i64 = if rest.len() == 0 {
        0
    } else if rest[0] == 'e' || rest[0] == 'E' {
        let tail: &[char] = slice_subrange(rest, 1, rest.len());
        assert(tail@ =~= rest@.skip(1));
        match number::parse_i64_chars(tail) {
            Some(e) => e,
            None => {
                return None;
            },
        }
    } else {
        return None;
    };
    let mut all: Vec<char> = Vec::new();
    all.extend_from_slice(whole);
    all.extend_from_slice(fraction);
    assert(all@ =~= whole@ + fraction@);
    match number::parse_natural(all.as_slice()) {
        Some(digits) => normalise(negative, digits, e as i128 - fraction.len() as i128),
        None => None,
    }
}

fn parse_magnitude(negative: bool, s: &[char]) -> (r: Option<Decimal>)
    ensures
        r == magnitude_of(negative, s@),
{
    let k: usize = count_digits(s, 0);
    assert(s@.skip(0) =~= s@);
    proof {
        leading_digits_are_digits(s@);
    }
    if k == 0 {
        return None;
    }
    let whole: &[char] = slice_subrange(s, 0, k);
    assert(whole@ =~= s@.take(k as int));
    if k < s.len() && s[k] == '.' {
        let f: usize = count_digits(s, k + 1);
        let ghost tail = s@.skip(k + 1);
        proof {
            leading_digits_are_digits(tail);
        }
        if f == 0 {
            return None;
        }
        let fraction: &[char] = slice_subrange(s, k + 1, k + 1 + f);
        let rest: &[char] = slice_subrange(s, k + 1 + f, s.len());
        assert(fraction@ =~= tail.take(f as int));
        assert(rest@ =~= tail.skip(f as int));
        assemble(negative, whole, fraction, rest)
    } else {
        let fraction: &[char] = slice_subrange(s, k, k);
        let rest: &[char] = slice_subrange(s, k, s.len());
        assert(fraction@ =~= Seq::empty());
        assert(rest@ =~= s@.skip(k as int));
        assemble(negative, whole, fraction, rest)
    }
}

impl Decimal {
    /// Reads a decimal: an optional minus sign, digits, where there is a point digits behind
    /// it, and an optional exponent.
    pub fn parse(s: &str) -> (r: Option<Decimal>)
        ensures
            r == decimal_of(s@),
    {
        let chars: Vec<char> = number::chars_of(s);
        if chars.len() > 0 && chars[0] == '-' {
            let rest: &[char] = slice_subrange(chars.as_slice(), 1, chars.len());
            assert(rest@ =~= s@.skip(1));
            parse_magnitude(true, rest)
        } else {
            parse_magnitude(false, chars.as_slice())
        }
    }
}

/// Digits, then something else: the digits are counted.
proof fn leading_digits_of(ds: Seq<char>, rest: Seq<char>)
    requires
        number::all_digits(ds),
        rest.len() > 0 ==> !number::is_digit(rest[0]),
    ensures
        leading_digits(ds + rest) == ds.len(),
    decreases ds.len(),
{
    let s = ds + rest;
    if ds.len() > 0 {
        assert(number::is_digit(ds[0]));
        assert(s.skip(1) =~= ds.skip(1) + rest);
        assert(number::all_digits(ds.skip(1))) by {
            assert forall|i: int| 0 <= i < ds.skip(1).len() implies number::is_digit(
                #[trigger] ds.skip(1)[i],
            ) by {
                assert(number::is_digit(ds[i + 1]));
            }
        }
        leading_digits_of(ds.skip(1), rest);
    } else {
        assert(s =~= rest);
    }
}

/// Zeros in front of a number change nothing.
proof fn zeros_in_front(n: nat, ds: Seq<char>)
    ensures
        number::digits_value(zeros(n) + ds) == number::digits_value(ds),
    decreases ds.len(), n,
{
    let s = zeros(n) + ds;
    if ds.len() > 0 {
        assert(s.drop_last() =~= zeros(n) + ds.drop_last());
        zeros_in_front(n, ds.drop_last());
    } else if n > 0 {
        assert(s.drop_last() =~= zeros((n - 1) as nat) + ds);
        zeros_in_front((n - 1) as nat, ds);
    } else {
        assert(s =~= ds);
    }
}

/// Zeros behind a number multiply it.
proof fn zeros_behind(ds: Seq<char>, n: nat)
    ensures
        number::digits_value(ds + zeros(n)) == number::digits_value(ds) * exact::ten_pow(n),
    decreases n,
{
    let s = ds + zeros(n);
    if n > 0 {
        assert(s.drop_last() =~= ds + zeros((n - 1) as nat));
        zeros_behind(ds, (n - 1) as nat);
        let v = number::digits_value(ds);
        let p = exact::ten_pow((n - 1) as nat);
        assert((v * p) * 10 == v * (10 * p)) by (nonlinear_arith);
    } else {
        assert(s =~= ds);
        assert(number::digits_value(ds) * 1 == number::digits_value(ds));
    }
}

/// Trailing zeros are only a matter of the exponent.
proof fn normalised_without_zeros(negative: bool, digits: nat, k: nat, exp: int)
    requires
        digits > 0,
    ensures
        normalised(negative, (digits * exact::ten_pow(k)) as nat, exp) == normalised(
            negative,
            digits,
            exp + k,
        ),
    decreases k,
{
    let p = exact::ten_pow(k);
    exact::ten_pow_sum(k, 0);
    if k > 0 {
        let q = exact::ten_pow((k - 1) as nat);
        exact::ten_pow_sum((k - 1) as nat, 0);
        assert(digits * (10 * q) == 10 * (digits * q)) by (nonlinear_arith);
        assert(digits * q > 0) by (nonlinear_arith)
            requires
                digits > 0,
                q >= 1,
        ;
        assert((digits * p) / 10 == digits * q);
        normalised_without_zeros(negative, digits, (k - 1) as nat, exp + 1);
    } else {
        assert(digits * 1 == digits);
    }
}

proof fn digits_below_power(ds: Seq<char>)
    requires
        number::all_digits(ds),
    ensures
        0 <= number::digits_value(ds) < exact::ten_pow(ds.len()),
    decreases ds.len(),
{
    if ds.len() > 0 {
        assert(number::all_digits(ds.drop_last()));
        digits_below_power(ds.drop_last());
        assert(number::is_digit(ds[ds.len() - 1]));
    }
}

proof fn ten_pow_grows(a: nat, b: nat)
    requires
        a <= b,
    ensures
        exact::ten_pow(a) <= exact::ten_pow(b),
    decreases b,
{
    if a < b {
        ten_pow_grows(a, (b - 1) as nat);
        exact::ten_pow_sum((b - 1) as nat, 0);
    }
}

/// A number with a point reads back.
proof fn pointed_reads_back(
    negative: bool,
    whole: Seq<char>,
    fraction: Seq<char>,
    rest: Seq<char>,
)
    requires
        whole.len() > 0,
        fraction.len() > 0,
        number::all_digits(whole),
        number::all_digits(fraction),
        rest.len() > 0 ==> !number::is_digit(rest[0]),
    ensures
        magnitude_of(negative, whole + seq!['.'] + fraction + rest) == assembled(
            negative,
            whole,
            fraction,
            rest,
        ),
{
    let s = whole + seq!['.'] + fraction + rest;
    let after = seq!['.'] + fraction + rest;
    let k = whole.len() as int;
    assert(s =~= whole + after);
    leading_digits_of(whole, after);
    let tail = s.skip(k + 1);
    assert(tail =~= fraction + rest);
    leading_digits_of(fraction, rest);
    let f = fraction.len() as int;
    assert(s.take(k) =~= whole);
    assert(tail.take(f) =~= fraction);
    assert(tail.skip(f) =~= rest);
}

proof fn positional_reads_back(d: Decimal)
    requires
        d.canonical(),
        number::natural_text(d.digits as nat).len() + d.exp <= 16,
    ensures
        magnitude_of(
            d.negative,
            positional_text(number::natural_text(d.digits as nat), d.exp as int),
        ) == Some(d),
{
    let digits = d.digits as nat;
    let ds = number::natural_text(digits);
    let exp = d.exp as int;
    let point = ds.len() + exp;
    let none = Seq::<char>::empty();
    number::natural_text_reads_back(digits);
    canonical_is_normal(d);
    assert(number::digits_value(ds) == digits);
    if point <= 0 {
        let z = (-point) as nat;
        let fraction = zeros(z) + ds;
        assert(positional_text(ds, exp) =~= seq!['0'] + seq!['.'] + fraction + none);
        assert(number::all_digits(fraction)) by {
            assert forall|i: int| 0 <= i < fraction.len() implies number::is_digit(
                #[trigger] fraction[i],
            ) by {
                if i >= z {
                    assert(number::is_digit(ds[i - z]));
                }
            }
        }
        pointed_reads_back(d.negative, seq!['0'], fraction, none);
        assert(seq!['0'] + fraction =~= zeros(z + 1) + ds);
        zeros_in_front(z + 1, ds);
    } else if exp >= 0 {
        let whole = ds + zeros(exp as nat);
        assert(positional_text(ds, exp) =~= whole + seq!['.'] + seq!['0'] + none);
        assert(number::all_digits(whole)) by {
            assert forall|i: int| 0 <= i < whole.len() implies number::is_digit(
                #[trigger] whole[i],
            ) by {
                if i < ds.len() {
                    assert(number::is_digit(ds[i]));
                }
            }
        }
        pointed_reads_back(d.negative, whole, seq!['0'], none);
        let all = whole + seq!['0'];
        assert(all =~= ds + zeros((exp + 1) as nat));
        zeros_behind(ds, (exp + 1) as nat);
        assert(number::all_digits(all)) by {
            assert forall|i: int| 0 <= i < all.len() implies number::is_digit(#[trigger] all[i]) by {
                if i < whole.len() {
                    assert(number::is_digit(whole[i]));
                }
            }
        }
        digits_below_power(all);
        ten_pow_grows(all.len(), 17);
        assert(exact::ten_pow(17) <= u64::MAX) by {
            reveal_with_fuel(exact::ten_pow, 18);
        }
        if digits > 0 {
            normalised_without_zeros(d.negative, digits, (exp + 1) as nat, -1);
        } else {
            assert(0 * exact::ten_pow((exp + 1) as nat) == 0) by (nonlinear_arith);
        }
    } else {
        let whole = ds.take(point);
        let fraction = ds.skip(point);
        assert(positional_text(ds, exp) =~= whole + seq!['.'] + fraction + none);
        assert(number::all_digits(fraction)) by {
            assert forall|i: int| 0 <= i < fraction.len() implies number::is_digit(
                #[trigger] fraction[i],
            ) by {
                assert(number::is_digit(ds[i + point]));
            }
        }
        pointed_reads_back(d.negative, whole, fraction, none);
        assert(whole + fraction =~= ds);
    }
}

proof fn scientific_reads_back(d: Decimal)
    requires
        d.canonical(),
        number::natural_text(d.digits as nat).len() <= 20,
    ensures
        magnitude_of(
            d.negative,
            scientific_text(number::natural_text(d.digits as nat), d.exp as int),
        ) == Some(d),
{
    let digits = d.digits as nat;
    let ds = number::natural_text(digits);
    let exp = d.exp as int;
    let e = ds.len() + exp - 1;
    let rest = seq!['e'] + number::integer_text(e);
    number::natural_text_reads_back(digits);
    canonical_is_normal(d);
    number::law_integer_text_reads_back(e as i64);
    assert(rest.skip(1) =~= number::integer_text(e));
    assert(exponent_of(rest) == Some(e));
    let s = scientific_text(ds, exp);
    if ds.len() == 1 {
        let none = Seq::<char>::empty();
        assert(s =~= ds + rest);
        leading_digits_of(ds, rest);
        assert(s.take(1) =~= ds);
        assert(s.skip(1) =~= rest);
        assert(ds + none =~= ds);
    } else {
        let whole = ds.take(1);
        let fraction = ds.skip(1);
        assert(s =~= whole + seq!['.'] + fraction + rest);
        assert(number::all_digits(fraction)) by {
            assert forall|i: int| 0 <= i < fraction.len() implies number::is_digit(
                #[trigger] fraction[i],
            ) by {
                assert(number::is_digit(ds[i + 1]));
            }
        }
        pointed_reads_back(d.negative, whole, fraction, rest);
        assert(whole + fraction =~= ds);
    }
}

/// Decimals: what is written for a decimal in its shortest form reads back as that decimal.
pub proof fn law_decimal_text_reads_back(d: Decimal)
    requires
        d.canonical(),
    ensures
        decimal_of(decimal_text(d)) == Some(d),
{
    let digits = d.digits as nat;
    let ds = number::natural_text(digits);
    let m = magnitude_text(digits, d.exp as int);
    assert(ds.len() <= 20) by {
        reveal_with_fuel(exact::ten_pow, 21);
        natural_text_len(digits, 20);
    }
    if digits != 0 && (ds.len() + d.exp < -3 || ds.len() + d.exp > 16) {
        scientific_reads_back(d);
    } else {
        if digits == 0 {
            assert(ds.len() == 1);
        }
        positional_reads_back(d);
    }
    let s = decimal_text(d);
    if d.negative {
        assert(s.skip(1) =~= m);
    } else {
        leading_digits_are_digits(m);
        assert(leading_digits(m) > 0);
        assert(number::is_digit(m[0]));
    }
}

/// Moving trailing zeros into the exponent leaves the size of a number as it is.
proof fn normalised_keeps_size(negative: bool, digits: nat, exp: int)
    requires
        digits <= u64::MAX,
        normalised(negative, digits, exp) is Some,
    ensures
        ({
            let d = normalised(negative, digits, exp)->0;
            &&& d.canonical()
            &&& d.digits <= digits
            &&& digits > 0 ==> d.digits > 0 && number::natural_text(d.digits as nat).len() + d.exp
                == number::natural_text(digits).len() + exp
        }),
    decreases digits,
{
    if digits > 0 && digits % 10 == 0 {
        normalised_keeps_size(negative, digits / 10, exp + 1);
    }
}

/// Short levels: a count of at most fifteen digits, in units down to a ten-thousandth, is a
/// short decimal.
pub proof fn law_counts_are_short(value: int, places: int)
    requires
        -1_000_000_000_000_000 < value < 1_000_000_000_000_000,
        0 <= places <= 4,
    ensures
        fraction(value, places).short(),
{
    let n = (if value < 0 {
        -value
    } else {
        value
    }) as nat;
    assert(exact::ten_pow(15) == 1_000_000_000_000_000) by {
        reveal_with_fuel(exact::ten_pow, 16);
    }
    short_normal_form(value < 0, n, -places, 15);
    normalised_keeps_size(value < 0, n, -places);
    natural_text_len(n, 15);
}

/// A decimal is written without line breaks.
pub proof fn decimal_text_is_one_line(d: Decimal)
    ensures
        !decimal_text(d).contains('\n'),
{
    let ds = number::natural_text(d.digits as nat);
    number::natural_text_reads_back(d.digits as nat);
    assert forall|i: int| 0 <= i < ds.len() implies #[trigger] ds[i] != '\n' by {
        assert(number::is_digit(ds[i]));
    }
    let m = magnitude_text(d.digits as nat, d.exp as int);
    let power = number::integer_text(ds.len() + d.exp - 1);
    number::integer_text_is_one_line(ds.len() + d.exp - 1);
    assert forall|i: int| 0 <= i < power.len() implies #[trigger] power[i] != '\n' by {
        assert(power.contains(power[i]));
    }
    assert forall|i: int| 0 <= i < m.len() implies #[trigger] m[i] != '\n' by {}
    let s = decimal_text(d);
    if s.contains('\n') {
        let i = choose|i: int| 0 <= i < s.len() && s[i] == '\n';
        if d.negative {
            assert(m[i - 1] == '\n');
        } else {
            assert(m[i] == '\n');
        }
    }
}

/// What a power of ten divides evenly, ten divides.
proof fn multiple_of_ten(n: int, k: nat)
    requires
        k > 0,
    ensures
        (n * exact::ten_pow(k)) % 10 == 0,
{
    let q = exact::ten_pow((k - 1) as nat);
    assert(n * (10 * q) == 10 * (n * q)) by (nonlinear_arith);
}

proof fn equal_values_one_way(a: Decimal, b: Decimal)
    requires
        a.canonical(),
        b.canonical(),
        a@ == b@,
        a@ != 0,
        a.exp <= b.exp,
    ensures
        a == b,
{
    let low = a.exp as int;
    scaled_down(a, low, MIN_EXP as int);
    scaled_down(b, low, MIN_EXP as int);
    let k = exact::ten_pow((low - MIN_EXP) as nat);
    assert(exact::ten_pow(0) == 1);
    assert(a.scaled(low) == a.mantissa() * 1);
    let (x, y) = (a.scaled(low), b.scaled(low));
    assert(x == y) by (nonlinear_arith)
        requires
            x * k == y * k,
            k >= 1,
    ;
    let p = exact::ten_pow((b.exp - low) as nat);
    exact::ten_pow_sum((b.exp - low) as nat, 0);
    let m = b.mantissa();
    assert(m * p == 0 <==> m == 0) by (nonlinear_arith)
        requires
            p >= 1,
    ;
    assert(m * p < 0 <==> m < 0) by (nonlinear_arith)
        requires
            p >= 1,
    ;
    if a.digits == 0 {
        assert(0 * exact::ten_pow((a.exp - MIN_EXP) as nat) == 0) by (nonlinear_arith);
    } else if a.exp < b.exp {
        multiple_of_ten(b.digits as int, (b.exp - low) as nat);
        assert(a.digits == b.digits * p) by {
            assert((-b.digits) * p == -(b.digits * p)) by (nonlinear_arith);
        }
    } else {
        assert(p == 1);
        assert(m * 1 == m);
    }
}

/// One form for one value: decimals in their shortest form, other than zero, are equal where
/// their values are.
pub proof fn law_equal_values_are_equal_decimals(a: Decimal, b: Decimal)
    requires
        a.canonical(),
        b.canonical(),
        a@ == b@,
        a@ != 0,
    ensures
        a == b,
{
    if a.exp <= b.exp {
        equal_values_one_way(a, b);
    } else {
        equal_values_one_way(b, a);
    }
}

/// Values: what a decimal stands for is its digits times ten to the power of its exponent, with
/// its sign.
pub proof fn law_decimal_value(d: Decimal)
    ensures
        d.exp >= 0 ==> d@ == (if d.negative {
            -(d.digits as int)
        } else {
            d.digits as int
        }) * (exact::ten_pow(d.exp as nat) * one()),
        d.exp < 0 ==> d@ * exact::ten_pow((-d.exp) as nat) == (if d.negative {
            -(d.digits as int)
        } else {
            d.digits as int
        }) * one(),
{
    let m = d.mantissa();
    if d.exp >= 0 {
        exact::ten_pow_sum(d.exp as nat, 32768);
    } else {
        let (a, b) = ((d.exp - MIN_EXP) as nat, (-d.exp) as nat);
        exact::ten_pow_sum(a, b);
        let (p, q) = (exact::ten_pow(a), exact::ten_pow(b));
        assert((m * p) * q == m * (p * q)) by (nonlinear_arith);
    }
}

/// Counts: a count of units of which ten to the power of `places` make a whole one stands for
/// the count over that power.
pub proof fn law_fraction_value(value: int, places: int)
    requires
        -(u64::MAX as int) <= value <= u64::MAX,
        0 <= places <= 255,
    ensures
        fraction(value, places)@ * exact::ten_pow(places as nat) == value * one(),
        fraction(value, places).canonical(),
{
    let n = (if value < 0 {
        -value
    } else {
        value
    }) as nat;
    assert(n < exact::ten_pow(20)) by {
        reveal_with_fuel(exact::ten_pow, 21);
    }
    short_normal_form(value < 0, n, -places, 20);
    normalised_keeps_value(value < 0, n, -places);
    let (a, b) = ((-places - MIN_EXP) as nat, places as nat);
    exact::ten_pow_sum(a, b);
    let (p, q) = (exact::ten_pow(a), exact::ten_pow(b));
    assert((value * p) * q == value * (p * q)) by (nonlinear_arith);
}

/// Reading: digits with a point between them spell the count of the smallest unit that they
/// name, digits alone spell a whole number, and a minus sign negates either.
pub proof fn law_decimals_are_read_by_place(whole: Seq<char>, behind: Seq<char>)
    requires
        number::natural_of(whole) is Some,
        number::natural_of(behind) is Some,
        number::digits_value(whole + behind) <= u64::MAX,
        behind.len() <= 255,
    ensures
        ({
            let n = number::natural_of(whole + behind)->0;
            let read = decimal_of(whole + seq!['.'] + behind);
            let negated = decimal_of(seq!['-'] + (whole + seq!['.'] + behind));
            &&& read == Some(fraction(n, behind.len() as int))
            &&& n > 0 ==> negated == Some(fraction(-n, behind.len() as int))
        }),
        number::digits_value(whole) <= u64::MAX ==> decimal_of(whole) == Some(
            fraction(number::natural_of(whole)->0, 0),
        ),
{
    let text = whole + seq!['.'] + behind;
    let all = whole + behind;
    assert(number::all_digits(all)) by {
        assert forall|i: int| 0 <= i < all.len() implies number::is_digit(#[trigger] all[i]) by {
            if i < whole.len() {
                assert(number::is_digit(whole[i]));
            } else {
                assert(number::is_digit(behind[i - whole.len()]));
            }
        }
    }
    let none = Seq::<char>::empty();
    digits_below_power(all);
    digits_below_power(whole);
    let k = whole.len() as int;
    leading_digits_of(whole, seq!['.'] + behind);
    assert(text =~= whole + (seq!['.'] + behind));
    assert(text.take(k) =~= whole);
    assert(text.skip(k + 1) =~= behind);
    leading_digits_of(behind, none);
    assert(behind + none =~= behind);
    assert(behind.take(behind.len() as int) =~= behind);
    assert(behind.skip(behind.len() as int) =~= none);
    assert(number::is_digit(whole[0]));
    assert(text[0] == whole[0]);
    assert((seq!['-'] + text).skip(1) =~= text);
    let n = number::digits_value(all);
    assert(n < exact::ten_pow(20) || n > u64::MAX) by {
        reveal_with_fuel(exact::ten_pow, 21);
    }
    short_normal_form(false, n as nat, -(behind.len() as int), 20);
    short_normal_form(true, n as nat, -(behind.len() as int), 20);
    leading_digits_of(whole, none);
    assert(whole + none =~= whole);
    assert(whole.take(k) =~= whole);
    assert(whole.skip(k) =~= none);
    let m = number::digits_value(whole);
    if m <= u64::MAX {
        assert(m < exact::ten_pow(20)) by {
            reveal_with_fuel(exact::ten_pow, 21);
        }
        short_normal_form(false, m as nat, 0, 20);
    }
}

/// Shape: a decimal of ordinary size is written with a point and digits on both sides of it, no
/// exponent, no needless zero in front and none behind.
pub proof fn law_decimals_are_written_plainly(d: Decimal)
    requires
        d.canonical(),
        d.digits == 0 || -3 <= number::natural_text(d.digits as nat).len() + d.exp <= 16,
        !d.negative,
    ensures
        ({
            let s = decimal_text(d);
            let n = s.len() as int;
            &&& n >= 3
            &&& s.contains('.')
            &&& forall|i: int| 0 <= i < n ==> #[trigger] s[i] == '.' || '0' <= s[i] <= '9'
            &&& s[0] == '0' ==> s[1] == '.'
            &&& s[0] != '.' && s[n - 1] != '.'
            &&& s[n - 1] == '0' ==> s[n - 2] == '.'
        }),
        decimal_text(Decimal { negative: true, ..d }) == seq!['-'] + decimal_text(d),
{
    let ds = number::natural_text(d.digits as nat);
    number::natural_text_reads_back(d.digits as nat);
    let m = ds.len() as int;
    assert forall|i: int| 0 <= i < m implies '0' <= #[trigger] ds[i] <= '9' by {
        assert(number::is_digit(ds[i]));
    }
    let s = decimal_text(d);
    let n = s.len() as int;
    let point = m + d.exp;
    assert(ds[m - 1] == number::digit_char(d.digits as int % 10));
    assert(d.digits != 0 ==> ds[m - 1] != '0');
    if d.digits == 0 {
        assert(m == 1 && ds[0] == '0');
        assert(s =~= seq!['0', '.', '0']);
        assert(s[1] == '.');
    } else if point <= 0 {
        assert(s[1] == '.');
        assert(s[n - 1] == ds[m - 1]);
    } else if d.exp >= 0 {
        assert(s[n - 2] == '.');
        assert(s[0] == ds[0]);
    } else {
        assert(s[point] == '.');
        assert(s[0] == ds[0]);
        assert(s[n - 1] == ds[m - 1]);
    }
}

/// Very large and very small decimals: from ten to the power of sixteen on, and below 0.0001, a
/// decimal is written as its first digit, its other digits behind a point where it has any, an
/// `e` and the power of ten of the first digit.
pub proof fn law_extreme_decimals_are_written_with_an_exponent(d: Decimal)
    requires
        !d.negative,
        d.digits != 0,
        ({
            let point = number::natural_text(d.digits as nat).len() + d.exp;
            point < -3 || point > 16
        }),
    ensures
        ({
            let ds = number::natural_text(d.digits as nat);
            let power = number::integer_text(ds.len() + d.exp - 1);
            let s = decimal_text(d);
            let m = ds.len() as int;
            &&& m == 1 ==> s == ds + seq!['e'] + power
            &&& m > 1 ==> s == seq![ds[0], '.'] + ds.skip(1) + seq!['e'] + power
        }),
        decimal_text(Decimal { negative: true, ..d }) == seq!['-'] + decimal_text(d),
{
    let ds = number::natural_text(d.digits as nat);
    number::natural_text_reads_back(d.digits as nat);
    let power = number::integer_text(ds.len() + d.exp - 1);
    if ds.len() > 1 {
        assert(decimal_text(d) =~= seq![ds[0], '.'] + ds.skip(1) + seq!['e'] + power);
    }
}

/// Exponents: an `e` and an integer behind the digits move the point by that many places.
pub proof fn law_exponents_move_the_point(whole: Seq<char>, behind: Seq<char>, k: i64)
    requires
        number::natural_of(whole) is Some,
        number::natural_of(behind) is Some,
        number::digits_value(whole + behind) <= u64::MAX,
    ensures
        ({
            let text = whole + seq!['.'] + behind + seq!['e'] + number::integer_text(k as int);
            let n = number::digits_value(whole + behind) as nat;
            decimal_of(text) == normalised(false, n, k - behind.len())
        }),
{
    let power = number::integer_text(k as int);
    let rest = seq!['e'] + power;
    let text = whole + seq!['.'] + behind + seq!['e'] + power;
    let m = whole.len() as int;
    let f = behind.len() as int;
    number::law_integer_text_reads_back(k);
    leading_digits_of(whole, seq!['.'] + behind + rest);
    assert(text =~= whole + (seq!['.'] + behind + rest));
    assert(text.take(m) =~= whole);
    let tail = text.skip(m + 1);
    assert(tail =~= behind + rest);
    leading_digits_of(behind, rest);
    assert(tail.take(f) =~= behind);
    assert(tail.skip(f) =~= rest);
    assert(rest.skip(1) =~= power);
    assert(number::is_digit(whole[0]));
    assert(text[0] == whole[0]);
    digits_below_power(whole + behind);
}

/// No decimals: a text that does not start with a digit, or with a minus sign and a digit, is no
/// decimal, and neither is one with a point that no digit follows.
pub proof fn law_other_texts_are_no_decimals(s: Seq<char>, whole: Seq<char>, rest: Seq<char>)
    ensures
        s.len() == 0 ==> decimal_of(s) is None,
        s.len() > 0 && s[0] != '-' && !('0' <= s[0] <= '9') ==> decimal_of(s) is None,
        s.len() > 1 && s[0] == '-' && !('0' <= s[1] <= '9') ==> decimal_of(s) is None,
        s.len() == 1 && s[0] == '-' ==> decimal_of(s) is None,
        number::natural_of(whole) is Some && (rest.len() > 0 ==> !('0' <= rest[0] <= '9'))
            ==> decimal_of(whole + seq!['.'] + rest) is None,
{
    if s.len() > 1 && s[0] == '-' {
        assert(s.skip(1)[0] == s[1]);
    }
    if number::natural_of(whole) is Some && (rest.len() > 0 ==> !('0' <= rest[0] <= '9')) {
        let t = whole + seq!['.'] + rest;
        leading_digits_of(whole, seq!['.'] + rest);
        assert(t =~= whole + (seq!['.'] + rest));
        assert(t.skip(whole.len() as int + 1) =~= rest);
        assert(number::is_digit(whole[0]));
        assert(t[0] == whole[0]);
    }
}

} // verus!
