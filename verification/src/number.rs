//! Decimal integers as text: what a run of digits means, and how an integer is written.

use vstd::prelude::*;
use vstd::slice::slice_subrange;
use vstd::string::StringExecFns;

verus! {

/// Whether a character is an ASCII digit.
pub open spec fn is_digit(c: char) -> bool {
    '0' <= c && c <= '9'
}

/// The value of an ASCII digit.
pub open spec fn digit_of(c: char) -> int {
    c as int - '0' as int
}

/// Whether a text is made of ASCII digits alone.
pub open spec fn all_digits(s: Seq<char>) -> bool {
    forall|i: int| 0 <= i < s.len() ==> is_digit(#[trigger] s[i])
}

/// The number that a run of digits stands for, most significant digit first.
pub open spec fn digits_value(s: Seq<char>) -> int
    decreases s.len(),
{
    if s.len() == 0 {
        0
    } else {
        digits_value(s.drop_last()) * 10 + digit_of(s.last())
    }
}

/// A natural number in decimal: at least one digit and nothing else.
pub open spec fn natural_of(s: Seq<char>) -> Option<int> {
    if s.len() > 0 && all_digits(s) {
        Some(digits_value(s))
    } else {
        None
    }
}

/// A natural number that may carry a plus sign.
pub open spec fn unsigned_of(s: Seq<char>) -> Option<int> {
    if s.len() > 0 && s[0] == '+' {
        natural_of(s.skip(1))
    } else {
        natural_of(s)
    }
}

/// An integer in decimal, with an optional sign.
pub open spec fn integer_of(s: Seq<char>) -> Option<int> {
    if s.len() > 0 && s[0] == '-' {
        match natural_of(s.skip(1)) {
            Some(n) => Some(-n),
            None => None,
        }
    } else {
        unsigned_of(s)
    }
}

/// The `i64` that a text spells, if it spells one.
pub open spec fn i64_of(s: Seq<char>) -> Option<i64> {
    match integer_of(s) {
        Some(n) => if i64::MIN <= n <= i64::MAX {
            Some(n as i64)
        } else {
            None
        },
        None => None,
    }
}

/// The `u16` that a text spells, if it spells one.
pub open spec fn u16_of(s: Seq<char>) -> Option<u16> {
    match unsigned_of(s) {
        Some(n) => if n <= u16::MAX {
            Some(n as u16)
        } else {
            None
        },
        None => None,
    }
}

/// The digit that stands for a number below ten.
pub open spec fn digit_char(d: int) -> char {
    (d + '0' as int) as char
}

/// A natural number in decimal, without leading zeros.
pub open spec fn natural_text(n: nat) -> Seq<char>
    decreases n,
{
    if n < 10 {
        seq![digit_char(n as int)]
    } else {
        natural_text(n / 10).push(digit_char(n as int % 10))
    }
}

/// An integer in decimal, without leading zeros and with a minus sign where it is negative.
pub open spec fn integer_text(n: int) -> Seq<char> {
    if n < 0 {
        seq!['-'] + natural_text((-n) as nat)
    } else {
        natural_text(n as nat)
    }
}

/// The characters of a text.
pub fn chars_of(s: &str) -> (chars: Vec<char>)
    ensures
        chars@ == s@,
{
    let mut chars: Vec<char> = Vec::new();
    for c in it: s.chars()
        invariant
            it.seq() == s@,
            chars@ == s@.take(it.index() as int),
    {
        chars.push(c);
        assert(s@.take(it.index() + 1) =~= s@.take(it.index() as int).push(c));
    }
    assert(s@.take(s@.len() as int) =~= s@);
    chars
}

proof fn digits_value_bounds(s: Seq<char>)
    requires
        all_digits(s),
    ensures
        digits_value(s) >= 0,
    decreases s.len(),
{
    if s.len() > 0 {
        digits_value_bounds(s.drop_last());
        assert(is_digit(s[s.len() - 1]));
    }
}

/// More digits never make a smaller number.
proof fn digits_value_grows(s: Seq<char>, n: int)
    requires
        all_digits(s),
        0 <= n <= s.len(),
    ensures
        digits_value(s.take(n)) <= digits_value(s),
    decreases s.len(),
{
    if n == s.len() {
        assert(s.take(n) =~= s);
    } else {
        assert(is_digit(s[s.len() - 1]));
        assert(s.drop_last().take(n) =~= s.take(n));
        digits_value_grows(s.drop_last(), n);
        digits_value_bounds(s.drop_last());
    }
}

/// Reads a natural number that fits in a `u64`.
pub fn parse_natural(s: &[char]) -> (r: Option<u64>)
    ensures
        r is Some <==> natural_of(s@) is Some && natural_of(s@)->0 <= u64::MAX,
        r is Some ==> natural_of(s@) == Some(r->0 as int),
{
    let n: usize = s.len();
    if n == 0 {
        return None;
    }
    let mut value: u64 = 0;
    let mut i: usize = 0;
    while i < n
        invariant
            i <= n == s@.len(),
            value == digits_value(s@.take(i as int)),
            all_digits(s@.take(i as int)),
        decreases n - i,
    {
        let c: char = s[i];
        if c < '0' || c > '9' {
            assert(!is_digit(s@[i as int]));
            return None;
        }
        let d: u64 = c as u64 - '0' as u64;
        assert(s@.take(i + 1).drop_last() =~= s@.take(i as int));
        assert(digits_value(s@.take(i + 1)) == value * 10 + d);
        if value > (u64::MAX - d) / 10 {
            proof {
                if all_digits(s@) {
                    digits_value_grows(s@, i + 1);
                }
            }
            return None;
        }
        value = value * 10 + d;
        i = i + 1;
    }
    assert(s@.take(n as int) =~= s@);
    Some(value)
}

/// Reads an `i64`, as `str::parse` does: an optional sign, then digits.
pub fn parse_i64(s: &str) -> (r: Option<i64>)
    ensures
        r == i64_of(s@),
{
    let chars: Vec<char> = chars_of(s);
    parse_i64_chars(chars.as_slice())
}

/// Reads an `i64` from the characters that spell it.
pub fn parse_i64_chars(s: &[char]) -> (r: Option<i64>)
    ensures
        r == i64_of(s@),
{
    let n: usize = s.len();
    if n > 0 && s[0] == '-' {
        let rest: &[char] = slice_subrange(s, 1, n);
        assert(rest@ =~= s@.skip(1));
        match parse_natural(rest) {
            Some(v) => {
                if v < 0x8000_0000_0000_0000 {
                    Some(-(v as i64))
                } else if v == 0x8000_0000_0000_0000 {
                    Some(i64::MIN)
                } else {
                    None
                }
            },
            None => None,
        }
    } else {
        match parse_unsigned(s) {
            Some(v) => if v <= 0x7fff_ffff_ffff_ffff {
                Some(v as i64)
            } else {
                None
            },
            None => {
                proof {
                    if let Some(v) = unsigned_of(s@) {
                        assert(v > u64::MAX);
                    }
                }
                None
            },
        }
    }
}

fn parse_unsigned(s: &[char]) -> (r: Option<u64>)
    ensures
        r is Some <==> unsigned_of(s@) is Some && unsigned_of(s@)->0 <= u64::MAX,
        r is Some ==> unsigned_of(s@) == Some(r->0 as int),
{
    let n: usize = s.len();
    if n > 0 && s[0] == '+' {
        let rest: &[char] = slice_subrange(s, 1, n);
        assert(rest@ =~= s@.skip(1));
        parse_natural(rest)
    } else {
        parse_natural(s)
    }
}

/// Reads a `u16`, as `str::parse` does: an optional plus sign, then digits.
pub fn parse_u16(s: &str) -> (r: Option<u16>)
    ensures
        r == u16_of(s@),
{
    let chars: Vec<char> = chars_of(s);
    match parse_unsigned(chars.as_slice()) {
        Some(v) => if v <= 0xffff {
            Some(v as u16)
        } else {
            None
        },
        None => {
            proof {
                if let Some(v) = unsigned_of(s@) {
                    assert(v > u64::MAX);
                }
            }
            None
        },
    }
}

fn digit_text(d: u64) -> (s: &'static str)
    requires
        d < 10,
    ensures
        s@ == seq![digit_char(d as int)],
{
    proof {
        reveal_strlit("0");
        reveal_strlit("1");
        reveal_strlit("2");
        reveal_strlit("3");
        reveal_strlit("4");
        reveal_strlit("5");
        reveal_strlit("6");
        reveal_strlit("7");
        reveal_strlit("8");
        reveal_strlit("9");
    }
    let s = if d == 0 {
        "0"
    } else if d == 1 {
        "1"
    } else if d == 2 {
        "2"
    } else if d == 3 {
        "3"
    } else if d == 4 {
        "4"
    } else if d == 5 {
        "5"
    } else if d == 6 {
        "6"
    } else if d == 7 {
        "7"
    } else if d == 8 {
        "8"
    } else {
        "9"
    };
    assert(s@ =~= seq![digit_char(d as int)]);
    s
}

/// Writes a natural number in decimal.
pub fn write_natural(n: u64) -> (s: String)
    ensures
        s@ == natural_text(n as nat),
    decreases n,
{
    if n < 10 {
        digit_text(n).to_owned()
    } else {
        let mut s: String = write_natural(n / 10);
        s.append(digit_text(n % 10));
        assert(s@ =~= natural_text(n as nat));
        s
    }
}

/// Writes an integer in decimal.
pub fn write_integer(n: i64) -> (s: String)
    ensures
        s@ == integer_text(n as int),
{
    if n < 0 {
        proof {
            reveal_strlit("-");
        }
        let mut s: String = "-".to_owned();
        let magnitude: u64 = (-(n as i128)) as u64;
        s.append(write_natural(magnitude).as_str());
        assert(s@ =~= integer_text(n as int));
        s
    } else {
        write_natural(n as u64)
    }
}

/// What is written as a natural number is digits, and reads back as that number.
pub proof fn natural_text_reads_back(n: nat)
    ensures
        natural_of(natural_text(n)) == Some(n as int),
        natural_text(n).len() > 0,
        natural_text(n)[0] == '0' ==> n == 0,
    decreases n,
{
    let s = natural_text(n);
    if n < 10 {
        assert(s.drop_last() =~= Seq::empty());
        assert(digits_value(s.drop_last()) == 0);
        assert(is_digit(s[0]));
    } else {
        natural_text_reads_back(n / 10);
        assert(s.drop_last() =~= natural_text(n / 10));
        assert forall|i: int| 0 <= i < s.len() implies is_digit(#[trigger] s[i]) by {
            if i < s.len() - 1 {
                assert(is_digit(natural_text(n / 10)[i]));
            }
        }
    }
}

/// Integers: what is written for an integer reads back as that integer.
pub proof fn law_integer_text_reads_back(n: i64)
    ensures
        i64_of(integer_text(n as int)) == Some(n),
{
    let m = if n < 0 {
        (-n) as nat
    } else {
        n as nat
    };
    natural_text_reads_back(m);
    let s = integer_text(n as int);
    if n < 0 {
        assert(s.skip(1) =~= natural_text(m));
    } else {
        assert(is_digit(s[0]));
    }
}

/// An integer is written without line breaks.
pub proof fn integer_text_is_one_line(n: int)
    ensures
        !integer_text(n).contains('\n'),
{
    let m = if n < 0 {
        (-n) as nat
    } else {
        n as nat
    };
    natural_text_reads_back(m);
    let digits = natural_text(m);
    let s = integer_text(n);
    if s.contains('\n') {
        let i = choose|i: int| 0 <= i < s.len() && s[i] == '\n';
        if n < 0 {
            assert(i > 0 && is_digit(digits[i - 1]));
        } else {
            assert(is_digit(digits[i]));
        }
    }
}

/// Digits: a natural number is read digit by digit, each one counting ten times the next, and a
/// text with any other character, or with none, is no natural number.
pub proof fn law_naturals_are_read_digit_by_digit(s: Seq<char>, c: char)
    ensures
        natural_of(Seq::empty()) is None,
        '0' <= c <= '9' ==> natural_of(seq![c]) == Some(c as int - '0' as int),
        natural_of(s) matches Some(n) ==> '0' <= c <= '9' ==> natural_of(s.push(c)) == Some(
            10 * n + (c as int - '0' as int),
        ),
        !('0' <= c <= '9') && s.contains(c) ==> natural_of(s) is None,
{
    let one = seq![c];
    assert(one.drop_last() =~= Seq::empty());
    assert(digits_value(one.drop_last()) == 0);
    assert('0' <= c <= '9' ==> all_digits(one));
    if let Some(n) = natural_of(s) {
        let t = s.push(c);
        assert(t.drop_last() =~= s);
        if '0' <= c <= '9' {
            assert forall|i: int| 0 <= i < t.len() implies is_digit(#[trigger] t[i]) by {
                if i < s.len() {
                    assert(is_digit(s[i]));
                }
            }
        }
        if s.contains(c) {
            let i = choose|i: int| 0 <= i < s.len() && s[i] == c;
            assert(is_digit(s[i]));
        }
    }
}

/// Signs: digits may carry a plus sign, which changes nothing, and for a signed number a minus
/// sign, which negates it; a number that does not fit is none.
pub proof fn law_signs_are_read(s: Seq<char>, n: int)
    requires
        natural_of(s) == Some(n),
    ensures
        i64_of(s) == (if n <= i64::MAX {
            Some(n as i64)
        } else {
            None
        }),
        i64_of(seq!['+'] + s) == i64_of(s),
        i64_of(seq!['-'] + s) == (if -n >= i64::MIN {
            Some((-n) as i64)
        } else {
            None
        }),
        u16_of(s) == (if n <= u16::MAX {
            Some(n as u16)
        } else {
            None
        }),
        u16_of(seq!['+'] + s) == u16_of(s),
        u16_of(seq!['-'] + s) is None,
{
    digits_value_bounds(s);
    assert(is_digit(s[0]));
    assert((seq!['+'] + s).skip(1) =~= s);
    assert((seq!['-'] + s).skip(1) =~= s);
    let minus = seq!['-'] + s;
    assert(!is_digit(minus[0]));
}

/// Nothing but numbers: a text that is neither digits nor a sign with digits behind it spells no
/// number.
pub proof fn law_other_texts_are_no_numbers(s: Seq<char>)
    requires
        natural_of(s) is None,
        s.len() > 0 ==> natural_of(s.skip(1)) is None || (s[0] != '+' && s[0] != '-'),
    ensures
        i64_of(s) is None,
        u16_of(s) is None,
{
}

/// Written numbers: an integer is written with a minus sign where it is negative, and then with
/// digits that spell its size, of which the first is a zero for zero alone.
pub proof fn law_integers_are_written_plainly(n: int)
    ensures
        n >= 0 ==> natural_of(integer_text(n)) == Some(n),
        n >= 0 && integer_text(n)[0] == '0' ==> n == 0 && integer_text(n).len() == 1,
        n < 0 ==> integer_text(n) == seq!['-'] + integer_text(-n),
{
    if n >= 0 {
        natural_text_reads_back(n as nat);
        if n == 0 {
            assert(integer_text(0).len() == 1);
        }
    }
}

} // verus!
