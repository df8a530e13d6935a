use crate::text::{chars_of, push_chars, same_chars, string_of};
use vstd::prelude::*;

verus! {

/// A number of the language: an exact fraction `numerator / denominator`
/// in lowest terms with a positive denominator, or, with a zero
/// denominator, positive infinity (numerator 1), negative infinity (-1) or
/// NaN (0). Arithmetic is exact; a result whose computation leaves the
/// bounds of `i128` becomes the infinity of its sign, and infinities and
/// NaN combine as in IEEE 754.
#[derive(Clone, Copy, Debug, PartialEq, Eq, Structural)]
pub struct Number {
    numerator: i128,
    denominator: i128,
}

pub open spec fn fits(x: int) -> bool {
    i128::MIN <= x <= i128::MAX
}

pub open spec fn pow10(k: nat) -> int
    decreases k,
{
    if k == 0 {
        1
    } else {
        10 * pow10((k - 1) as nat)
    }
}

pub open spec fn is_decimal_digit(c: char) -> bool {
    '0' <= c && c <= '9'
}

pub open spec fn digit_value(c: char) -> int {
    (c as int) - ('0' as int)
}

pub open spec fn digit_char(d: int) -> char {
    if d <= 0 {
        '0'
    } else if d == 1 {
        '1'
    } else if d == 2 {
        '2'
    } else if d == 3 {
        '3'
    } else if d == 4 {
        '4'
    } else if d == 5 {
        '5'
    } else if d == 6 {
        '6'
    } else if d == 7 {
        '7'
    } else if d == 8 {
        '8'
    } else {
        '9'
    }
}

/// The integer written by the digits of `s`, any `.` left out.
pub open spec fn digits_value(s: Seq<char>) -> int
    decreases s.len(),
{
    if s.len() == 0 {
        0
    } else if s.last() == '.' {
        digits_value(s.drop_last())
    } else {
        10 * digits_value(s.drop_last()) + digit_value(s.last())
    }
}

/// The number of characters of `s` after its first `.` (0 when it has none).
pub open spec fn fraction_len(s: Seq<char>) -> nat
    decreases s.len(),
{
    if s.len() == 0 {
        0
    } else if s.last() == '.' {
        fraction_len(s.drop_last())
    } else if s.drop_last().contains('.') {
        fraction_len(s.drop_last()) + 1
    } else {
        0
    }
}

/// The numerator and denominator that a numeral is read as.
pub open spec fn numeral_parts(s: Seq<char>) -> (int, int) {
    (digits_value(s), pow10(fraction_len(s)))
}

/// The greatest common divisor, by Euclid's algorithm.
pub open spec fn gcd(a: nat, b: nat) -> nat
    decreases b,
{
    if b == 0 {
        a
    } else {
        gcd(b, a % b)
    }
}

pub open spec fn sign(x: int) -> int {
    if x > 0 {
        1
    } else if x < 0 {
        -1
    } else {
        0
    }
}

/// `n / d`, for a positive `d`, in lowest terms.
pub open spec fn reduced(n: int, d: int) -> (int, int) {
    let g = gcd(abs(n), d as nat) as int;
    (sign(n) * (abs(n) as int / g), d / g)
}

/// A number as mathematics: a fraction `n / d` with `d > 0`, an infinity,
/// or not a number.
pub enum Num {
    Finite(int, int),
    PosInf,
    NegInf,
    NaN,
}

/// The sign of a number; NaN has none.
pub open spec fn num_sign(x: Num) -> int {
    match x {
        Num::Finite(n, _) => sign(n),
        Num::PosInf => 1,
        Num::NegInf => -1,
        Num::NaN => 0,
    }
}

/// What a result past the bounds of `i128` becomes: the infinity of its
/// sign (a zero result is exact zero).
pub open spec fn beyond_bounds(s: int) -> Num {
    if s > 0 {
        Num::PosInf
    } else if s < 0 {
        Num::NegInf
    } else {
        Num::Finite(0, 1)
    }
}

/// `n / d` in lowest terms when its computation stayed within `i128`
/// (`within`), else the infinity of its sign.
pub open spec fn finite_result(n: int, d: int, within: bool) -> Num {
    if within {
        Num::Finite(reduced(n, d).0, reduced(n, d).1)
    } else {
        beyond_bounds(sign(n))
    }
}

/// `x + y`, or `x - y` when `negate`. Over finite numbers the result is
/// `(a * d ± c * b) / (b * d)` in lowest terms, each of those products and
/// the sum staying within `i128`; infinities and NaN follow IEEE 754.
pub open spec fn sum_num(x: Num, y: Num, negate: bool) -> Num {
    let y = if negate {
        match y {
            Num::PosInf => Num::NegInf,
            Num::NegInf => Num::PosInf,
            _ => y,
        }
    } else {
        y
    };
    match (x, y) {
        (Num::Finite(a, b), Num::Finite(c, d)) => {
            let n = if negate {
                a * d - c * b
            } else {
                a * d + c * b
            };
            finite_result(
                n,
                b * d,
                fits(a * d) && fits(c * b) && fits(n) && fits(b * d),
            )
        },
        (Num::NaN, _) => Num::NaN,
        (_, Num::NaN) => Num::NaN,
        (Num::PosInf, Num::NegInf) => Num::NaN,
        (Num::NegInf, Num::PosInf) => Num::NaN,
        (Num::PosInf, _) => Num::PosInf,
        (_, Num::PosInf) => Num::PosInf,
        _ => Num::NegInf,
    }
}

/// `x * y`: over finite numbers `(a * c) / (b * d)` in lowest terms, both
/// products staying within `i128`; an infinity times zero is NaN.
pub open spec fn product_num(x: Num, y: Num) -> Num {
    match (x, y) {
        (Num::Finite(a, b), Num::Finite(c, d)) => finite_result(
            a * c,
            b * d,
            fits(a * c) && fits(b * d),
        ),
        (Num::NaN, _) => Num::NaN,
        (_, Num::NaN) => Num::NaN,
        _ => if num_sign(x) == 0 || num_sign(y) == 0 {
            Num::NaN
        } else {
            beyond_bounds(num_sign(x) * num_sign(y))
        },
    }
}

/// `x / y`: over finite numbers with `c != 0` the fraction `a * d / (b * c)`
/// with the sign moved up, in lowest terms, both products staying within
/// `i128`; a nonzero number over zero is the infinity of its sign, zero over
/// zero is NaN, a finite number over an infinity is zero.
pub open spec fn quotient_num(x: Num, y: Num) -> Num {
    match (x, y) {
        (Num::Finite(a, b), Num::Finite(c, d)) => if c == 0 {
            if a == 0 {
                Num::NaN
            } else {
                beyond_bounds(sign(a))
            }
        } else if c > 0 {
            finite_result(a * d, b * c, fits(a * d) && fits(b * c))
        } else {
            finite_result(a * -d, b * -c, fits(a * -d) && fits(b * -c))
        },
        (Num::NaN, _) => Num::NaN,
        (_, Num::NaN) => Num::NaN,
        (Num::Finite(_, _), _) => Num::Finite(0, 1),
        (_, Num::Finite(c, _)) => beyond_bounds(
            num_sign(x) * if c < 0 {
                -1int
            } else {
                1int
            },
        ),
        _ => Num::NaN,
    }
}

/// `-x`; a numerator of `i128::MIN` has no negation within bounds.
pub open spec fn negation_num(x: Num) -> Num {
    match x {
        Num::Finite(a, b) => if fits(-a) {
            Num::Finite(-a, b)
        } else {
            Num::PosInf
        },
        Num::PosInf => Num::NegInf,
        Num::NegInf => Num::PosInf,
        Num::NaN => Num::NaN,
    }
}

/// How a number reads: decimal, `inf`, `-inf` or `NaN`.
pub open spec fn number_text(x: Num) -> Seq<char> {
    match x {
        Num::Finite(n, d) => decimal_text(n, d),
        Num::PosInf => "inf"@,
        Num::NegInf => "-inf"@,
        Num::NaN => "NaN"@,
    }
}

/// The decimal digits of a natural number, most significant first.
pub open spec fn int_digits(q: nat) -> Seq<char>
    decreases q,
{
    if q < 10 {
        seq![digit_char(q as int)]
    } else {
        int_digits(q / 10) + seq![digit_char((q % 10) as int)]
    }
}

/// Up to `k` digits of the fraction `r / d`, stopping once it is exhausted.
pub open spec fn fraction_digits(r: nat, d: nat, k: nat) -> Seq<char>
    decreases k,
{
    if r == 0 || k == 0 || d == 0 {
        seq![]
    } else {
        seq![digit_char(((10 * r) as int) / (d as int))] + fraction_digits(
            (((10 * r) as int) % (d as int)) as nat,
            d,
            (k - 1) as nat,
        )
    }
}

/// The most digits written after the decimal point.
pub const FRACTION_DIGITS: u32 = 17;

pub open spec fn abs(x: int) -> nat {
    if x < 0 {
        (-x) as nat
    } else {
        x as nat
    }
}

/// The decimal form of `n / d`: a sign, the integer part, and the fraction
/// after a point unless it is zero.
pub open spec fn decimal_text(n: int, d: int) -> Seq<char> {
    let q = abs(n) / (d as nat);
    let r = abs(n) % (d as nat);
    let sign = if n < 0 {
        seq!['-']
    } else {
        seq![]
    };
    if r == 0 {
        sign + int_digits(q)
    } else {
        sign + int_digits(q) + seq!['.'] + fraction_digits(r, d as nat, FRACTION_DIGITS as nat)
    }
}

proof fn lemma_pow10_positive(k: nat)
    ensures
        pow10(k) >= 1,
    decreases k,
{
    if k > 0 {
        lemma_pow10_positive((k - 1) as nat);
    }
}

proof fn lemma_digits_monotone(s: Seq<char>, i: int)
    requires
        0 <= i <= s.len(),
        forall|k: int| 0 <= k < s.len() ==> #[trigger] is_decimal_digit(s[k]) || s[k] == '.',
    ensures
        0 <= digits_value(s.subrange(0, i)) <= digits_value(s),
        1 <= pow10(fraction_len(s.subrange(0, i))) <= pow10(fraction_len(s)),
    decreases s.len() - i,
{
    if i == s.len() {
        assert(s.subrange(0, i) == s);
        lemma_digits_nonnegative(s);
        lemma_pow10_positive(fraction_len(s));
    } else {
        let t = s.subrange(0, i + 1);
        lemma_digits_monotone(s, i + 1);
        assert(t.drop_last() == s.subrange(0, i));
        assert(is_decimal_digit(t.last()) || t.last() == '.');
        lemma_digits_nonnegative(s.subrange(0, i));
        lemma_pow10_positive(fraction_len(s.subrange(0, i)));
    }
}

proof fn lemma_digits_nonnegative(s: Seq<char>)
    requires
        forall|k: int| 0 <= k < s.len() ==> #[trigger] is_decimal_digit(s[k]) || s[k] == '.',
    ensures
        digits_value(s) >= 0,
    decreases s.len(),
{
    if s.len() > 0 {
        let t = s.drop_last();
        assert forall|k: int| 0 <= k < t.len() implies #[trigger] is_decimal_digit(t[k]) || t[k] == '.' by {
            assert(t[k] == s[k]);
        }
        lemma_digits_nonnegative(t);
        assert(is_decimal_digit(s[s.len() - 1]) || s[s.len() - 1] == '.');
    }
}

/// The digit character for `d`, for `d < 10`.
fn digit(d: u128) -> (c: char)
    requires
        d < 10,
    ensures
        c == digit_char(d as int),
{
    if d == 0 {
        '0'
    } else if d == 1 {
        '1'
    } else if d == 2 {
        '2'
    } else if d == 3 {
        '3'
    } else if d == 4 {
        '4'
    } else if d == 5 {
        '5'
    } else if d == 6 {
        '6'
    } else if d == 7 {
        '7'
    } else if d == 8 {
        '8'
    } else {
        '9'
    }
}

/// Appends the decimal digits of `q`.
fn push_int_digits(q: u128, out: &mut Vec<char>)
    ensures
        final(out)@ == old(out)@ + int_digits(q as nat),
    decreases q,
{
    if q >= 10 {
        push_int_digits(q / 10, out);
    }
    out.push(digit(q % 10));
}

/// `(10 * r / d, 10 * r % d)` for `r < d`, without leaving the bounds of `u128`.
fn next_fraction_digit(r: u128, d: u128) -> (res: (u128, u128))
    requires
        r < d,
        d <= i128::MAX,
    ensures
        res.0 == (10 * r) as int / (d as int),
        res.1 == (10 * r) as int % (d as int),
        res.0 < 10,
{
    let mut acc: u128 = 0;
    let mut dig: u128 = 0;
    let mut i: u128 = 0;
    while i < 10
        invariant
            r < d,
            d <= i128::MAX,
            i <= 10,
            acc < d,
            dig <= i,
            acc + dig * d == i * r,
        decreases 10 - i,
    {
        let ghost a0 = acc as int;
        let ghost g0 = dig as int;
        let ghost i0 = i as int;
        assert(a0 + g0 * d == i0 * r);
        acc = acc + r;
        if acc >= d {
            acc = acc - d;
            dig = dig + 1;
        }
        i = i + 1;
        proof {
            assert((g0 + 1) * (d as int) == g0 * (d as int) + d) by (nonlinear_arith);
            assert((i0 + 1) * (r as int) == i0 * (r as int) + r) by (nonlinear_arith);
            assert(acc + dig * d == (i0 + 1) * r);
        }
    }
    proof {
        vstd::arithmetic::div_mod::lemma_fundamental_div_mod_converse(
            (10 * r) as int,
            d as int,
            dig as int,
            acc as int,
        );
        assert(dig < 10) by (nonlinear_arith)
            requires
                acc + dig * d == 10 * r,
                r < d,
                acc >= 0,
        ;
    }
    (dig, acc)
}

/// Appends up to `k` digits of the fraction `r / d`.
fn push_fraction_digits(r: u128, d: u128, k: u32, out: &mut Vec<char>)
    requires
        r < d,
        d <= i128::MAX,
    ensures
        final(out)@ == old(out)@ + fraction_digits(r as nat, d as nat, k as nat),
    decreases k,
{
    if r != 0 && k != 0 {
        let (dig, rest) = next_fraction_digit(r, d);
        out.push(digit(dig));
        push_fraction_digits(rest, d, k - 1, out);
        proof {
            assert(fraction_digits(r as nat, d as nat, k as nat) == seq![digit_char(dig as int)]
                + fraction_digits(rest as nat, d as nat, (k - 1) as nat));
        }
    }
}

/// The decimal digits of `value`.
pub fn integer_text(value: usize) -> (r: Vec<char>)
    ensures
        r@ == int_digits(value as nat),
{
    let mut out: Vec<char> = Vec::new();
    push_int_digits(value as u128, &mut out);
    out
}

proof fn lemma_gcd_divides(a: nat, b: nat)
    requires
        a > 0 || b > 0,
    ensures
        gcd(a, b) > 0,
        a % gcd(a, b) == 0,
        b % gcd(a, b) == 0,
    decreases b,
{
    if b == 0 {
        vstd::arithmetic::div_mod::lemma_mod_self_0(a as int);
        vstd::arithmetic::div_mod::lemma_small_mod(0, a);
    } else {
        lemma_gcd_divides(b, a % b);
        let g = gcd(b, a % b) as int;
        let (ai, bi, ri) = (a as int, b as int, (a % b) as int);
        vstd::arithmetic::div_mod::lemma_fundamental_div_mod(ai, bi);
        vstd::arithmetic::div_mod::lemma_fundamental_div_mod(bi, g);
        vstd::arithmetic::div_mod::lemma_fundamental_div_mod(ri, g);
        let k = (bi / g) * (ai / bi) + ri / g;
        assert(ai == k * g) by (nonlinear_arith)
            requires
                ai == bi * (ai / bi) + ri,
                bi == g * (bi / g),
                ri == g * (ri / g),
                k == (bi / g) * (ai / bi) + ri / g,
        ;
        vstd::arithmetic::div_mod::lemma_mod_multiples_basic(k, g);
    }
}

proof fn lemma_gcd_one(a: nat)
    ensures
        gcd(a, 1) == 1,
{
    assert(a % 1 == 0);
    assert(gcd(1, 0) == 1);
}

/// `gcd(a, b)`.
fn gcd_u128(a: u128, b: u128) -> (r: u128)
    ensures
        r == gcd(a as nat, b as nat),
{
    let mut x = a;
    let mut y = b;
    while y != 0
        invariant
            gcd(x as nat, y as nat) == gcd(a as nat, b as nat),
        decreases y,
    {
        let t = x % y;
        x = y;
        y = t;
    }
    x
}

/// `|n|`.
fn magnitude(n: i128) -> (r: u128)
    ensures
        r == abs(n as int),
{
    if n < 0 {
        ((-(n + 1)) as u128) + 1
    } else {
        n as u128
    }
}

/// The sign of `x * d - y * b`, for positive `b` and `d`, without leaving
/// the bounds of `u128`.
fn compare_fractions(x: u128, b: u128, y: u128, d: u128) -> (r: i8)
    requires
        b > 0,
        d > 0,
    ensures
        r == sign(x * d - y * b),
    decreases b + d,
{
    let q1 = x / b;
    let r1 = x % b;
    let q2 = y / d;
    let r2 = y % d;
    proof {
        let (xi, bi, yi, di) = (x as int, b as int, y as int, d as int);
        let (q1i, r1i, q2i, r2i) = (q1 as int, r1 as int, q2 as int, r2 as int);
        vstd::arithmetic::div_mod::lemma_fundamental_div_mod(xi, bi);
        vstd::arithmetic::div_mod::lemma_fundamental_div_mod(yi, di);
        assert(xi * di - yi * bi == (q1i - q2i) * (bi * di) + (r1i * di - r2i * bi)) by (
        nonlinear_arith)
            requires
                xi == bi * q1i + r1i,
                yi == di * q2i + r2i,
        ;
        assert(0 <= r1i * di < bi * di && 0 <= r2i * bi < bi * di) by (nonlinear_arith)
            requires
                0 <= r1i < bi,
                0 <= r2i < di,
        ;
        if q1i > q2i {
            assert((q1i - q2i) * (bi * di) >= bi * di) by (nonlinear_arith)
                requires
                    q1i - q2i >= 1,
                    bi * di > 0,
            ;
        } else if q1i < q2i {
            assert((q1i - q2i) * (bi * di) <= -(bi * di)) by (nonlinear_arith)
                requires
                    q1i - q2i <= -1,
                    bi * di > 0,
            ;
        }
        assert(r1i * di == di * r1i && r2i * bi == bi * r2i) by (nonlinear_arith);
        if r1i == 0 && r2i > 0 {
            assert(r2i * bi > 0) by (nonlinear_arith)
                requires
                    r2i > 0,
                    bi > 0,
            ;
        }
        if r1i == 0 {
            assert(r1i * di == 0) by (nonlinear_arith)
                requires
                    r1i == 0,
            ;
        }
        if r2i == 0 {
            assert(r2i * bi == 0) by (nonlinear_arith)
                requires
                    r2i == 0,
            ;
        }
        if q1i == q2i {
            assert((q1i - q2i) * (bi * di) == 0) by (nonlinear_arith)
                requires
                    q1i == q2i,
            ;
        }
        if r2i == 0 && r1i > 0 {
            assert(r1i * di > 0) by (nonlinear_arith)
                requires
                    r1i > 0,
                    di > 0,
            ;
        }
    }
    if q1 > q2 {
        1
    } else if q1 < q2 {
        -1
    } else if r1 == 0 && r2 == 0 {
        0
    } else if r1 == 0 {
        -1
    } else if r2 == 0 {
        1
    } else {
        compare_fractions(d, r2, b, r1)
    }
}

/// The sign of `a * d + c * b` (`a * d - c * b` when `negate`), for
/// positive `b` and `d`.
fn sign_of_sum(a: i128, b: i128, c: i128, d: i128, negate: bool) -> (r: i8)
    requires
        b > 0,
        d > 0,
    ensures
        r == sign(
            if negate {
                a * d - c * b
            } else {
                a * d + c * b
            },
        ),
{
    let ghost total = if negate {
        a * d - c * b
    } else {
        a * d + c * b
    };
    // the second term's sign, once `negate` is applied
    let sc: i8 = if c == 0 {
        0
    } else if (c > 0) != negate {
        1
    } else {
        -1
    };
    let ma = magnitude(a);
    let mc = magnitude(c);
    proof {
        let (ai, bi, ci, di) = (a as int, b as int, c as int, d as int);
        let t2 = if negate {
            -(ci * bi)
        } else {
            ci * bi
        };
        assert(total == ai * di + t2);
        assert(sign(ai * di) == sign(ai)) by (nonlinear_arith)
            requires
                di > 0,
        ;
        assert(sign(ci * bi) == sign(ci)) by (nonlinear_arith)
            requires
                bi > 0,
        ;
        assert(ma * di == abs(ai * di) && mc * bi == abs(ci * bi)) by (nonlinear_arith)
            requires
                ma == abs(ai),
                mc == abs(ci),
                bi > 0,
                di > 0,
        ;
    }
    if a >= 0 && sc >= 0 {
        if a == 0 && sc == 0 {
            0
        } else {
            1
        }
    } else if a <= 0 && sc <= 0 {
        -1
    } else if a > 0 {
        compare_fractions(ma, b as u128, mc, d as u128)
    } else {
        -compare_fractions(ma, b as u128, mc, d as u128)
    }
}

impl Number {
    #[verifier::type_invariant]
    spec fn inv(self) -> bool {
        self.denominator > 0 || (self.denominator == 0 && -1 <= self.numerator <= 1)
    }

    /// The number as mathematics.
    pub closed spec fn model(self) -> Num {
        if self.denominator > 0 {
            Num::Finite(self.numerator as int, self.denominator as int)
        } else if self.numerator > 0 {
            Num::PosInf
        } else if self.numerator < 0 {
            Num::NegInf
        } else {
            Num::NaN
        }
    }

    /// `n / d` in lowest terms, for a positive `d`.
    fn reduce(n: i128, d: i128) -> (r: Number)
        requires
            d > 0,
        ensures
            r.model() == Num::Finite(reduced(n as int, d as int).0, reduced(n as int, d as int).1),
    {
        let m = magnitude(n);
        let g = gcd_u128(m, d as u128);
        proof {
            lemma_gcd_divides(m as nat, d as nat);
            vstd::arithmetic::div_mod::lemma_fundamental_div_mod(d as int, g as int);
            vstd::arithmetic::div_mod::lemma_fundamental_div_mod(m as int, g as int);
            assert((m as int / g as int) <= m) by (nonlinear_arith)
                requires
                    m as int == g * (m as int / g as int),
                    g >= 1,
                    m >= 0,
            ;
            assert(1 <= d as int / g as int <= d) by (nonlinear_arith)
                requires
                    d as int == g * (d as int / g as int),
                    g >= 1,
                    d >= 1,
            ;
        }
        let q = m / g;
        let e = (d as u128) / g;
        proof {
            let gi = gcd(abs(n as int), d as nat) as int;
            assert(gi == g as int);
            assert(q as int == abs(n as int) as int / gi);
            assert(e as int == (d as int) / gi);
            if n == 0 {
                assert(q == 0);
            }
            assert(q <= 170141183460469231731687303715884105728u128);
        }
        let numerator: i128 = if n < 0 {
            if q == 170141183460469231731687303715884105728u128 {
                i128::MIN
            } else {
                -(q as i128)
            }
        } else {
            q as i128
        };
        proof {
            assert(numerator as int == sign(n as int) * (q as int));
        }
        Number { numerator, denominator: e as i128 }
    }

    /// The infinity of sign `s`, or zero when `s` is zero.
    fn beyond(s: i8) -> (r: Number)
        ensures
            r.model() == beyond_bounds(s as int),
    {
        if s > 0 {
            Number { numerator: 1, denominator: 0 }
        } else if s < 0 {
            Number { numerator: -1, denominator: 0 }
        } else {
            Number { numerator: 0, denominator: 1 }
        }
    }

    /// Positive infinity.
    pub fn infinity() -> (r: Number)
        ensures
            r.model() == Num::PosInf,
    {
        Number { numerator: 1, denominator: 0 }
    }

    /// Negative infinity.
    pub fn negative_infinity() -> (r: Number)
        ensures
            r.model() == Num::NegInf,
    {
        Number { numerator: -1, denominator: 0 }
    }

    /// Not a number.
    pub fn nan() -> (r: Number)
        ensures
            r.model() == Num::NaN,
    {
        Number { numerator: 0, denominator: 0 }
    }

    /// The number `numerator / denominator` in lowest terms, if the
    /// denominator is positive.
    pub fn from_ratio(numerator: i128, denominator: i128) -> (r: Option<Number>)
        ensures
            r is Some <==> denominator > 0,
            r is Some ==> r->0.model() == Num::Finite(
                reduced(numerator as int, denominator as int).0,
                reduced(numerator as int, denominator as int).1,
            ),
    {
        if denominator > 0 {
            Some(Self::reduce(numerator, denominator))
        } else {
            None
        }
    }

    /// The whole number `value`.
    pub fn from_integer(value: i64) -> (r: Number)
        ensures
            r.model() == Num::Finite(value as int, 1),
    {
        proof {
            lemma_gcd_one(abs(value as int));
        }
        Number { numerator: value as i128, denominator: 1 }
    }

    /// The result of a finite computation `n / d`, or the infinity of the
    /// sign `s` when it left the bounds of `i128`.
    fn finite_or_beyond(n: Option<i128>, d: Option<i128>, s: i8) -> (r: Number)
        requires
            d is Some ==> d->0 > 0,
        ensures
            (n is Some && d is Some) ==> r.model() == Num::Finite(
                reduced(n->0 as int, d->0 as int).0,
                reduced(n->0 as int, d->0 as int).1,
            ),
            !(n is Some && d is Some) ==> r.model() == beyond_bounds(s as int),
    {
        match (n, d) {
            (Some(n), Some(d)) => Self::reduce(n, d),
            _ => Self::beyond(s),
        }
    }

    /// `a * b`, or `None` past the bounds of `i128`.
    fn times(a: Option<i128>, b: Option<i128>) -> (r: Option<i128>)
        ensures
            (a is Some && b is Some && fits(a->0 * b->0)) <==> r is Some,
            r is Some ==> r->0 == a->0 * b->0,
    {
        match (a, b) {
            (Some(x), Some(y)) => x.checked_mul(y),
            _ => None,
        }
    }

    /// `a + b` (or `a - b` when `negate`), or `None` past the bounds of `i128`.
    fn plus(a: Option<i128>, b: Option<i128>, negate: bool) -> (r: Option<i128>)
        ensures
            (a is Some && b is Some && fits(
                if negate {
                    a->0 - b->0
                } else {
                    a->0 + b->0
                },
            )) <==> r is Some,
            r is Some ==> r->0 == (if negate {
                a->0 - b->0
            } else {
                a->0 + b->0
            }),
    {
        match (a, b) {
            (Some(x), Some(y)) => if negate {
                x.checked_sub(y)
            } else {
                x.checked_add(y)
            },
            _ => None,
        }
    }

    /// `self + other`.
    pub fn add(&self, other: &Number) -> (r: Number)
        ensures
            r.model() == sum_num(self.model(), other.model(), false),
    {
        self.sum(other, false)
    }

    /// `self - other`.
    pub fn subtract(&self, other: &Number) -> (r: Number)
        ensures
            r.model() == sum_num(self.model(), other.model(), true),
    {
        self.sum(other, true)
    }

    fn sum(&self, other: &Number, negate: bool) -> (r: Number)
        ensures
            r.model() == sum_num(self.model(), other.model(), negate),
    {
        proof {
            use_type_invariant(self);
            use_type_invariant(other);
        }
        let (a, b, c, d) = (self.numerator, self.denominator, other.numerator, other.denominator);
        if b == 0 || d == 0 {
            // an infinity or NaN on either side
            let x = if b == 0 { a } else { 0 };
            let y = if d == 0 {
                if negate { -c } else { c }
            } else {
                0
            };
            if (b == 0 && a == 0) || (d == 0 && c == 0) {
                return Self::nan();
            }
            if x != 0 && y != 0 && x != y {
                return Self::nan();
            }
            return Self::beyond(if x != 0 { x as i8 } else { y as i8 });
        }
        let left = Self::times(Some(a), Some(d));
        let right = Self::times(Some(c), Some(b));
        let n = Self::plus(left, right, negate);
        let den = Self::times(Some(b), Some(d));
        proof {
            assert(b * d > 0) by (nonlinear_arith)
                requires
                    b > 0,
                    d > 0,
            ;
        }
        if n.is_some() && den.is_some() {
            Self::finite_or_beyond(n, den, 0)
        } else {
            Self::finite_or_beyond(n, den, sign_of_sum(a, b, c, d, negate))
        }
    }

    /// `self * other`.
    pub fn multiply(&self, other: &Number) -> (r: Number)
        ensures
            r.model() == product_num(self.model(), other.model()),
    {
        proof {
            use_type_invariant(self);
            use_type_invariant(other);
        }
        let (a, b, c, d) = (self.numerator, self.denominator, other.numerator, other.denominator);
        let sa: i8 = if a > 0 { 1 } else if a < 0 { -1 } else { 0 };
        let sc: i8 = if c > 0 { 1 } else if c < 0 { -1 } else { 0 };
        if b == 0 || d == 0 {
            if (b == 0 && a == 0) || (d == 0 && c == 0) || sa == 0 || sc == 0 {
                return Self::nan();
            }
            return Self::beyond(sa * sc);
        }
        proof {
            assert(b * d > 0) by (nonlinear_arith)
                requires
                    b > 0,
                    d > 0,
            ;
            assert(sign(a * c) == sa * sc) by (nonlinear_arith)
                requires
                    sa == sign(a as int),
                    sc == sign(c as int),
            ;
        }
        let n = Self::times(Some(a), Some(c));
        let den = Self::times(Some(b), Some(d));
        Self::finite_or_beyond(n, den, sa * sc)
    }

    /// `self / other`.
    pub fn divide(&self, other: &Number) -> (r: Number)
        ensures
            r.model() == quotient_num(self.model(), other.model()),
    {
        proof {
            use_type_invariant(self);
            use_type_invariant(other);
        }
        let (a, b, c, d) = (self.numerator, self.denominator, other.numerator, other.denominator);
        let sa: i8 = if a > 0 { 1 } else if a < 0 { -1 } else { 0 };
        let sc: i8 = if c > 0 { 1 } else if c < 0 { -1 } else { 0 };
        if (b == 0 && a == 0) || (d == 0 && c == 0) {
            return Self::nan();
        }
        if b == 0 {
            if d == 0 {
                return Self::nan();
            }
            proof {
                assert(num_sign(self.model()) == sa);
                assert(other.model() == Num::Finite(c as int, d as int));
            }
            return Self::beyond(if sc < 0 { -sa } else { sa });
        }
        if d == 0 {
            return Self::beyond(0);
        }
        if c == 0 {
            if a == 0 {
                return Self::nan();
            }
            return Self::beyond(sa);
        }
        proof {
            if c > 0 {
                assert(b * c > 0) by (nonlinear_arith)
                    requires
                        b > 0,
                        c > 0,
                ;
                assert(sign(a * d) == sa) by (nonlinear_arith)
                    requires
                        sa == sign(a as int),
                        d > 0,
                ;
            } else {
                assert(b * -c > 0) by (nonlinear_arith)
                    requires
                        b > 0,
                        c < 0,
                ;
                assert(sign(a * -d) == -sa) by (nonlinear_arith)
                    requires
                        sa == sign(a as int),
                        d > 0,
                ;
                if c == i128::MIN {
                    assert(b * -c >= 170141183460469231731687303715884105728) by (nonlinear_arith)
                        requires
                            b >= 1,
                            -c == 170141183460469231731687303715884105728,
                    ;
                }
            }
        }
        if c > 0 {
            let n = Self::times(Some(a), Some(d));
            let den = Self::times(Some(b), Some(c));
            Self::finite_or_beyond(n, den, sa)
        } else {
            let n = Self::times(Some(a), Some(-d));
            let den = if c == i128::MIN {
                None
            } else {
                Self::times(Some(b), Some(-c))
            };
            Self::finite_or_beyond(n, den, -sa)
        }
    }

    /// `-self`.
    pub fn negate(&self) -> (r: Number)
        ensures
            r.model() == negation_num(self.model()),
    {
        proof {
            use_type_invariant(self);
        }
        if self.numerator == i128::MIN {
            Self::infinity()
        } else {
            Number { numerator: -self.numerator, denominator: self.denominator }
        }
    }

    /// Whether the number is zero.
    pub fn is_zero(&self) -> (r: bool)
        ensures
            r == (self.model() matches Num::Finite(n, _) && n == 0),
    {
        proof {
            use_type_invariant(self);
        }
        self.numerator == 0 && self.denominator != 0
    }

    /// The parts `digits / 10^k` of a numeral, `k` the number of digits after
    /// the point; `None` when one of them is past the bounds of `i128`.
    fn numeral_fraction(s: &[char]) -> (r: Option<(i128, i128)>)
        requires
            forall|k: int| 0 <= k < s@.len() ==> #[trigger] is_decimal_digit(s@[k]) || s@[k] == '.',
        ensures
            r is Some <==> fits(numeral_parts(s@).0) && fits(numeral_parts(s@).1),
            r matches Some(p) ==> p.0 == numeral_parts(s@).0 && p.1 == numeral_parts(s@).1 && p.1
                >= 1,
    {
        let mut value: i128 = 0;
        let mut scale: i128 = 1;
        let mut seen_point = false;
        let mut i: usize = 0;
        while i < s.len()
            invariant
                0 <= i <= s@.len(),
                forall|k: int| 0 <= k < s@.len() ==> #[trigger] is_decimal_digit(s@[k]) || s@[k] == '.',
                value == digits_value(s@.subrange(0, i as int)),
                scale >= 1,
                scale == pow10(fraction_len(s@.subrange(0, i as int))),
                seen_point == s@.subrange(0, i as int).contains('.'),
            decreases s@.len() - i,
        {
            let c = s[i];
            let ghost t = s@.subrange(0, i as int + 1);
            proof {
                assert(t.drop_last() == s@.subrange(0, i as int));
                assert(t.last() == c);
                assert(t.drop_last().contains('.') == seen_point);
                lemma_digits_monotone(s@, i as int + 1);
            }
            if c == '.' {
                seen_point = true;
                proof {
                    assert(t[i as int] == '.');
                }
            } else {
                assert(is_decimal_digit(s@[i as int]));
                let d: i128 = (c as u32 - '0' as u32) as i128;
                assert(digits_value(t) == 10 * value + d);
                let next = match value.checked_mul(10) {
                    Some(v) => v.checked_add(d),
                    None => None,
                };
                match next {
                    Some(v) => {
                        value = v;
                    },
                    None => {
                        return None;
                    },
                }
                if seen_point {
                    match scale.checked_mul(10) {
                        Some(v) => {
                            scale = v;
                        },
                        None => {
                            return None;
                        },
                    }
                }
                proof {
                    if !seen_point {
                        assert(!t.contains('.')) by {
                            if t.contains('.') {
                                let k = choose|k: int| 0 <= k < t.len() && t[k] == '.';
                                if k < i {
                                    assert(t.drop_last()[k] == '.');
                                }
                            }
                        }
                    } else {
                        assert(t.contains('.')) by {
                            let k = choose|k: int| 0 <= k < t.drop_last().len() && t.drop_last()[k] == '.';
                            assert(t[k] == '.');
                        }
                    }
                }
            }
            i = i + 1;
        }
        proof {
            assert(s@.subrange(0, s@.len() as int) == s@);
        }
        Some((value, scale))
    }

    /// The number a numeral reads as, in lowest terms; `None` when its
    /// digits or its power of ten are past the bounds of `i128`.
    pub fn from_numeral(s: &[char]) -> (r: Option<Number>)
        requires
            forall|k: int| 0 <= k < s@.len() ==> #[trigger] is_decimal_digit(s@[k]) || s@[k] == '.',
        ensures
            r is Some <==> fits(numeral_parts(s@).0) && fits(numeral_parts(s@).1),
            r is Some ==> r->0.model() == Num::Finite(
                reduced(numeral_parts(s@).0, numeral_parts(s@).1).0,
                reduced(numeral_parts(s@).0, numeral_parts(s@).1).1,
            ),
    {
        match Self::numeral_fraction(s) {
            Some((n, d)) => Some(Self::reduce(n, d)),
            None => None,
        }
    }

    /// The number in decimal (a `-` when it is negative, the integer part,
    /// and when the fraction is not zero a `.` and up to seventeen of its
    /// digits), or `inf`, `-inf`, `NaN`.
    pub fn to_text(&self) -> (r: Vec<char>)
        ensures
            r@ == number_text(self.model()),
    {
        proof {
            use_type_invariant(self);
        }
        if self.denominator == 0 {
            return if self.numerator > 0 {
                chars_of("inf")
            } else if self.numerator < 0 {
                chars_of("-inf")
            } else {
                chars_of("NaN")
            };
        }
        let magnitude: u128 = magnitude(self.numerator);
        let d = self.denominator as u128;
        let q = magnitude / d;
        let rem = magnitude % d;
        let mut out: Vec<char> = Vec::new();
        if self.numerator < 0 {
            out.push('-');
        }
        push_int_digits(q, &mut out);
        if rem != 0 {
            out.push('.');
            push_fraction_digits(rem, d, FRACTION_DIGITS, &mut out);
        }
        out
    }
}

/// The index of the first `.` at or after `i`, or the length of `s`.
pub open spec fn first_point(s: Seq<char>, i: int) -> int
    decreases s.len() - i,
{
    if i < 0 || i >= s.len() {
        s.len() as int
    } else if s[i] == '.' {
        i
    } else {
        first_point(s, i + 1)
    }
}

/// Both parts of the numeral `s` are within the bounds of `i128`.
pub open spec fn numeral_fits(s: Seq<char>) -> bool {
    fits(numeral_parts(s).0) && fits(numeral_parts(s).1)
}

/// The longest prefix of `s`, of at most `n` characters, whose parts are
/// within the bounds of `i128`.
pub open spec fn longest_fitting(s: Seq<char>, n: nat) -> nat
    decreases n,
{
    if n == 0 || numeral_fits(s.subrange(0, n as int)) {
        n
    } else {
        longest_fitting(s, (n - 1) as nat)
    }
}

/// The number a numeral reads as: its digits over the power of ten of its
/// fraction, in lowest terms; positive infinity when its integer part is
/// past the bounds of `i128`; else the fraction digits that would take a
/// part past them are cut off, as a float rounds toward zero.
pub open spec fn numeral_num(s: Seq<char>) -> Num {
    if !numeral_fits(s.subrange(0, first_point(s, 0))) {
        Num::PosInf
    } else {
        let p = numeral_parts(s.subrange(0, longest_fitting(s, s.len()) as int));
        Num::Finite(reduced(p.0, p.1).0, reduced(p.0, p.1).1)
    }
}

/// Text made only of decimal digits and `.`.
pub open spec fn is_numeral_text(s: Seq<char>) -> bool {
    forall|k: int| 0 <= k < s.len() ==> #[trigger] is_decimal_digit(s[k]) || s[k] == '.'
}

/// The text of a number literal, of any length: digits, and `.`.
#[derive(Clone, Debug)]
pub struct Numeral {
    text: Vec<char>,
}

impl Numeral {
    /// The literal's characters.
    pub closed spec fn text(self) -> Seq<char> {
        self.text@
    }

    /// The numeral with the characters of `text`, if they are all digits or `.`.
    pub fn new(text: &str) -> (r: Option<Numeral>)
        ensures
            r is Some <==> is_numeral_text(text@),
            r is Some ==> r->0.text() == text@,
    {
        let chars = chars_of(text);
        let mut i: usize = 0;
        while i < chars.len()
            invariant
                i <= chars@.len(),
                chars@ == text@,
                forall|k: int| 0 <= k < i ==> #[trigger] is_decimal_digit(chars@[k]) || chars@[k] == '.',
            decreases chars@.len() - i,
        {
            let c = chars[i];
            if !(('0' <= c && c <= '9') || c == '.') {
                assert(!(is_decimal_digit(chars@[i as int]) || chars@[i as int] == '.'));
                return None;
            }
            i = i + 1;
        }
        Some(Numeral { text: chars })
    }

    /// The numeral with the characters of `s`.
    pub fn from_chars(s: &[char]) -> (r: Numeral)
        requires
            is_numeral_text(s@),
        ensures
            r.text() == s@,
    {
        let mut text: Vec<char> = Vec::new();
        push_chars(&mut text, s);
        Numeral { text }
    }

    /// Whether the two literals are written alike.
    pub fn same_text(&self, other: &Numeral) -> (r: bool)
        ensures
            r == (self.text() == other.text()),
    {
        same_chars(self.text.as_slice(), other.text.as_slice())
    }

    /// The literal as written.
    pub fn to_string(&self) -> (r: String)
        ensures
            r@ == self.text(),
    {
        let mut text: Vec<char> = Vec::new();
        push_chars(&mut text, self.text.as_slice());
        string_of(text)
    }

    /// The number the literal reads as (see `numeral_num`), or `None` when
    /// the text is not made of digits and `.`.
    pub fn value(&self) -> (r: Option<Number>)
        ensures
            r is Some <==> is_numeral_text(self.text()),
            r is Some ==> r->0.model() == numeral_num(self.text()),
    {
        let mut i: usize = 0;
        while i < self.text.len()
            invariant
                i <= self.text@.len(),
                forall|k: int|
                    0 <= k < i ==> #[trigger] is_decimal_digit(self.text@[k]) || self.text@[k]
                        == '.',
            decreases self.text@.len() - i,
        {
            let c = self.text[i];
            if !(('0' <= c && c <= '9') || c == '.') {
                assert(!(is_decimal_digit(self.text@[i as int]) || self.text@[i as int] == '.'));
                return None;
            }
            i = i + 1;
        }
        let s = self.text.as_slice();
        let ghost t = s@;
        // the integer part ends at the point, or at the end
        let mut k: usize = 0;
        while k < s.len() && s[k] != '.'
            invariant
                k <= t.len(),
                s@ == t,
                first_point(t, 0) == first_point(t, k as int),
            decreases t.len() - k,
        {
            k = k + 1;
        }
        proof {
            assert(first_point(t, k as int) == k);
            assert forall|j: int| 0 <= j < k implies #[trigger] is_decimal_digit(t.subrange(0, k as int)[j])
                || t.subrange(0, k as int)[j] == '.' by {
                assert(t.subrange(0, k as int)[j] == t[j]);
            }
        }
        if Number::from_numeral(&s[0..k]).is_none() {
            return Some(Number::infinity());
        }
        let mut n: usize = s.len();
        loop
            invariant
                k <= n <= t.len(),
                s@ == t,
                t == self.text(),
                is_numeral_text(t),
                first_point(t, 0) == k,
                numeral_fits(t.subrange(0, k as int)),
                longest_fitting(t, t.len()) == longest_fitting(t, n as nat),
            decreases n,
        {
            proof {
                assert forall|j: int| 0 <= j < n implies #[trigger] is_decimal_digit(
                    t.subrange(0, n as int)[j],
                ) || t.subrange(0, n as int)[j] == '.' by {
                    assert(t.subrange(0, n as int)[j] == t[j]);
                }
            }
            match Number::from_numeral(&s[0..n]) {
                Some(v) => {
                    return Some(v);
                },
                None => {
                    n = n - 1;
                },
            }
        }
    }
}

} // verus!
