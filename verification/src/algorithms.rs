use vstd::prelude::*;
use vstd::arithmetic::div_mod::{
    lemma_div_by_multiple, lemma_div_decreases, lemma_div_pos_is_pos, lemma_fundamental_div_mod,
    lemma_remainder_lower, lemma_remainder_upper,
};
use vstd::arithmetic::mul::lemma_mul_inequality;

use crate::integer::Primitive;

verus! {

/// Absolute value of a mathematical integer.
pub open spec fn abs_int(a: int) -> int {
    if a < 0 {
        -a
    } else {
        a
    }
}

/// 10 raised to the power `d`: the factor relating a scaled integer to the
/// real value it denotes.
pub open spec fn pow10(d: nat) -> int
    decreases d,
{
    if d == 0 {
        1
    } else {
        10 * pow10((d - 1) as nat)
    }
}

/// Division truncating toward zero, as machine division does; on
/// non-negative operands it agrees with Euclidean division.
pub open spec fn div_trunc(a: int, b: int) -> int {
    if a >= 0 && b > 0 {
        a / b
    } else if a <= 0 && b < 0 {
        (-a) / (-b)
    } else if a < 0 {
        -((-a) / b)
    } else {
        -(a / (-b))
    }
}

/// Remainder paired with `div_trunc`: it carries the sign of the dividend.
pub open spec fn rem_trunc(a: int, b: int) -> int {
    if a >= 0 && b > 0 {
        a % b
    } else if a <= 0 && b < 0 {
        -((-a) % (-b))
    } else if a < 0 {
        -((-a) % b)
    } else {
        a % (-b)
    }
}

/// The largest magnitude a value of a type with the given range can take:
/// `max` itself for an unsigned type, `max + 1` for a two's-complement
/// signed type (the magnitude of `min`).
pub open spec fn mag_cap(min: int, max: int) -> int {
    if min == 0 {
        max
    } else {
        -min
    }
}

/// How a parsed magnitude `m` combines with a leading minus sign into a
/// stored value of a type with range `min..=max`: a plain value when
/// non-negative, a two's-complement negation otherwise, and `None` when the
/// result would not fit.
pub open spec fn combine_spec(m: int, negative: bool, min: int, max: int) -> Option<int> {
    if !negative {
        if m <= max {
            Some(m)
        } else {
            None
        }
    } else if min == 0 {
        if m <= max {
            if m == 0 {
                Some(0int)
            } else {
                Some(max + 1 - m)
            }
        } else {
            None
        }
    } else {
        if -m >= min {
            Some(-m)
        } else {
            None
        }
    }
}

/// The number of digits in the decimal expansion of `n`.
pub open spec fn digit_count(n: nat) -> nat
    decreases n,
{
    if n < 10 {
        1
    } else {
        1 + digit_count(n / 10)
    }
}

/// `pow10` is always positive.
pub proof fn lemma_pow10_positive(d: nat)
    ensures
        pow10(d) >= 1,
    decreases d,
{
    if d > 0 {
        lemma_pow10_positive((d - 1) as nat);
    }
}

/// `pow10` grows with its exponent.
pub proof fn lemma_pow10_increases(d1: nat, d2: nat)
    requires
        d1 <= d2,
    ensures
        pow10(d1) <= pow10(d2),
    decreases d2,
{
    if d1 < d2 {
        lemma_pow10_increases(d1, (d2 - 1) as nat);
        lemma_pow10_positive((d2 - 1) as nat);
    }
}

/// Exponents add: `10^(a+b) == 10^a * 10^b`.
pub proof fn lemma_pow10_adds(a: nat, b: nat)
    ensures
        pow10(a + b) == pow10(a) * pow10(b),
    decreases a,
{
    if a == 0 {
    } else {
        lemma_pow10_adds((a - 1) as nat, b);
        assert(pow10(a + b) == 10 * pow10((a + b - 1) as nat));
        assert(10 * (pow10((a - 1) as nat) * pow10(b)) == (10 * pow10((a - 1) as nat)) * pow10(b))
            by (nonlinear_arith);
    }
}

/// The remainder of a non-negative value by a positive divisor is
/// non-negative and below the divisor.
pub proof fn lemma_mod_bound_nonneg(a: int, b: int)
    requires
        a >= 0,
        b > 0,
    ensures
        0 <= a % b < b,
{
    lemma_remainder_upper(a, b);
    lemma_remainder_lower(a, b);
    lemma_fundamental_div_mod(a, b);
}

/// A value below `10^k` has at most `k` decimal digits.
pub proof fn lemma_digit_count_bound(n: nat, k: nat)
    requires
        k >= 1,
        n < pow10(k),
    ensures
        digit_count(n) <= k,
    decreases k,
{
    if n >= 10 {
        assert(pow10(k) == 10 * pow10((k - 1) as nat));
        assert(n / 10 < pow10((k - 1) as nat)) by {
            lemma_pow10_positive((k - 1) as nat);
            if n / 10 >= pow10((k - 1) as nat) {
                assert(n >= 10 * (n / 10)) by {
                    lemma_fundamental_div_mod(n as int, 10);
                    lemma_mod_bound_nonneg(n as int, 10);
                }
                lemma_mul_inequality(pow10((k - 1) as nat), (n / 10) as int, 10);
                assert(false);
            }
        }
        lemma_digit_count_bound(n / 10, (k - 1) as nat);
    }
}

/// A value has no more digits than itself: `digit_count(n) <= n` for
/// positive `n`.
pub proof fn lemma_digit_count_le(n: nat)
    requires
        n >= 1,
    ensures
        digit_count(n) <= n,
    decreases n,
{
    if n >= 10 {
        lemma_div_pos_is_pos(n as int, 10);
        lemma_div_decreases(n as int, 10);
        lemma_digit_count_le(n / 10);
    }
}

/// The magnitude of a product is the product of the magnitudes.
pub proof fn lemma_abs_mul(x: int, y: int)
    ensures
        abs_int(x * y) == abs_int(x) * abs_int(y),
{
    if x >= 0 && y >= 0 {
        assert(x * y >= 0) by (nonlinear_arith)
            requires
                x >= 0,
                y >= 0,
        ;
    } else if x >= 0 && y < 0 {
        assert(x * y <= 0 && -(x * y) == x * (-y)) by (nonlinear_arith)
            requires
                x >= 0,
                y < 0,
        ;
    } else if x < 0 && y >= 0 {
        assert(x * y <= 0 && -(x * y) == (-x) * y) by (nonlinear_arith)
            requires
                x < 0,
                y >= 0,
        ;
    } else {
        assert(x * y >= 0 && x * y == (-x) * (-y)) by (nonlinear_arith)
            requires
                x < 0,
                y < 0,
        ;
    }
}

/// Truncating division and remainder act on magnitudes: each is the
/// Euclidean counterpart of the magnitudes, with the expected signs.
pub proof fn lemma_div_trunc_abs(a: int, b: int)
    requires
        b != 0,
    ensures
        abs_int(div_trunc(a, b)) == abs_int(a) / abs_int(b),
        abs_int(rem_trunc(a, b)) == abs_int(a) % abs_int(b),
        0 <= abs_int(a) % abs_int(b) < abs_int(b),
        a >= 0 ==> rem_trunc(a, b) >= 0,
        a < 0 ==> rem_trunc(a, b) <= 0,
        (a >= 0 && b > 0) || (a <= 0 && b < 0) ==> div_trunc(a, b) >= 0,
{
    let m = abs_int(a);
    let n = abs_int(b);
    lemma_div_pos_is_pos(m, n);
    lemma_mod_bound_nonneg(m, n);
    if a >= 0 && b > 0 {
    } else if a <= 0 && b < 0 {
        lemma_div_pos_is_pos(-a, -b);
        lemma_mod_bound_nonneg(-a, -b);
        if a == 0 {
            vstd::arithmetic::div_mod::lemma_small_mod(0nat, (-b) as nat);
        }
    } else if a < 0 {
        lemma_div_pos_is_pos(-a, b);
        lemma_mod_bound_nonneg(-a, b);
    } else {
        lemma_div_pos_is_pos(a, -b);
        lemma_mod_bound_nonneg(a, -b);
    }
}

/// The machine formulation of a truncating remainder, spelled with
/// explicit sign flips as the hardware specification writes it, agrees
/// with `rem_trunc`, and the remainder fits strictly within the divisor's
/// magnitude.
pub proof fn lemma_rem_trunc_cases(a: int, b: int)
    requires
        b != 0,
    ensures
        a == 0 ==> rem_trunc(a, b) == 0,
        a > 0 && b > 0 ==> rem_trunc(a, b) == a % b,
        a < 0 && b < 0 ==> rem_trunc(a, b) == ((a * -1) % (b * -1)) * -1,
        a < 0 && b > 0 ==> rem_trunc(a, b) == ((a * -1) % b) * -1,
        a > 0 && b < 0 ==> rem_trunc(a, b) == a % (b * -1),
        -abs_int(b) < rem_trunc(a, b) < abs_int(b),
{
    lemma_div_trunc_abs(a, b);
    if a == 0 {
        vstd::arithmetic::div_mod::lemma_small_mod(0nat, abs_int(b) as nat);
    }
}

/// The fundamental identity of truncating division:
/// `a == b * div_trunc(a, b) + rem_trunc(a, b)`.
pub proof fn lemma_div_trunc_fundamental(a: int, b: int)
    requires
        b != 0,
    ensures
        a == b * div_trunc(a, b) + rem_trunc(a, b),
{
    if a >= 0 && b > 0 {
        lemma_fundamental_div_mod(a, b);
    } else if a <= 0 && b < 0 {
        lemma_fundamental_div_mod(-a, -b);
        let q = (-a) / (-b);
        assert(-((-b) * q) == b * q) by (nonlinear_arith);
    } else if a < 0 {
        lemma_fundamental_div_mod(-a, b);
        let q = (-a) / b;
        assert(b * -q == -(b * q)) by (nonlinear_arith);
    } else {
        lemma_fundamental_div_mod(a, -b);
        let q = a / (-b);
        assert(b * -q == (-b) * q) by (nonlinear_arith);
    }
}

/// Dividing a multiple of a positive divisor truncates nothing:
/// `div_trunc(x * b, b) == x`.
pub proof fn lemma_div_trunc_exact(x: int, b: int)
    requires
        b > 0,
    ensures
        div_trunc(x * b, b) == x,
        rem_trunc(x * b, b) == 0,
{
    if x >= 0 {
        assert(x * b >= 0) by (nonlinear_arith)
            requires
                x >= 0,
                b > 0,
        ;
        lemma_div_by_multiple(x, b);
        assert(div_trunc(x * b, b) == x);
    } else {
        assert(x * b < 0 && -(x * b) == (-x) * b) by (nonlinear_arith)
            requires
                x < 0,
                b > 0,
        ;
        lemma_div_by_multiple(-x, b);
        assert(((-x) * b) / b == -x);
        assert(div_trunc(x * b, b) == -((-(x * b)) / b));
    }
    lemma_div_trunc_fundamental(x * b, b);
    assert(b * x == x * b) by (nonlinear_arith);
}

/// Rounding down to a multiple of `q` (by dividing and re-multiplying)
/// never grows the magnitude, and keeps the sign of the value.
pub proof fn lemma_quantize_magnitude(a: int, q: int)
    requires
        q != 0,
    ensures
        abs_int(div_trunc(a, q) * q) <= abs_int(a),
        a >= 0 ==> div_trunc(a, q) * q >= 0,
        a <= 0 ==> div_trunc(a, q) * q <= 0,
{
    let t = div_trunc(a, q);
    let m = abs_int(a);
    let n = abs_int(q);
    lemma_div_trunc_abs(a, q);
    lemma_abs_mul(t, q);
    assert((m / n) * n <= m) by {
        lemma_fundamental_div_mod(m, n);
        lemma_mod_bound_nonneg(m, n);
    }
    if a >= 0 {
        if q > 0 {
            assert(t >= 0);
            assert(t * q >= 0) by (nonlinear_arith)
                requires
                    t >= 0,
                    q > 0,
            ;
        } else {
            assert(t <= 0);
            assert(t * q >= 0) by (nonlinear_arith)
                requires
                    t <= 0,
                    q < 0,
            ;
        }
    } else {
        if q > 0 {
            assert(t <= 0);
            assert(t * q <= 0) by (nonlinear_arith)
                requires
                    t <= 0,
                    q > 0,
            ;
        } else {
            assert(t >= 0);
            assert(t * q <= 0) by (nonlinear_arith)
                requires
                    t >= 0,
                    q < 0,
            ;
        }
    }
}

/// Counts the decimal digits of a positive value by repeated division by
/// ten; zero and negative inputs count as zero digits.
pub fn log10<const D: u8, I: crate::integer::ScaledInteger<D>>(input: I) -> (r: I)
    ensures
        input.as_int() <= 0 ==> r.as_int() == 0,
        input.as_int() > 0 ==> r.as_int() == digit_count(input.as_int() as nat),
{
    let mut v: I = input;
    let mut result: I = I::zero();
    let ten: I = I::ten();
    let zero: I = I::zero();
    proof {
        if input.as_int() > 0 {
            lemma_digit_count_le(input.as_int() as nat);
            input.lemma_range();
        }
    }
    while !v.le_val(zero)
        invariant
            zero.as_int() == 0,
            ten.as_int() == 10,
            input.as_int() <= 0 ==> v == input && result.as_int() == 0,
            input.as_int() > 0 ==> {
                &&& v.as_int() >= 0
                &&& result.as_int() >= 0
                &&& result.as_int() + (if v.as_int() > 0 {
                    digit_count(v.as_int() as nat) as int
                } else {
                    0int
                }) == digit_count(input.as_int() as nat)
                &&& digit_count(input.as_int() as nat) <= I::spec_max()
            },
        decreases abs_int(v.as_int()),
    {
        proof {
            lemma_div_trunc_abs(v.as_int(), 10);
            lemma_div_pos_is_pos(v.as_int(), 10);
            lemma_div_decreases(v.as_int(), 10);
            v.lemma_range();
            I::lemma_type_facts();
        }
        let q = v.checked_div(ten);
        v = q.unwrap();
        let r2 = result.checked_add(I::one());
        result = r2.unwrap();
    }
    result
}

} // verus!
