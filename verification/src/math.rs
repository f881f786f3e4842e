//! Integer arithmetic helpers shared by the simulation: division that rounds
//! toward zero (the way machine division of signed values behaves), absolute
//! values, and clamping.

use vstd::prelude::*;

verus! {

/// Division rounding toward zero, for positive divisors.  This is the
/// quotient semantics every velocity / mass / fraction division in the
/// simulation uses.
pub open spec fn div_tz(a: int, b: int) -> int {
    if a >= 0 {
        a / b
    } else {
        -((-a) / b)
    }
}

/// Remainder matching `div_tz`: `a == div_tz(a, b) * b + rem_tz(a, b)`.
pub open spec fn rem_tz(a: int, b: int) -> int {
    if a >= 0 {
        a % b
    } else {
        -((-a) % b)
    }
}

/// Absolute value.
pub open spec fn abs(a: int) -> int {
    if a >= 0 {
        a
    } else {
        -a
    }
}

/// Clamp `v` into `[lo, hi]`.
pub open spec fn clamped(v: int, lo: int, hi: int) -> int {
    if v < lo {
        lo
    } else if v > hi {
        hi
    } else {
        v
    }
}

/// `div_tz` and `rem_tz` decompose the dividend, the remainder is smaller
/// than the divisor in magnitude, and it carries the dividend's sign.
pub proof fn lemma_div_tz_decompose(a: int, b: int)
    requires
        b >= 1,
    ensures
        a == div_tz(a, b) * b + rem_tz(a, b),
        abs(rem_tz(a, b)) < b,
        a >= 0 ==> 0 <= rem_tz(a, b) && div_tz(a, b) >= 0,
        a < 0 ==> rem_tz(a, b) <= 0 && div_tz(a, b) <= 0,
{
    if a >= 0 {
        assert(a == b * (a / b) + a % b) by {
            vstd::arithmetic::div_mod::lemma_fundamental_div_mod(a, b);
        }
        assert(0 <= a % b < b) by {
            vstd::arithmetic::div_mod::lemma_mod_division_less_than_divisor(a, b);
        }
        assert(a / b >= 0) by {
            vstd::arithmetic::div_mod::lemma_div_pos_is_pos(a, b);
        }
        assert(b * (a / b) == (a / b) * b) by (nonlinear_arith);
    } else {
        let n = -a;
        assert(n == b * (n / b) + n % b) by {
            vstd::arithmetic::div_mod::lemma_fundamental_div_mod(n, b);
        }
        assert(0 <= n % b < b) by {
            vstd::arithmetic::div_mod::lemma_mod_division_less_than_divisor(n, b);
        }
        assert(n / b >= 0) by {
            vstd::arithmetic::div_mod::lemma_div_pos_is_pos(n, b);
        }
        assert(a == -(b * (n / b)) - n % b);
        assert(-(b * (n / b)) == (-(n / b)) * b) by (nonlinear_arith);
        assert(div_tz(a, b) == -(n / b));
        assert(rem_tz(a, b) == -(n % b));
        assert(a == div_tz(a, b) * b + rem_tz(a, b));
    }
}

/// The magnitude of a truncating quotient, scaled back by the divisor, never
/// exceeds the dividend's magnitude.
pub proof fn lemma_div_tz_bound(a: int, b: int)
    requires
        b >= 1,
    ensures
        abs(div_tz(a, b)) * b <= abs(a),
        abs(div_tz(a, b)) <= abs(a),
{
    lemma_div_tz_decompose(a, b);
    assert(abs(div_tz(a, b)) * b <= abs(a)) by (nonlinear_arith)
        requires
            b >= 1,
            a == div_tz(a, b) * b + rem_tz(a, b),
            abs(rem_tz(a, b)) < b,
            a >= 0 ==> 0 <= rem_tz(a, b) && div_tz(a, b) >= 0,
            a < 0 ==> rem_tz(a, b) <= 0 && div_tz(a, b) <= 0,
    ;
    assert(abs(div_tz(a, b)) <= abs(div_tz(a, b)) * b) by (nonlinear_arith)
        requires
            b >= 1,
            abs(div_tz(a, b)) >= 0,
    ;
}

/// Dividing an exact multiple is exact: `div_tz(x * b, b) == x`.
pub proof fn lemma_div_tz_exact(x: int, b: int)
    requires
        b >= 1,
    ensures
        div_tz(x * b, b) == x,
{
    if x >= 0 {
        assert(x * b >= 0) by (nonlinear_arith)
            requires
                x >= 0,
                b >= 1,
        ;
        assert((x * b) / b == x) by {
            vstd::arithmetic::div_mod::lemma_div_by_multiple(x, b);
        }
    } else {
        assert(x * b < 0) by (nonlinear_arith)
            requires
                x < 0,
                b >= 1,
        ;
        assert(-(x * b) == (-x) * b) by (nonlinear_arith);
        assert(((-x) * b) / b == -x) by {
            vstd::arithmetic::div_mod::lemma_div_by_multiple(-x, b);
        }
    }
}

/// Bounds on two factors bound their product.
pub proof fn lemma_abs_mul_bound(a: int, b: int, ca: int, cb: int)
    requires
        abs(a) <= ca,
        abs(b) <= cb,
    ensures
        abs(a * b) <= ca * cb,
{
    assert(abs(a * b) <= ca * cb) by (nonlinear_arith)
        requires
            abs(a) <= ca,
            abs(b) <= cb,
    ;
}

/// Division rounding toward zero, as executable code.
pub fn div_toward_zero(a: i64, b: i64) -> (r: i64)
    requires
        1 <= b,
        -0x4000_0000_0000_0000 <= a,
    ensures
        r == div_tz(a as int, b as int),
{
    if a >= 0 {
        let q: u64 = (a as u64) / (b as u64);
        proof {
            vstd::arithmetic::div_mod::lemma_div_nonincreasing(a as int, b as int);
        }
        q as i64
    } else {
        let n: u64 = (-a) as u64;
        let q: u64 = n / (b as u64);
        proof {
            vstd::arithmetic::div_mod::lemma_div_nonincreasing(n as int, b as int);
        }
        -(q as i64)
    }
}

/// Absolute value, as executable code.
pub fn abs_i64(a: i64) -> (r: i64)
    requires
        -0x4000_0000_0000_0000 <= a,
    ensures
        r == abs(a as int),
{
    if a >= 0 {
        a
    } else {
        -a
    }
}

/// Clamp into `[lo, hi]`, as executable code.
pub fn clamp_i64(v: i64, lo: i64, hi: i64) -> (r: i64)
    requires
        lo <= hi,
    ensures
        r == clamped(v as int, lo as int, hi as int),
{
    if v < lo {
        lo
    } else if v > hi {
        hi
    } else {
        v
    }
}

} // verus!
