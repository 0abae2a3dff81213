//! Integer helpers shared by the contact grid and the integrators.
use vstd::prelude::*;

verus! {

/// Absolute value of a mathematical integer.
pub open spec fn abs_int(a: int) -> int {
    if a < 0 {
        -a
    } else {
        a
    }
}

/// Division rounded toward zero: the integer part of `a / b`.
pub open spec fn trunc_div(a: int, b: int) -> int {
    if (a >= 0) == (b > 0) {
        abs_int(a) / abs_int(b)
    } else {
        -(abs_int(a) / abs_int(b))
    }
}

/// Whether `a / b` can be computed on `i64` without a fault.
pub open spec fn div_defined(a: i64, b: i64) -> bool {
    b != 0 && !(a == i64::MIN && b == -1)
}

/// Integer part of `a / b` (Rust's `/` on `i64`), for every divisor that does not fault.
pub fn div_trunc(a: i64, b: i64) -> (q: i64)
    requires
        div_defined(a, b),
    ensures
        q == trunc_div(a as int, b as int),
{
    if b > 0 {
        a / b
    } else if b == i64::MIN {
        if a == i64::MIN {
            1
        } else {
            assert(abs_int(a as int) < abs_int(b as int));
            assert(abs_int(a as int) / abs_int(b as int) == 0) by (nonlinear_arith)
                requires
                    0 <= abs_int(a as int) < abs_int(b as int),
            ;
            0
        }
    } else {
        let nb: i64 = -b;
        let q: i64 = a / nb;
        assert(q == trunc_div(a as int, nb as int));
        proof {
            if a < 0 && nb >= 2 {
                let x = abs_int(a as int);
                assert(x / (nb as int) <= x / 2) by (nonlinear_arith)
                    requires
                        nb >= 2,
                        x >= 0,
                ;
            }
        }
        -q
    }
}

/// Truncating division: the remainder `a - q * b` is smaller than the divisor in size and has
/// the sign of the dividend, so the quotient never exceeds the dividend in size.
pub proof fn lemma_trunc_div_remainder(a: int, b: int)
    requires
        b != 0,
    ensures
        ({
            let q = trunc_div(a, b);
            &&& abs_int(a - q * b) < abs_int(b)
            &&& a >= 0 ==> a - q * b >= 0
            &&& a < 0 ==> a - q * b <= 0
            &&& abs_int(q) <= abs_int(a)
            &&& (q > 0 ==> (a > 0) == (b > 0))
            &&& (q < 0 ==> (a > 0) != (b > 0))
        }),
{
    let x = abs_int(a);
    let y = abs_int(b);
    let d = x / y;
    let m = x % y;
    vstd::arithmetic::div_mod::lemma_fundamental_div_mod(x, y);
    vstd::arithmetic::div_mod::lemma_mod_pos_bound(x, y);
    assert(x == y * d + m);
    assert(d >= 0 && d <= x) by (nonlinear_arith)
        requires
            x == y * d + m,
            0 <= m < y,
            y >= 1,
            x >= 0,
    ;
    let q = trunc_div(a, b);
    if a >= 0 && b > 0 {
        assert(q * b == d * y) by (nonlinear_arith)
            requires
                q == d,
                b == y,
        ;
    } else if a >= 0 && b < 0 {
        assert(q * b == d * y) by (nonlinear_arith)
            requires
                q == -d,
                b == -y,
        ;
    } else if a < 0 && b > 0 {
        assert(q * b == -(d * y)) by (nonlinear_arith)
            requires
                q == -d,
                b == y,
        ;
    } else {
        assert(q * b == -(d * y)) by (nonlinear_arith)
            requires
                q == d,
                b == -y,
        ;
    }
}

} // verus!
