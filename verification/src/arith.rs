//! Integer arithmetic that saturates or rounds up.
use vstd::prelude::*;

verus! {

/// A number, or the largest 64-bit number where it is larger.
pub open spec fn clamp64(n: int) -> u64 {
    if n > u64::MAX {
        u64::MAX
    } else {
        n as u64
    }
}

/// Division that rounds up.
pub open spec fn ceil_div(a: int, b: int) -> int {
    (a + b - 1) / b
}

pub fn div_ceil(a: u64, b: u64) -> (r: u64)
    requires
        b > 0,
    ensures
        r == ceil_div(a as int, b as int),
{
    let q: u64 = a / b;
    let m: u64 = a % b;
    proof {
        let (x, y) = (a as int, b as int);
        assert(x == y * (x / y) + x % y && 0 <= x % y < y) by (nonlinear_arith)
            requires
                y > 0,
        ;
        if m == 0 {
            assert((x + y - 1) / y == x / y) by (nonlinear_arith)
                requires
                    y > 0,
                    x == y * (x / y),
            ;
        } else {
            assert((x + y - 1) / y == x / y + 1) by (nonlinear_arith)
                requires
                    y > 0,
                    x == y * (x / y) + x % y,
                    0 < x % y < y,
            ;
            assert(q < u64::MAX) by (nonlinear_arith)
                requires
                    y > 0,
                    x == y * q + m,
                    0 < m < y,
                    x <= u64::MAX,
                    q == x / y,
            ;
        }
    }
    if m == 0 {
        q
    } else {
        q + 1
    }
}

pub fn saturating_mul(a: u64, b: u64) -> (r: u64)
    ensures
        r == clamp64(a * b),
{
    proof {
        assert(0 <= a * b <= 0xffff_ffff_ffff_ffff * 0xffff_ffff_ffff_ffff) by (nonlinear_arith)
            requires
                a <= 0xffff_ffff_ffff_ffff,
                b <= 0xffff_ffff_ffff_ffff,
        ;
    }
    let p: u128 = (a as u128) * (b as u128);
    if p > u64::MAX as u128 {
        u64::MAX
    } else {
        p as u64
    }
}

pub fn min64(a: u64, b: u64) -> (r: u64)
    ensures
        r == if a < b {
            a
        } else {
            b
        },
{
    if a < b {
        a
    } else {
        b
    }
}

} // verus!
