use vstd::arithmetic::div_mod::{lemma_fundamental_div_mod, lemma_fundamental_div_mod_converse};
use vstd::prelude::*;

verus! {

/// `v` limited to the range `[lo, hi]`.
pub open spec fn clamp_spec(v: int, lo: int, hi: int) -> int {
    if v < lo {
        lo
    } else if v > hi {
        hi
    } else {
        v
    }
}

/// Limits `v` to `[lo, hi]`.
pub fn clamp(v: i64, lo: i64, hi: i64) -> (r: i64)
    requires
        lo <= hi,
    ensures
        r == clamp_spec(v as int, lo as int, hi as int),
        lo <= r <= hi,
{
    if v < lo {
        lo
    } else if v > hi {
        hi
    } else {
        v
    }
}

/// Division rounded towards negative infinity, by a positive divisor.
pub fn floor_div(a: i128, b: i128) -> (r: i128)
    requires
        b > 0,
        a > i128::MIN,
    ensures
        r == a / b,
{
    if a >= 0 {
        let q = (a as u128) / (b as u128);
        proof {
            lemma_fundamental_div_mod(a as int, b as int);
        }
        q as i128
    } else {
        let m = (-a - 1) as u128;
        let q = m / (b as u128);
        proof {
            let qi = q as int;
            let mi = m as int;
            lemma_fundamental_div_mod(mi, b as int);
            assert(qi == mi / (b as int));
            assert((b as int) * qi + mi % (b as int) == mi);
            let r0 = (b as int) - 1 - mi % (b as int);
            assert(0 <= r0 < b);
            assert((-qi - 1) * b + r0 == a) by (nonlinear_arith)
                requires
                    (b as int) * qi + mi % (b as int) == mi,
                    r0 == (b as int) - 1 - mi % (b as int),
                    mi == -a - 1,
            ;
            lemma_fundamental_div_mod_converse(a as int, b as int, -qi - 1, r0);
            assert(qi <= mi) by (nonlinear_arith)
                requires
                    (b as int) * qi + mi % (b as int) == mi,
                    b >= 1,
                    mi % (b as int) >= 0,
                    qi >= 0,
            ;
        }
        -(q as i128) - 1
    }
}

/// The largest `r` with `r * r <= n`.
pub open spec fn is_isqrt(n: int, r: int) -> bool {
    0 <= r && r * r <= n < (r + 1) * (r + 1)
}

/// Integer square root, rounded down, by bisection.
pub fn isqrt(n: u64) -> (r: u64)
    ensures
        is_isqrt(n as int, r as int),
        r == sqrt_floor(n as int),
{
    let mut lo: u64 = 0;
    let mut hi: u64 = 4294967296;
    proof {
        assert(lo * lo <= n);
        assert(n < hi * hi) by (nonlinear_arith)
            requires
                hi == 4294967296u64,
                n <= u64::MAX,
        ;
    }
    while hi - lo > 1
        invariant
            lo < hi <= 4294967296,
            lo * lo <= n,
            n < hi * hi,
        decreases hi - lo,
    {
        let mid = lo + (hi - lo) / 2;
        assert(mid < 4294967296);
        assert(mid * mid < 18446744073709551616u128) by (nonlinear_arith)
            requires
                mid < 4294967296u64,
        ;
        let sq: u128 = (mid as u128) * (mid as u128);
        if sq <= n as u128 {
            lo = mid;
        } else {
            hi = mid;
        }
    }
    assert(hi == lo + 1);
    proof {
        assert(is_isqrt(n as int, lo as int));
        lemma_isqrt_unique(n as int, lo as int, sqrt_floor(n as int));
    }
    lo
}


/// The floor of the square root of `n`.
pub open spec fn sqrt_floor(n: int) -> int {
    choose|r: int| is_isqrt(n, r)
}

/// Only one integer is the rounded-down square root of `n`.
pub proof fn lemma_isqrt_unique(n: int, r1: int, r2: int)
    requires
        is_isqrt(n, r1),
        is_isqrt(n, r2),
    ensures
        r1 == r2,
{
    if r1 < r2 {
        assert((r1 + 1) * (r1 + 1) <= r2 * r2) by (nonlinear_arith)
            requires
                0 <= r1 < r2,
        ;
    } else if r2 < r1 {
        assert((r2 + 1) * (r2 + 1) <= r1 * r1) by (nonlinear_arith)
            requires
                0 <= r2 < r1,
        ;
    }
}

/// A quotient by a positive divisor lies within any symmetric bound of the
/// dividend.
pub proof fn lemma_div_within(a: int, b: int, m: int)
    requires
        b >= 1,
        -m <= a <= m,
    ensures
        -m <= a / b <= m,
{
    lemma_fundamental_div_mod(a, b);
    vstd::arithmetic::div_mod::lemma_mod_bound(a, b);
    let q = a / b;
    let r = a % b;
    assert(-m <= q <= m) by (nonlinear_arith)
        requires
            a == b * q + r,
            0 <= r < b,
            b >= 1,
            -m <= a <= m,
    ;
}

/// `num / den` of a difference `d`, for `0 <= num <= den`, lies between
/// `0` and `d`.
pub proof fn lemma_part_of(num: int, den: int, d: int)
    requires
        0 <= num <= den,
        den >= 1,
    ensures
        d >= 0 ==> 0 <= (num * d) / den <= d,
        d < 0 ==> d <= (num * d) / den <= 0,
{
    let a = num * d;
    lemma_fundamental_div_mod(a, den);
    vstd::arithmetic::div_mod::lemma_mod_bound(a, den);
    let q = a / den;
    let r = a % den;
    if d >= 0 {
        assert(0 <= a <= den * d) by (nonlinear_arith)
            requires
                0 <= num <= den,
                d >= 0,
                a == num * d,
        ;
        assert(0 <= q <= d) by (nonlinear_arith)
            requires
                a == den * q + r,
                0 <= r < den,
                0 <= a <= den * d,
        ;
    } else {
        assert(den * d <= a <= 0) by (nonlinear_arith)
            requires
                0 <= num <= den,
                d < 0,
                a == num * d,
        ;
        assert(d <= q <= 0) by (nonlinear_arith)
            requires
                a == den * q + r,
                0 <= r < den,
                den * d <= a <= 0,
        ;
    }
}

/// Division rounded towards zero, by a positive divisor.
pub open spec fn trunc_div_spec(a: int, b: int) -> int {
    if a >= 0 {
        a / b
    } else {
        -((-a) / b)
    }
}

/// Division rounded towards zero, by a positive divisor.
pub fn trunc_div(a: i128, b: i128) -> (r: i128)
    requires
        b > 0,
        a > i128::MIN,
    ensures
        r == trunc_div_spec(a as int, b as int),
{
    if a >= 0 {
        proof {
            lemma_div_within(a as int, b as int, a as int);
        }
        ((a as u128) / (b as u128)) as i128
    } else {
        proof {
            lemma_div_within(-a, b as int, -a);
        }
        -(((-a) as u128 / (b as u128)) as i128)
    }
}

/// A quotient rounded towards zero lies within any symmetric bound of the
/// dividend.
pub proof fn lemma_trunc_within(a: int, b: int, m: int)
    requires
        b >= 1,
        -m <= a <= m,
    ensures
        -m <= trunc_div_spec(a, b) <= m,
{
    if a >= 0 {
        lemma_div_within(a, b, m);
    } else {
        lemma_div_within(-a, b, m);
    }
}

/// `num / den` of a difference `d`, rounded towards zero, for
/// `0 <= num <= den`, lies between `0` and `d`.
pub proof fn lemma_trunc_part_of(num: int, den: int, d: int)
    requires
        0 <= num <= den,
        den >= 1,
    ensures
        d >= 0 ==> 0 <= trunc_div_spec(num * d, den) <= d,
        d < 0 ==> d <= trunc_div_spec(num * d, den) <= 0,
{
    if d >= 0 {
        lemma_part_of(num, den, d);
        assert(num * d >= 0) by (nonlinear_arith)
            requires
                num >= 0,
                d >= 0,
        ;
    } else {
        lemma_part_of(num, den, -d);
        assert(-(num * d) == num * (-d)) by (nonlinear_arith);
        assert(num * (-d) >= 0) by (nonlinear_arith)
            requires
                num >= 0,
                d < 0,
        ;
    }
}

} // verus!
