//! Exact integer arithmetic that the curve engine is built on: an integer
//! square root, decimal powers of ten, and fixed-point helpers at a scale of
//! 2^16 fractional units.
use vstd::prelude::*;

verus! {

/// Fixed-point scale: one game unit is `FX_ONE` raw units.
pub const FX_ONE: i128 = 65536;

/// Raw fixed-point coordinates of tessellated points are clamped to this
/// magnitude so that squared differences always fit in 128 bits.
pub const FX_CLAMP: i128 = 0x4000_0000_0000_0000;

pub open spec fn is_sqrt_floor(n: nat, r: nat) -> bool {
    r * r <= n < (r + 1) * (r + 1)
}

/// The integer square root, rounded down.
pub open spec fn sqrt_floor(n: nat) -> nat {
    choose|r: nat| is_sqrt_floor(n, r)
}

pub proof fn lemma_sqrt_floor_unique(n: nat, r1: nat, r2: nat)
    requires
        is_sqrt_floor(n, r1),
        is_sqrt_floor(n, r2),
    ensures
        r1 == r2,
{
    if r1 < r2 {
        assert((r1 + 1) * (r1 + 1) <= r2 * r2) by (nonlinear_arith)
            requires r1 + 1 <= r2;
    }
    if r2 < r1 {
        assert((r2 + 1) * (r2 + 1) <= r1 * r1) by (nonlinear_arith)
            requires r2 + 1 <= r1;
    }
}

pub proof fn lemma_sqrt_floor_is(n: nat, r: nat)
    requires
        is_sqrt_floor(n, r),
    ensures
        sqrt_floor(n) == r,
{
    assert(is_sqrt_floor(n, sqrt_floor(n)));
    lemma_sqrt_floor_unique(n, sqrt_floor(n), r);
}

/// Integer square root of a 128-bit value by bisection.
pub fn isqrt(n: u128) -> (r: u128)
    ensures
        is_sqrt_floor(n as nat, r as nat),
        r == sqrt_floor(n as nat),
        r <= 0xFFFF_FFFF_FFFF_FFFF,
{
    let mut lo: u128 = 0;
    let mut hi: u128 = 0xFFFF_FFFF_FFFF_FFFF;
    proof {
        assert((hi + 1) * (hi + 1) > n as nat) by (nonlinear_arith)
            requires hi == 0xFFFF_FFFF_FFFF_FFFFu128, n <= u128::MAX;
    }
    while lo < hi
        invariant
            lo <= hi <= 0xFFFF_FFFF_FFFF_FFFF,
            (lo * lo) as nat <= n as nat,
            ((hi + 1) * (hi + 1)) as nat > n as nat,
        decreases hi - lo,
    {
        let mid: u128 = lo + (hi - lo + 1) / 2;
        proof {
            assert(mid * mid <= 0xFFFF_FFFF_FFFF_FFFFu128 * 0xFFFF_FFFF_FFFF_FFFFu128)
                by (nonlinear_arith)
                requires mid <= 0xFFFF_FFFF_FFFF_FFFFu128;
        }
        if mid * mid <= n {
            lo = mid;
        } else {
            hi = mid - 1;
        }
    }
    proof {
        lemma_sqrt_floor_is(n as nat, lo as nat);
    }
    lo
}

/// `10^e` as a mathematical integer.
pub open spec fn pow10(e: nat) -> nat
    decreases e,
{
    if e == 0 {
        1
    } else {
        10 * pow10((e - 1) as nat)
    }
}

pub proof fn lemma_pow10_increases(a: nat, b: nat)
    requires
        a <= b,
    ensures
        pow10(a) <= pow10(b),
    decreases b,
{
    if a < b {
        lemma_pow10_increases(a, (b - 1) as nat);
        assert(pow10(b) == 10 * pow10((b - 1) as nat));
    }
}

pub proof fn lemma_pow10_positive(e: nat)
    ensures
        pow10(e) >= 1,
    decreases e,
{
    if e > 0 {
        lemma_pow10_positive((e - 1) as nat);
    }
}

/// `10^e` for `e <= 19`; every such power fits in a `u64`.
pub fn pow10_u64(e: u8) -> (r: u64)
    requires
        e <= 19,
    ensures
        r == pow10(e as nat),
        r >= 1,
{
    proof {
        reveal_with_fuel(pow10, 21);
    }
    let mut r: u64 = 1;
    let mut i: u8 = 0;
    while i < e
        invariant
            i <= e <= 19,
            r == pow10(i as nat),
            r >= 1,
        decreases e - i,
    {
        proof {
            lemma_pow10_increases(i as nat + 1, 19);
            assert(pow10(19) == 10_000_000_000_000_000_000) by {
                reveal_with_fuel(pow10, 21);
            }
        }
        r = r * 10;
        i = i + 1;
    }
    r
}

/// Every square root exists: `sqrt_floor` is well defined on all of `nat`.
pub proof fn sqrt_floor_exists(n: nat)
    ensures
        is_sqrt_floor(n, sqrt_floor(n)),
    decreases n,
{
    if n == 0 {
        assert(is_sqrt_floor(0, 0)) by {
            assert((0 as nat) * (0 as nat) == 0 && (1 as nat) * (1 as nat) == 1)
                by (nonlinear_arith);
        }
    } else {
        sqrt_floor_exists((n - 1) as nat);
        let rp = sqrt_floor((n - 1) as nat);
        assert(is_sqrt_floor((n - 1) as nat, rp));
        if (rp + 1) * (rp + 1) <= n {
            assert(n < (rp + 2) * (rp + 2)) by (nonlinear_arith)
                requires
                    n <= (rp + 1) * (rp + 1),
            ;
            assert(is_sqrt_floor(n, rp + 1));
        } else {
            assert(is_sqrt_floor(n, rp));
        }
    }
}

/// Cap for weighted coordinate sums inside the curve engine: additions stick
/// here instead of overflowing, far outside any realistic curve.
pub const SUM_CAP: i128 = 0x2000_0000_0000_0000_0000_0000_0000_0000;

/// Addition that sticks at `SUM_CAP` in magnitude instead of growing
/// further.
pub open spec fn sat_cap_add(a: int, b: int) -> int {
    if a + b > SUM_CAP {
        SUM_CAP as int
    } else if a + b < -SUM_CAP {
        -SUM_CAP as int
    } else {
        a + b
    }
}

pub fn add_capped_i128(a: i128, b: i128) -> (r: i128)
    requires
        -SUM_CAP <= a <= SUM_CAP,
        -SUM_CAP <= b <= SUM_CAP,
    ensures
        r == sat_cap_add(a as int, b as int),
        -SUM_CAP <= r <= SUM_CAP,
{
    let s = a + b;
    if s > SUM_CAP {
        SUM_CAP
    } else if s < -SUM_CAP {
        -SUM_CAP
    } else {
        s
    }
}

/// Divide a weighted sum back down by one fixed-point unit, rounding toward
/// negative infinity.
pub open spec fn fx_unscale(a: int) -> int {
    if a >= 0 {
        a / 65536
    } else {
        -((-a + 65535) / 65536)
    }
}

pub fn fx_unscale_i128(a: i128) -> (r: i128)
    requires
        -SUM_CAP <= a <= SUM_CAP,
    ensures
        r == fx_unscale(a as int),
        -SUM_CAP <= r <= SUM_CAP,
{
    if a >= 0 {
        ((a as u128) / 65536) as i128
    } else {
        let m: u128 = (-a) as u128;
        -(((m + 65535) / 65536) as i128)
    }
}

/// Clamp a raw fixed-point value into the storable coordinate range.
pub open spec fn clamp_fx(a: int) -> int {
    if a > FX_CLAMP {
        FX_CLAMP as int
    } else if a < -FX_CLAMP {
        -FX_CLAMP as int
    } else {
        a
    }
}

pub fn clamp_fx_i128(a: i128) -> (r: i128)
    ensures
        r == clamp_fx(a as int),
        -FX_CLAMP <= r <= FX_CLAMP,
{
    if a > FX_CLAMP {
        FX_CLAMP
    } else if a < -FX_CLAMP {
        -FX_CLAMP
    } else {
        a
    }
}

/// Product of two fixed-point fractions in `[0, 1]`, rounded down.
pub open spec fn fx_frac_mul(a: int, b: int) -> int {
    (a * b) / (FX_ONE as int)
}

pub proof fn lemma_fx_frac_mul_bounds(a: int, b: int)
    requires
        0 <= a <= FX_ONE,
        0 <= b <= FX_ONE,
    ensures
        0 <= fx_frac_mul(a, b) <= FX_ONE,
{
    assert(0 <= a * b <= FX_ONE * FX_ONE) by (nonlinear_arith)
        requires 0 <= a <= FX_ONE, 0 <= b <= FX_ONE;
    assert(0 <= (a * b) / (FX_ONE as int) <= FX_ONE) by (nonlinear_arith)
        requires 0 <= a * b <= FX_ONE * FX_ONE;
}

pub fn fx_frac_mul_u64(a: u64, b: u64) -> (r: u64)
    requires
        a <= FX_ONE,
        b <= FX_ONE,
    ensures
        r == fx_frac_mul(a as int, b as int),
        r <= FX_ONE,
{
    proof {
        lemma_fx_frac_mul_bounds(a as int, b as int);
    }
    (a * b) / 65536
}

/// Sequential fixed-point power of a fraction in `[0, 1]`: `v` multiplied
/// into `1` exactly `e` times, rounding down after each step.
pub open spec fn fx_frac_pow(v: int, e: nat) -> int
    decreases e,
{
    if e == 0 {
        FX_ONE as int
    } else {
        fx_frac_mul(fx_frac_pow(v, (e - 1) as nat), v)
    }
}

pub proof fn lemma_fx_frac_pow_bounds(v: int, e: nat)
    requires
        0 <= v <= FX_ONE,
    ensures
        0 <= fx_frac_pow(v, e) <= FX_ONE,
    decreases e,
{
    if e > 0 {
        lemma_fx_frac_pow_bounds(v, (e - 1) as nat);
        lemma_fx_frac_mul_bounds(fx_frac_pow(v, (e - 1) as nat), v);
    }
}

/// A whole power of one stays one: the basis weight of the first control
/// point is exact at the start of the curve.
pub proof fn lemma_fx_frac_pow_one(e: nat)
    ensures
        fx_frac_pow(FX_ONE as int, e) == FX_ONE,
    decreases e,
{
    if e > 0 {
        lemma_fx_frac_pow_one((e - 1) as nat);
    }
}

/// A positive power of zero is zero: weights of later control points vanish
/// at the start of the curve.
pub proof fn lemma_fx_frac_pow_zero(e: nat)
    requires
        e >= 1,
    ensures
        fx_frac_pow(0, e) == 0,
    decreases e,
{
    if e > 1 {
        lemma_fx_frac_pow_zero((e - 1) as nat);
    }
}

pub fn fx_frac_pow_u64(v: u64, e: u64) -> (r: u64)
    requires
        v <= FX_ONE,
    ensures
        r == fx_frac_pow(v as int, e as nat),
        r <= FX_ONE,
{
    proof {
        lemma_fx_frac_pow_bounds(v as int, e as nat);
    }
    let mut r: u64 = 65536;
    let mut i: u64 = 0;
    while i < e
        invariant
            i <= e,
            v <= FX_ONE,
            r == fx_frac_pow(v as int, i as nat),
            r <= FX_ONE,
        decreases e - i,
    {
        proof {
            lemma_fx_frac_pow_bounds(v as int, i as nat + 1);
        }
        r = fx_frac_mul_u64(r, v);
        i = i + 1;
    }
    r
}

} // verus!
