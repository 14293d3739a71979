//! Fixed-point arithmetic. Every fractional quantity of the simulation (money, prices,
//! approval, popularity, timers) is an `i64` counted in billionths of a unit.
use vstd::prelude::*;

verus! {

/// One whole unit in fixed point.
pub const ONE: i64 = 1_000_000_000;

/// The longest frame time that a single tick takes into account (five seconds).
pub const MAX_FRAME: u64 = 5_000_000_000;

/// Clamps a mathematical integer into the range of `i64`.
pub open spec fn saturate(x: int) -> int {
    if x > i64::MAX {
        i64::MAX as int
    } else if x < i64::MIN {
        i64::MIN as int
    } else {
        x
    }
}

/// Clamps `x` into `[lo, hi]`.
pub open spec fn clamp_spec(x: int, lo: int, hi: int) -> int {
    if x < lo {
        lo
    } else if x > hi {
        hi
    } else {
        x
    }
}

/// Division by `d > 0` that rounds toward zero, as Rust's integer division does.
pub open spec fn div_trunc(n: int, d: int) -> int {
    if n >= 0 {
        n / d
    } else {
        -((-n) / d)
    }
}

/// The fixed-point product of `a` and `b`, rounded toward zero.
pub open spec fn scaled_product(a: int, b: int) -> int {
    div_trunc(a * b, ONE as int)
}

/// The part of a frame time that a tick takes into account.
pub open spec fn limited(dt: u64) -> u64 {
    if dt > MAX_FRAME {
        MAX_FRAME
    } else {
        dt
    }
}

/// Caps a frame time at `max`.
pub fn limit(value: u64, max: u64) -> (r: u64)
    ensures
        r == (if value > max { max } else { value }),
{
    if value > max {
        max
    } else {
        value
    }
}

/// Narrows an `i128` to `i64`, saturating at the bounds.
pub fn saturate_i128(x: i128) -> (r: i64)
    ensures
        r == saturate(x as int),
{
    if x > i64::MAX as i128 {
        i64::MAX
    } else if x < i64::MIN as i128 {
        i64::MIN
    } else {
        x as i64
    }
}

/// `a + b`, saturating at the bounds of `i64`.
pub fn add_saturating(a: i64, b: i64) -> (r: i64)
    ensures
        r == saturate(a + b),
{
    saturate_i128(a as i128 + b as i128)
}

/// `a - b`, saturating at the bounds of `i64`.
pub fn sub_saturating(a: i64, b: i64) -> (r: i64)
    ensures
        r == saturate(a - b),
{
    saturate_i128(a as i128 - b as i128)
}

/// `-a`, saturating at the bounds of `i64`.
pub fn neg_saturating(a: i64) -> (r: i64)
    ensures
        r == saturate(-a),
{
    saturate_i128(-(a as i128))
}

pub(crate) proof fn lemma_product_bound(a: i64, b: i64)
    ensures
        -0x4000_0000_0000_0000_0000_0000_0000_0000 <= a as int * b as int
            <= 0x4000_0000_0000_0000_0000_0000_0000_0000,
{
    let x = a as int;
    let y = b as int;
    assert(-0x8000_0000_0000_0000 <= x <= 0x8000_0000_0000_0000);
    assert(-0x8000_0000_0000_0000 <= y <= 0x8000_0000_0000_0000);
    assert(-0x4000_0000_0000_0000_0000_0000_0000_0000 <= x * y
        <= 0x4000_0000_0000_0000_0000_0000_0000_0000) by (nonlinear_arith)
        requires
            -0x8000_0000_0000_0000 <= x <= 0x8000_0000_0000_0000,
            -0x8000_0000_0000_0000 <= y <= 0x8000_0000_0000_0000,
    ;
}

/// Divides a wide value by a positive divisor, rounding toward zero.
pub fn div_trunc_i128(n: i128, d: i128) -> (r: i128)
    requires
        d > 0,
        n > i128::MIN,
    ensures
        r == div_trunc(n as int, d as int),
{
    if n >= 0 {
        n / d
    } else {
        let m: i128 = -n;
        let q: i128 = m / d;
        assert(0 <= q <= m) by (nonlinear_arith)
            requires
                q == m / d,
                m > 0,
                d > 0,
        ;
        -q
    }
}

/// The fixed-point product `a * b`, rounded toward zero and saturating at the bounds of `i64`.
pub fn mul_fixed(a: i64, b: i64) -> (r: i64)
    ensures
        r == saturate(scaled_product(a as int, b as int)),
{
    proof {
        lemma_product_bound(a, b);
    }
    let p: i128 = a as i128 * b as i128;
    let q: i128 = div_trunc_i128(p, ONE as i128);
    saturate_i128(q)
}

/// Clamps `x` into `[lo, hi]`.
pub fn clamp(x: i64, lo: i64, hi: i64) -> (r: i64)
    requires
        lo <= hi,
    ensures
        r == clamp_spec(x as int, lo as int, hi as int),
{
    if x < lo {
        lo
    } else if x > hi {
        hi
    } else {
        x
    }
}

} // verus!
