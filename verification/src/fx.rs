//! Fixed-point scalar arithmetic for the turtle interpreter.
//!
//! A scalar is an `i64` holding `SCALE` units per world unit, so `10000`
//! stands for `1.0`. Angles are fixed-point degrees; a full revolution is
//! `FULL_TURN` units. Coordinates are kept inside `[-COORD_LIMIT,
//! COORD_LIMIT]` by saturation, so every interpreter step is total and free
//! of overflow.

use vstd::prelude::*;
use vstd::arithmetic::div_mod::{
    lemma_fundamental_div_mod, lemma_fundamental_div_mod_converse_mod,
    lemma_mod_add_multiples_vanish, lemma_mod_division_less_than_divisor, lemma_small_mod,
    lemma_mod_sub_multiples_vanish,
};

verus! {

/// Fixed-point units in one world unit.
pub const SCALE: i64 = 10_000;

/// One full revolution (360 degrees) in fixed-point degrees.
pub const FULL_TURN: i64 = 3_600_000;

/// Half a revolution (180 degrees) in fixed-point degrees.
pub const HALF_TURN: i64 = 1_800_000;

/// A quarter revolution (90 degrees) in fixed-point degrees.
pub const QUARTER_TURN: i64 = 900_000;

/// Largest magnitude a coordinate, distance or width may take.
pub const COORD_LIMIT: i64 = 1_000_000_000_000;

/// Saturate a mathematical integer into `[-COORD_LIMIT, COORD_LIMIT]`.
pub open spec fn sat(v: int) -> int {
    if v < -(COORD_LIMIT as int) {
        -(COORD_LIMIT as int)
    } else if v > COORD_LIMIT as int {
        COORD_LIMIT as int
    } else {
        v
    }
}

/// Saturate a wide intermediate value back into coordinate range.
pub fn sat_i128(v: i128) -> (r: i64)
    ensures
        r as int == sat(v as int),
{
    if v < -(COORD_LIMIT as i128) {
        -COORD_LIMIT
    } else if v > COORD_LIMIT as i128 {
        COORD_LIMIT
    } else {
        v as i64
    }
}

/// Saturate an `i64` into coordinate range.
pub fn sat_i64(v: i64) -> (r: i64)
    ensures
        r as int == sat(v as int),
{
    if v < -COORD_LIMIT {
        -COORD_LIMIT
    } else if v > COORD_LIMIT {
        COORD_LIMIT
    } else {
        v
    }
}

/// A heading normalized into `[0, FULL_TURN)`: the Euclidean remainder
/// of `d` by a full revolution, nonnegative for every input.
pub open spec fn norm_deg(d: int) -> int {
    d % (FULL_TURN as int)
}

/// Normalize a (possibly wide) angle sum into `[0, FULL_TURN)`.
pub fn norm_deg_i128(d: i128) -> (r: i64)
    requires
        d != i128::MIN,
    ensures
        r as int == norm_deg(d as int),
        0 <= r < FULL_TURN,
{
    proof {
        lemma_mod_division_less_than_divisor(d as int, FULL_TURN as int);
    }
    if d >= 0 {
        let m = (d as u128) % (FULL_TURN as u128);
        m as i64
    } else {
        let m = ((-d) as u128) % (FULL_TURN as u128);
        proof {
            let n = -(d as int);
            let q = n / (FULL_TURN as int);
            lemma_fundamental_div_mod(n, FULL_TURN as int);
            if m == 0 {
                lemma_fundamental_div_mod_converse_mod(d as int, FULL_TURN as int, -q, 0);
            } else {
                lemma_fundamental_div_mod_converse_mod(
                    d as int,
                    FULL_TURN as int,
                    -q - 1,
                    FULL_TURN as int - m as int,
                );
            }
        }
        if m == 0 {
            0
        } else {
            FULL_TURN - (m as i64)
        }
    }
}

/// The sine of `u` fixed-point degrees for `u` in `[0, HALF_TURN]`, by
/// Bhaskara's rational approximation, scaled by `SCALE`. It is exact at
/// 0, 30, 90, 150 and 180 degrees and within two thousandths elsewhere.
pub open spec fn bhaskara(u: int) -> int
    recommends
        0 <= u <= HALF_TURN as int,
{
    (4 * u * (HALF_TURN as int - u) * SCALE as int) / (40_500 * SCALE as int * SCALE as int - u * (
    HALF_TURN as int - u))
}

/// The sine of a normalized heading, scaled by `SCALE`.
pub open spec fn sin_fx(h: int) -> int
    recommends
        0 <= h < FULL_TURN as int,
{
    if h <= HALF_TURN as int {
        bhaskara(h)
    } else {
        -bhaskara(h - HALF_TURN as int)
    }
}

/// The cosine of a normalized heading, scaled by `SCALE`: the sine shifted
/// by a quarter turn.
pub open spec fn cos_fx(h: int) -> int
    recommends
        0 <= h < FULL_TURN as int,
{
    sin_fx((h + QUARTER_TURN as int) % (FULL_TURN as int))
}

/// The quadratic `u * (HALF_TURN - u)` stays within `[0, QUARTER_TURN^2]`
/// on `[0, HALF_TURN]`.
pub proof fn lemma_quadratic_bound(u: int, p: int)
    requires
        0 <= u <= HALF_TURN as int,
        p == u * (HALF_TURN as int - u),
    ensures
        0 <= p <= 8_100 * (SCALE as int) * (SCALE as int),
{
    assert(0 <= p <= 8_100 * (SCALE as int) * (SCALE as int)) by (nonlinear_arith)
        requires
            0 <= u <= HALF_TURN as int,
            p == u * (HALF_TURN as int - u),
    ;
}

pub proof fn lemma_bhaskara_bounds(u: int)
    requires
        0 <= u <= HALF_TURN as int,
    ensures
        0 <= bhaskara(u) <= SCALE as int,
{
    let p = u * (HALF_TURN as int - u);
    let num = 4 * p * (SCALE as int);
    let den = 40_500 * (SCALE as int) * (SCALE as int) - p;
    lemma_quadratic_bound(u, p);
    assert(num == 4 * u * (HALF_TURN as int - u) * (SCALE as int)) by (nonlinear_arith)
        requires
            p == u * (HALF_TURN as int - u),
            num == 4 * p * (SCALE as int),
    ;
    assert(num >= 0 && num <= den * (SCALE as int)) by (nonlinear_arith)
        requires
            0 <= p <= 8_100 * (SCALE as int) * (SCALE as int),
            num == 4 * p * (SCALE as int),
            den == 40_500 * (SCALE as int) * (SCALE as int) - p,
    ;
    lemma_div_bounds(num, den, SCALE as int);
}

/// For nonnegative `num` and positive `den`, `num / den` lies in
/// `[0, cap]` whenever `num <= den * cap`.
pub proof fn lemma_div_bounds(num: int, den: int, cap: int)
    requires
        num >= 0,
        den > 0,
        cap >= 0,
        num <= den * cap,
    ensures
        0 <= num / den <= cap,
{
    assert(num / den >= 0) by (nonlinear_arith)
        requires
            num >= 0,
            den > 0,
    ;
    assert(num / den <= cap) by (nonlinear_arith)
        requires
            num >= 0,
            den > 0,
            cap >= 0,
            num <= den * cap,
    ;
}

/// Bhaskara's sine approximation, evaluated exactly in integer arithmetic.
pub fn bhaskara_fx(u: i64) -> (r: i64)
    requires
        0 <= u <= HALF_TURN,
    ensures
        r as int == bhaskara(u as int),
        0 <= r <= SCALE,
{
    let v: u64 = u as u64;
    let w: u64 = (HALF_TURN - u) as u64;
    proof {
        lemma_quadratic_bound(u as int, (v as int) * (w as int));
    }
    let p: u64 = v * w;
    let num: u128 = 4 * (p as u128) * (SCALE as u128);
    let den: u128 = 40_500 * (SCALE as u128) * (SCALE as u128) - (p as u128);
    let q: u128 = num / den;
    proof {
        lemma_bhaskara_bounds(u as int);
        assert(num as int == 4 * (u as int) * (HALF_TURN as int - u as int) * (SCALE as int))
            by (nonlinear_arith)
            requires
                p as int == (u as int) * (HALF_TURN as int - u as int),
                num as int == 4 * (p as int) * (SCALE as int),
        ;
        assert(num as int <= den as int * (SCALE as int)) by (nonlinear_arith)
            requires
                0 <= p as int <= 8_100 * (SCALE as int) * (SCALE as int),
                num as int == 4 * (p as int) * (SCALE as int),
                den as int == 40_500 * (SCALE as int) * (SCALE as int) - p as int,
        ;
        lemma_div_bounds(num as int, den as int, SCALE as int);
    }
    q as i64
}

/// The sine of a normalized heading, evaluated exactly in integer
/// arithmetic.
pub fn sin_fx_i64(h: i64) -> (r: i64)
    requires
        0 <= h < FULL_TURN,
    ensures
        r as int == sin_fx(h as int),
        -SCALE <= r <= SCALE,
{
    if h <= HALF_TURN {
        bhaskara_fx(h)
    } else {
        let m = bhaskara_fx(h - HALF_TURN);
        -m
    }
}

/// The cosine of a normalized heading, evaluated exactly in integer
/// arithmetic.
pub fn cos_fx_i64(h: i64) -> (r: i64)
    requires
        0 <= h < FULL_TURN,
    ensures
        r as int == cos_fx(h as int),
        -SCALE <= r <= SCALE,
{
    let t = if h + QUARTER_TURN >= FULL_TURN {
        h + QUARTER_TURN - FULL_TURN
    } else {
        h + QUARTER_TURN
    };
    proof {
        if h + QUARTER_TURN >= FULL_TURN {
            lemma_mod_sub_multiples_vanish(h as int + QUARTER_TURN as int, FULL_TURN as int);
        }
        lemma_small_mod(t as nat, FULL_TURN as nat);
    }
    sin_fx_i64(t)
}

/// The product of a coordinate and a scaled trigonometric factor, divided
/// by `SCALE` with truncation toward zero.
pub open spec fn mul_div_scale(a: int, b: int) -> int {
    if a * b >= 0 {
        (a * b) / (SCALE as int)
    } else {
        -((-(a * b)) / (SCALE as int))
    }
}

/// Multiply a bounded coordinate by a factor in `[-SCALE, SCALE]` and
/// rescale, truncating toward zero.
pub fn mul_div_scale_i64(a: i64, b: i64) -> (r: i64)
    requires
        -COORD_LIMIT <= a <= COORD_LIMIT,
        -SCALE <= b <= SCALE,
    ensures
        r as int == mul_div_scale(a as int, b as int),
        -COORD_LIMIT <= r <= COORD_LIMIT,
{
    let am: u64 = if a < 0 {
        (-a) as u64
    } else {
        a as u64
    };
    let bm: u64 = if b < 0 {
        (-b) as u64
    } else {
        b as u64
    };
    proof {
        lemma_mul_div_scale_correct(a as int, b as int, am as int, bm as int);
    }
    let prod: u128 = (am as u128) * (bm as u128);
    let q: u128 = prod / (SCALE as u128);
    if (a < 0) != (b < 0) {
        -(q as i64)
    } else {
        q as i64
    }
}

proof fn lemma_mul_div_scale_correct(a: int, b: int, am: int, bm: int)
    requires
        -(COORD_LIMIT as int) <= a <= COORD_LIMIT as int,
        -(SCALE as int) <= b <= SCALE as int,
        am == if a < 0 { -a } else { a },
        bm == if b < 0 { -b } else { b },
    ensures
        am * bm == if a * b >= 0 { a * b } else { -(a * b) },
        am * bm <= COORD_LIMIT as int * SCALE as int,
        0 <= (am * bm) / (SCALE as int) <= COORD_LIMIT as int,
        a * b >= 0 ==> mul_div_scale(a, b) == (am * bm) / (SCALE as int),
        a * b < 0 ==> mul_div_scale(a, b) == -((am * bm) / (SCALE as int)),
        a * b < 0 ==> (a < 0) != (b < 0),
        ((a < 0) != (b < 0)) && a * b >= 0 ==> (am * bm) / (SCALE as int) == 0,
{
    assert(am * bm == if a * b >= 0 { a * b } else { -(a * b) }) by (nonlinear_arith)
        requires
            am == if a < 0 { -a } else { a },
            bm == if b < 0 { -b } else { b },
    ;
    assert(am * bm <= COORD_LIMIT as int * SCALE as int) by (nonlinear_arith)
        requires
            0 <= am <= COORD_LIMIT as int,
            0 <= bm <= SCALE as int,
    ;
    assert(0 <= (am * bm) / (SCALE as int) <= COORD_LIMIT as int) by (nonlinear_arith)
        requires
            0 <= am * bm <= COORD_LIMIT as int * SCALE as int,
    ;
    assert(a * b < 0 ==> (a < 0) != (b < 0)) by (nonlinear_arith);
    if ((a < 0) != (b < 0)) && a * b >= 0 {
        assert(a * b == 0) by (nonlinear_arith)
            requires
                (a < 0) != (b < 0),
                a * b >= 0,
        ;
    }
}

/// The integer square root: the largest `r` with `r * r <= n`.
pub fn isqrt_u128(n: u128) -> (r: u64)
    ensures
        (r as int) * (r as int) <= n as int,
        (r as int + 1) * (r as int + 1) > n as int,
{
    let mut lo: u64 = 0;
    let mut hi: u64 = u64::MAX;
    proof {
        assert((u64::MAX as int + 1) * (u64::MAX as int + 1) > u128::MAX as int)
            by (nonlinear_arith);
    }
    while lo < hi
        invariant
            lo <= hi,
            (lo as int) * (lo as int) <= n as int,
            (hi as int + 1) * (hi as int + 1) > n as int,
        decreases hi - lo,
    {
        let mid: u64 = lo + (hi - lo) / 2 + 1;
        proof {
            assert((mid as u128) as int * (mid as u128) as int <= u128::MAX as int)
                by (nonlinear_arith)
                requires
                    mid <= u64::MAX,
                    (mid as u128) as int == mid as int,
            ;
        }
        if (mid as u128) * (mid as u128) <= n {
            lo = mid;
        } else {
            hi = mid - 1;
        }
    }
    lo
}

/// Heading normalization is into `[0, FULL_TURN)` for every real
/// offset, and is invariant under adding a full revolution to the offset.
pub proof fn lemma_normalize_range_and_period(h: int, delta: int)
    ensures
        0 <= norm_deg(norm_deg(h) + delta) < FULL_TURN as int,
        norm_deg(norm_deg(h) + delta + FULL_TURN as int) == norm_deg(norm_deg(h) + delta),
{
    lemma_mod_division_less_than_divisor(norm_deg(h) + delta, FULL_TURN as int);
    lemma_mod_add_multiples_vanish(norm_deg(h) + delta, FULL_TURN as int);
}

} // verus!
