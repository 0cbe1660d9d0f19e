//! Fixed-point scalar arithmetic for the simulation core.
//!
//! Cell states, profile parameters and profile outputs are integers in
//! SCALE-units: the integer `v` stands for the real number `v / SCALE`.
//! Kernel weights use the finer KSCALE so that the rounding loss of
//! normalization stays small relative to the total mass.

use vstd::prelude::*;

verus! {

/// One unit (1.0) in the fixed-point encoding of cell states and parameters.
pub const SCALE: i64 = 1_000_000;

/// One half (0.5): the re-centering shift applied by centered profiles.
pub const HALF: i64 = 500_000;

/// One unit of normalized kernel weight (2^30).
pub const KSCALE: i64 = 1_073_741_824;

/// exp(-1) in SCALE-units, rounded down.
pub const EXP_NEG_ONE: i64 = 367_879;

/// Largest magnitude accepted for profile parameters and profile inputs.
pub const PARAM_LIMIT: i64 = 1_000_000_000;

/// Clamp into the unit interval [0, SCALE].
pub open spec fn clamp_unit_spec(v: int) -> int {
    if v < 0 {
        0
    } else if v > SCALE {
        SCALE as int
    } else {
        v
    }
}

pub fn clamp_unit(v: i64) -> (r: i64)
    ensures
        r == clamp_unit_spec(v as int),
{
    if v < 0 {
        0
    } else if v > SCALE {
        SCALE
    } else {
        v
    }
}

/// Division rounding toward zero, the rounding the update rule uses on
/// signed intermediate values.
pub open spec fn sdiv_spec(a: int, b: int) -> int {
    if a >= 0 {
        a / b
    } else {
        -((-a) / b)
    }
}

pub fn sdiv(a: i64, b: i64) -> (r: i64)
    requires
        1 <= b,
        -0x7fff_ffff_ffff_ffff <= a,
    ensures
        r == sdiv_spec(a as int, b as int),
        a >= 0 ==> 0 <= r <= a,
        a < 0 ==> a <= r <= 0,
{
    if a >= 0 {
        proof {
            vstd::arithmetic::div_mod::lemma_div_pos_is_pos(a as int, b as int);
            vstd::arithmetic::div_mod::lemma_div_nonincreasing(a as int, b as int);
        }
        a / b
    } else {
        let m: i64 = -a;
        proof {
            vstd::arithmetic::div_mod::lemma_div_pos_is_pos(m as int, b as int);
            vstd::arithmetic::div_mod::lemma_div_nonincreasing(m as int, b as int);
        }
        -(m / b)
    }
}

/// Fourth-order series for e^(r/SCALE) in SCALE-units, for 0 <= r < SCALE.
pub open spec fn exp_poly_spec(r: int) -> int {
    let t2 = r * r / (SCALE as int);
    let t3 = t2 * r / (SCALE as int);
    let t4 = t3 * r / (SCALE as int);
    SCALE + r + t2 / 2 + t3 / 6 + t4 / 24
}

/// `k` successive multiplications by exp(-1), each rounded down.
pub open spec fn decay_spec(y: int, k: nat) -> int
    decreases k,
{
    if k == 0 {
        y
    } else {
        decay_spec(y * EXP_NEG_ONE / (SCALE as int), (k - 1) as nat)
    }
}

/// exp(-t/SCALE) in SCALE-units: the whole part of t is handled by repeated
/// decay by exp(-1), the fractional part by the reciprocal of a short series
/// for e^r. Inputs of 20 or more whole units are flushed to zero.
pub open spec fn exp_neg_spec(t: int) -> int {
    let q = t / (SCALE as int);
    let r = t % (SCALE as int);
    if q >= 20 {
        0
    } else {
        decay_spec(SCALE * SCALE / exp_poly_spec(r), q as nat)
    }
}

pub fn exp_neg(t: i64) -> (y: i64)
    requires
        0 <= t,
    ensures
        y == exp_neg_spec(t as int),
        0 <= y <= SCALE,
{
    let q: i64 = t / SCALE;
    let r: i64 = t % SCALE;
    proof {
        vstd::arithmetic::div_mod::lemma_div_pos_is_pos(t as int, SCALE as int);
        vstd::arithmetic::div_mod::lemma_mod_bound(t as int, SCALE as int);
    }
    if q >= 20 {
        return 0;
    }
    proof {
        assert(0 <= r * r <= SCALE * SCALE) by (nonlinear_arith)
            requires 0 <= r < SCALE;
        vstd::arithmetic::div_mod::lemma_div_pos_is_pos(r * r, SCALE as int);
        assert(r * r / (SCALE as int) <= SCALE) by (nonlinear_arith)
            requires 0 <= r * r <= SCALE * SCALE;
    }
    let t2: i64 = r * r / SCALE;
    proof {
        assert(0 <= t2 * r <= SCALE * SCALE) by (nonlinear_arith)
            requires 0 <= t2 <= SCALE, 0 <= r < SCALE;
        vstd::arithmetic::div_mod::lemma_div_pos_is_pos(t2 * r, SCALE as int);
        assert(t2 * r / (SCALE as int) <= SCALE) by (nonlinear_arith)
            requires 0 <= t2 * r <= SCALE * SCALE;
    }
    let t3: i64 = t2 * r / SCALE;
    proof {
        assert(0 <= t3 * r <= SCALE * SCALE) by (nonlinear_arith)
            requires 0 <= t3 <= SCALE, 0 <= r < SCALE;
        vstd::arithmetic::div_mod::lemma_div_pos_is_pos(t3 * r, SCALE as int);
        assert(t3 * r / (SCALE as int) <= SCALE) by (nonlinear_arith)
            requires 0 <= t3 * r <= SCALE * SCALE;
    }
    let t4: i64 = t3 * r / SCALE;
    let p: i64 = SCALE + r + t2 / 2 + t3 / 6 + t4 / 24;
    proof {
        vstd::arithmetic::div_mod::lemma_div_pos_is_pos(t2 as int, 2);
        vstd::arithmetic::div_mod::lemma_div_pos_is_pos(t3 as int, 6);
        vstd::arithmetic::div_mod::lemma_div_pos_is_pos(t4 as int, 24);
        assert(p >= SCALE);
        assert(SCALE * SCALE / (p as int) <= SCALE * SCALE / (SCALE as int)) by {
            vstd::arithmetic::div_mod::lemma_div_is_ordered_by_denominator(
                SCALE * SCALE, SCALE as int, p as int);
        }
        assert(SCALE * SCALE / (SCALE as int) == SCALE) by (nonlinear_arith);
        vstd::arithmetic::div_mod::lemma_div_pos_is_pos(SCALE * SCALE, p as int);
    }
    let mut y: i64 = SCALE * SCALE / p;
    let ghost y0: int = y as int;
    let mut i: i64 = 0;
    while i < q
        invariant
            0 <= i <= q < 20,
            0 <= y <= SCALE,
            decay_spec(y as int, (q - i) as nat) == decay_spec(y0, q as nat),
        decreases q - i,
    {
        proof {
            assert(0 <= y * EXP_NEG_ONE <= SCALE * SCALE) by (nonlinear_arith)
                requires 0 <= y <= SCALE, 0 < EXP_NEG_ONE < SCALE;
            vstd::arithmetic::div_mod::lemma_div_pos_is_pos(y * EXP_NEG_ONE, SCALE as int);
            assert(y * EXP_NEG_ONE / (SCALE as int) <= SCALE) by (nonlinear_arith)
                requires 0 <= y * EXP_NEG_ONE <= SCALE * SCALE;
        }
        y = y * EXP_NEG_ONE / SCALE;
        i = i + 1;
    }
    y
}

/// The integer square root, defined by counting up.
pub open spec fn sqrt_floor(n: int) -> int
    decreases n,
{
    if n <= 0 {
        0
    } else {
        let s = sqrt_floor(n - 1);
        if (s + 1) * (s + 1) <= n {
            s + 1
        } else {
            s
        }
    }
}

pub proof fn lemma_sqrt_floor_bounds(n: int)
    requires
        0 <= n,
    ensures
        0 <= sqrt_floor(n),
        sqrt_floor(n) * sqrt_floor(n) <= n,
        n < (sqrt_floor(n) + 1) * (sqrt_floor(n) + 1),
    decreases n,
{
    if n == 0 {
    } else {
        lemma_sqrt_floor_bounds(n - 1);
        let s = sqrt_floor(n - 1);
        if (s + 1) * (s + 1) <= n {
            assert(n - 1 < (s + 1) * (s + 1));
            assert(n < (s + 2) * (s + 2)) by (nonlinear_arith)
                requires 0 <= s, n <= (s + 1) * (s + 1);
        }
    }
}

/// The square root is the only integer whose square brackets `n`.
pub proof fn lemma_sqrt_floor_unique(n: int, r: int)
    requires
        0 <= n,
        0 <= r,
        r * r <= n,
        n < (r + 1) * (r + 1),
    ensures
        r == sqrt_floor(n),
{
    lemma_sqrt_floor_bounds(n);
    let s = sqrt_floor(n);
    if r < s {
        assert((r + 1) * (r + 1) <= s * s) by (nonlinear_arith)
            requires 0 <= r, r + 1 <= s;
    }
    if s < r {
        assert((s + 1) * (s + 1) <= r * r) by (nonlinear_arith)
            requires 0 <= s, s + 1 <= r;
    }
}

pub fn isqrt(n: i64) -> (r: i64)
    requires
        0 <= n,
    ensures
        r == sqrt_floor(n as int),
        0 <= r,
        r * r <= n,
        n < (r + 1) * (r + 1),
{
    let mut lo: i64 = 0;
    let mut hi: i64 = 3_037_000_499;
    proof {
        assert((3_037_000_499i64 + 1) * (3_037_000_499i64 + 1) > i64::MAX);
    }
    while lo < hi
        invariant
            0 <= lo <= hi <= 3_037_000_499,
            lo * lo <= n,
            n < (hi + 1) * (hi + 1),
        decreases hi - lo,
    {
        let mid: i64 = lo + (hi - lo + 1) / 2;
        proof {
            vstd::arithmetic::div_mod::lemma_div_pos_is_pos(hi - lo + 1, 2);
            vstd::arithmetic::div_mod::lemma_div_nonincreasing(hi - lo + 1, 2);
            assert(lo < mid <= hi) by {
                assert((hi - lo + 1) / 2 >= 1) by {
                    vstd::arithmetic::div_mod::lemma_div_is_ordered(2, hi - lo + 1, 2);
                    assert(2int / 2 == 1);
                }
            }
            assert(mid * mid <= 3_037_000_499i64 * 3_037_000_499i64) by (nonlinear_arith)
                requires 0 <= mid <= 3_037_000_499i64;
        }
        if mid * mid <= n {
            lo = mid;
        } else {
            hi = mid - 1;
        }
    }
    proof {
        lemma_sqrt_floor_unique(n as int, lo as int);
    }
    lo
}

} // verus!
