//! Fixed-point arithmetic helpers: exact integer substitutes for the
//! fractional quantities of a rasterizer (square roots, clamping, and a
//! degree-based sine/cosine in 1/1024 units).

use vstd::arithmetic::div_mod::{
    lemma_div_is_ordered, lemma_div_multiples_vanish, lemma_fundamental_div_mod_converse,
};
use vstd::prelude::*;

verus! {

/// The fixed-point representation of 1.0: values are carried in 1/1024 units.
pub const FP_ONE: i64 = 1024;

/// `x` clamped to the closed interval `[lo, hi]`.
pub open spec fn clamp_int(x: int, lo: int, hi: int) -> int {
    if x < lo {
        lo
    } else if x > hi {
        hi
    } else {
        x
    }
}

/// Executable clamp on `i64`, equal to `clamp_int`.
pub fn clamp64(x: i64, lo: i64, hi: i64) -> (r: i64)
    requires
        lo <= hi,
    ensures
        r == clamp_int(x as int, lo as int, hi as int),
        lo <= r <= hi,
{
    if x < lo {
        lo
    } else if x > hi {
        hi
    } else {
        x
    }
}

/// The integer square root: the greatest `s` with `s * s <= n`.
pub open spec fn sqrt_floor(n: nat) -> nat
    decreases n,
{
    if n < 1 {
        0
    } else {
        let s = sqrt_floor((n - 1) as nat);
        if (s + 1) * (s + 1) <= n {
            s + 1
        } else {
            s
        }
    }
}

/// `sqrt_floor(n)` is indeed the floor of the square root of `n`.
pub proof fn lemma_sqrt_floor_props(n: nat)
    ensures
        sqrt_floor(n) * sqrt_floor(n) <= n,
        n < (sqrt_floor(n) + 1) * (sqrt_floor(n) + 1),
    decreases n,
{
    if n >= 1 {
        lemma_sqrt_floor_props((n - 1) as nat);
        let s = sqrt_floor((n - 1) as nat);
        let ni = n as int;
        let si = s as int;
        assert(si * si <= ni - 1);
        assert(ni - 1 < (si + 1) * (si + 1));
        if (s + 1) * (s + 1) <= n {
            assert(sqrt_floor(n) == s + 1);
            assert((si + 2) * (si + 2) > ni) by (nonlinear_arith)
                requires
                    si >= 0,
                    ni - 1 < (si + 1) * (si + 1),
            ;
            assert(n < (sqrt_floor(n) + 1) * (sqrt_floor(n) + 1));
        } else {
            assert(sqrt_floor(n) == s);
            assert(n < (sqrt_floor(n) + 1) * (sqrt_floor(n) + 1));
        }
    } else {
        let t = sqrt_floor(n);
        assert(t == 0);
        assert((t + 1) * (t + 1) == 1) by (nonlinear_arith)
            requires
                t == 0,
        ;
    }
}

/// Any `s` with `s * s <= n < (s + 1) * (s + 1)` is `sqrt_floor(n)`.
pub proof fn lemma_sqrt_floor_unique(n: nat, s: nat)
    requires
        s * s <= n,
        n < (s + 1) * (s + 1),
    ensures
        s == sqrt_floor(n),
{
    lemma_sqrt_floor_props(n);
    let t = sqrt_floor(n);
    if s < t {
        assert((s + 1) * (s + 1) <= t * t) by (nonlinear_arith)
            requires
                s + 1 <= t,
        ;
    } else if t < s {
        assert((t + 1) * (t + 1) <= s * s) by (nonlinear_arith)
            requires
                t + 1 <= s,
        ;
    }
}

/// The square root floor is monotone under a squared bound.
pub proof fn lemma_sqrt_floor_le(x: nat, b: nat)
    requires
        x <= b * b,
    ensures
        sqrt_floor(x) <= b,
{
    lemma_sqrt_floor_props(x);
    let s = sqrt_floor(x);
    if s > b {
        assert(s * s > b * b) by (nonlinear_arith)
            requires
                b < s,
        ;
    }
}

/// Executable integer square root by binary search.
pub fn isqrt(n: u64) -> (r: u64)
    ensures
        r == sqrt_floor(n as nat),
        (r as int) * (r as int) <= n as int,
        (n as int) < (r as int + 1) * (r as int + 1),
{
    let mut lo: u64 = 0;
    let mut hi: u64 = 0x1_0000_0000;
    assert((hi as int) * (hi as int) > n as int) by (nonlinear_arith)
        requires
            hi == 0x1_0000_0000,
            n <= u64::MAX,
    ;
    while hi - lo > 1
        invariant
            lo < hi,
            hi <= 0x1_0000_0000,
            (lo as int) * (lo as int) <= n as int,
            (n as int) < (hi as int) * (hi as int),
        decreases hi - lo,
    {
        let mid: u64 = lo + (hi - lo) / 2;
        assert(mid * mid <= 0xffff_ffffu64 * 0xffff_ffffu64) by (nonlinear_arith)
            requires
                mid <= 0xffff_ffffu64,
        ;
        if mid * mid <= n {
            lo = mid;
        } else {
            hi = mid;
        }
    }
    proof {
        lemma_sqrt_floor_unique(n as nat, lo as nat);
    }
    lo
}

/// Sine over a half turn in 1/1024 units, for `0 <= d <= 180` degrees,
/// by the classical rational approximation `4 d (180 - d) / (40500 - d (180 - d))`.
/// Exact at 0, 90 and 180 degrees.
pub open spec fn half_sin_q(d: int) -> int {
    let u = d * (180 - d);
    (4 * u * 1024) / (40500 - u)
}

/// Sine of an angle in whole degrees, in 1/1024 units.
pub open spec fn sin_deg_spec(deg: int) -> int {
    let m = deg % 360;
    if m <= 180 {
        half_sin_q(m)
    } else {
        -half_sin_q(m - 180)
    }
}

/// Cosine of an angle in whole degrees, in 1/1024 units.
pub open spec fn cos_deg_spec(deg: int) -> int {
    sin_deg_spec(deg + 90)
}

proof fn lemma_half_sin_bounds(d: int)
    requires
        0 <= d <= 180,
    ensures
        0 <= half_sin_q(d) <= 1024,
{
    let u = d * (180 - d);
    assert(0 <= u <= 8100) by (nonlinear_arith)
        requires
            0 <= d <= 180,
            u == d * (180 - d),
    ;
    let num = 4 * u * 1024;
    let den = 40500 - u;
    assert(num >= 0);
    assert(den >= 32400);
    assert(num / den >= 0) by {
        lemma_div_is_ordered(0, num, den);
    }
    assert(num / den <= 1024) by {
        assert(num <= 1024 * den);
        lemma_div_is_ordered(num, 1024 * den, den);
        lemma_div_multiples_vanish(1024, den);
    }
}

/// Sine of `d` degrees (any angle an `i32` caller can form), in 1/1024 units.
fn sin_of_i64(d: i64) -> (s: i64)
    requires
        -0x8000_0000 <= d <= 0x1_0000_0000,
    ensures
        s == sin_deg_spec(d as int),
        -1024 <= s <= 1024,
{
    let m: i64 = if d >= 0 {
        d % 360
    } else {
        let k: i64 = (-d) % 360;
        if k == 0 {
            0
        } else {
            360 - k
        }
    };
    proof {
        if d < 0 {
            let q = (-d) as int / 360;
            let k = (-d) as int % 360;
            vstd::arithmetic::div_mod::lemma_fundamental_div_mod((-d) as int, 360);
            if k != 0 {
                lemma_fundamental_div_mod_converse(d as int, 360, -q - 1, 360 - k);
            } else {
                lemma_fundamental_div_mod_converse(d as int, 360, -q, 0);
            }
        }
        assert(m == (d as int) % 360);
        vstd::arithmetic::div_mod::lemma_mod_bound(d as int, 360);
        assert(0 <= m < 360);
    }
    let s: i64 = if m <= 180 {
        proof {
            lemma_half_sin_bounds(m as int);
        }
        assert(0 <= m * (180 - m) <= 8100) by (nonlinear_arith)
            requires
                0 <= m <= 180,
        ;
        let u: i64 = m * (180 - m);
        (4 * u * 1024) / (40500 - u)
    } else {
        proof {
            lemma_half_sin_bounds(m as int - 180);
        }
        assert(0 <= (m - 180) * (180 - (m - 180)) <= 8100) by (nonlinear_arith)
            requires
                180 < m < 360,
        ;
        let u: i64 = (m - 180) * (180 - (m - 180));
        -((4 * u * 1024) / (40500 - u))
    };
    s
}

/// Sine of an angle in whole degrees, in 1/1024 units.
pub fn sin_deg(deg: i32) -> (s: i64)
    ensures
        s == sin_deg_spec(deg as int),
        -1024 <= s <= 1024,
{
    sin_of_i64(deg as i64)
}

/// Sine of an angle in whole degrees given as a wide integer (as a phase
/// accumulator produces), in 1/1024 units.
pub fn sin_deg_wide(deg: i64) -> (s: i64)
    requires
        -0x8000_0000 <= deg <= 0x1_0000_0000,
    ensures
        s == sin_deg_spec(deg as int),
        -1024 <= s <= 1024,
{
    sin_of_i64(deg)
}

/// Cosine of an angle in whole degrees, in 1/1024 units.
pub fn cos_deg(deg: i32) -> (s: i64)
    ensures
        s == cos_deg_spec(deg as int),
        -1024 <= s <= 1024,
{
    sin_of_i64(deg as i64 + 90)
}

/// Linear interpolation between `a` and `b` at parameter `t` in 1/1024
/// units: `(a * (1024 - t) + b * t) / 1024`.
pub open spec fn mix_q(a: int, b: int, t: int) -> int {
    (a * (1024 - t) + b * t) / 1024
}

/// Executable interpolation of nonnegative fixed-point values, equal to `mix_q`.
pub fn mix64(a: i64, b: i64, t: i64) -> (r: i64)
    requires
        0 <= t <= 1024,
        0 <= a <= 0x1_0000_0000,
        0 <= b <= 0x1_0000_0000,
    ensures
        r == mix_q(a as int, b as int, t as int),
        0 <= r <= 0x1_0000_0000,
{
    proof {
        assert(0 <= (a as int) * (1024 - t as int) + (b as int) * (t as int) <= 0x1_0000_0000
            * 1024) by (nonlinear_arith)
            requires
                0 <= t as int <= 1024,
                0 <= a as int <= 0x1_0000_0000,
                0 <= b as int <= 0x1_0000_0000,
        ;
        lemma_div_is_ordered(0, (a as int) * (1024 - t as int) + (b as int) * (t as int), 1024);
        lemma_div_is_ordered(
            (a as int) * (1024 - t as int) + (b as int) * (t as int),
            0x1_0000_0000int * 1024,
            1024,
        );
        lemma_div_multiples_vanish(0x1_0000_0000, 1024);
    }
    (a * (1024 - t) + b * t) / 1024
}

/// The smooth Hermite step in 1/1024 units: with
/// `t = clamp((x - e0) / (e1 - e0), 0, 1)`, the value `t * t * (3 - 2 * t)`,
/// clamped to the unit range.
pub open spec fn smoothstep_q(e0: int, e1: int, x: int) -> int {
    let t = if x <= e0 {
        0
    } else if x >= e1 {
        1024
    } else {
        (x - e0) * 1024 / (e1 - e0)
    };
    clamp_int(t * t * (3072 - 2 * t) / (1024int * 1024), 0, 1024)
}

/// Executable smooth step, equal to `smoothstep_q`.
pub fn smoothstep64(e0: i64, e1: i64, x: i64) -> (r: i64)
    requires
        -0x100_0000_0000 <= e0 <= 0x100_0000_0000,
        -0x100_0000_0000 <= e1 <= 0x100_0000_0000,
        -0x100_0000_0000 <= x <= 0x100_0000_0000,
    ensures
        r == smoothstep_q(e0 as int, e1 as int, x as int),
        0 <= r <= 1024,
{
    let t: i64 = if x <= e0 {
        0
    } else if x >= e1 {
        1024
    } else {
        proof {
            vstd::arithmetic::div_mod::lemma_div_pos_is_pos(
                (x as int - e0 as int) * 1024,
                e1 as int - e0 as int,
            );
            assert(((x as int) - (e0 as int)) * 1024 < ((e1 as int) - (e0 as int)) * 1024)
                by (nonlinear_arith)
                requires
                    ((x as int) - (e0 as int)) < ((e1 as int) - (e0 as int)),
            ;
            vstd::arithmetic::div_mod::lemma_multiply_divide_lt(
                (x as int - e0 as int) * 1024,
                e1 as int - e0 as int,
                1024,
            );
        }
        (x - e0) * 1024 / (e1 - e0)
    };
    proof {
        assert(0 <= t * t && t * t <= 1024 * 1024) by (nonlinear_arith)
            requires
                0 <= t as int <= 1024,
        ;
        assert(0 <= (t as int) * (t as int) * (3072 - 2 * t as int) <= 1024 * 1024
            * 3072) by (nonlinear_arith)
            requires
                0 <= t as int <= 1024,
        ;
        vstd::arithmetic::div_mod::lemma_div_pos_is_pos(
            (t as int) * (t as int) * (3072 - 2 * t as int),
            1024int * 1024,
        );
    }
    let raw: i64 = t * t * (3072 - 2 * t) / (1024 * 1024);
    clamp64(raw, 0, 1024)
}

/// The hard step: 0 below the edge, 1 (1024 fixed point) at or above it.
pub open spec fn step_q(edge: int, x: int) -> int {
    if x < edge {
        0
    } else {
        1024
    }
}

/// Executable hard step, equal to `step_q`.
pub fn step64(edge: i64, x: i64) -> (r: i64)
    ensures
        r == step_q(edge as int, x as int),
{
    if x < edge {
        0
    } else {
        1024
    }
}

/// The fractional part of a 1/1024 fixed-point value: the Euclidean
/// remainder by 1024, always in [0, 1024).
pub open spec fn fract_q(x: int) -> int {
    x % 1024
}

/// Executable fractional part, equal to `fract_q`.
pub fn fract64(x: i64) -> (r: i64)
    requires
        x != i64::MIN,
    ensures
        r == fract_q(x as int),
        0 <= r < 1024,
{
    let m: i64 = if x >= 0 {
        x % 1024
    } else {
        let k: i64 = (-x) % 1024;
        if k == 0 {
            0
        } else {
            1024 - k
        }
    };
    proof {
        if x < 0 {
            let q = (-x) as int / 1024;
            let k = (-x) as int % 1024;
            vstd::arithmetic::div_mod::lemma_fundamental_div_mod((-x) as int, 1024);
            if k != 0 {
                lemma_fundamental_div_mod_converse(x as int, 1024, -q - 1, 1024 - k);
            } else {
                lemma_fundamental_div_mod_converse(x as int, 1024, -q, 0);
            }
        }
        vstd::arithmetic::div_mod::lemma_mod_bound(x as int, 1024);
    }
    m
}

/// The length of an integer 2-vector: the floor of the Euclidean norm.
pub open spec fn length_q(x: int, y: int) -> int {
    sqrt_floor((x * x + y * y) as nat) as int
}

/// Executable vector length, equal to `length_q`.
pub fn length64(x: i64, y: i64) -> (r: i64)
    requires
        -0x4000_0000 <= x <= 0x4000_0000,
        -0x4000_0000 <= y <= 0x4000_0000,
    ensures
        r == length_q(x as int, y as int),
        0 <= r <= 0x6000_0000,
{
    proof {
        assert(0 <= (x as int) * (x as int) <= 0x4000_0000int * 0x4000_0000 && 0 <= (y as int) * (
        y as int) <= 0x4000_0000int * 0x4000_0000) by (nonlinear_arith)
            requires
                -0x4000_0000 <= x as int <= 0x4000_0000,
                -0x4000_0000 <= y as int <= 0x4000_0000,
        ;
    }
    let d2: u64 = ((x * x) + (y * y)) as u64;
    let r: u64 = isqrt(d2);
    proof {
        assert((0x6000_0000int * 0x6000_0000int) >= 2 * (0x4000_0000 * 0x4000_0000))
            by (nonlinear_arith);
        lemma_sqrt_floor_le(d2 as nat, 0x6000_0000nat);
    }
    r as i64
}

/// The absolute value.
pub open spec fn abs_q(x: int) -> int {
    if x < 0 {
        -x
    } else {
        x
    }
}

/// Executable absolute value, equal to `abs_q`.
pub fn abs64(x: i64) -> (r: i64)
    requires
        x != i64::MIN,
    ensures
        r == abs_q(x as int),
        r >= 0,
{
    if x < 0 {
        -x
    } else {
        x
    }
}

/// The smaller of two values.
pub open spec fn min_q(a: int, b: int) -> int {
    if a < b {
        a
    } else {
        b
    }
}

/// Executable minimum, equal to `min_q`.
pub fn min64(a: i64, b: i64) -> (r: i64)
    ensures
        r == min_q(a as int, b as int),
{
    if a < b {
        a
    } else {
        b
    }
}

/// The larger of two values.
pub open spec fn max_q(a: int, b: int) -> int {
    if a > b {
        a
    } else {
        b
    }
}

/// Executable maximum, equal to `max_q`.
pub fn max64(a: i64, b: i64) -> (r: i64)
    ensures
        r == max_q(a as int, b as int),
{
    if a > b {
        a
    } else {
        b
    }
}

/// The dot product of two fixed-point 2-vectors, in 1/1024 units:
/// `(ax * bx + ay * by) / 1024`, with the division kept sign-exact.
pub open spec fn dot_q(ax: int, ay: int, bx: int, by: int) -> int {
    let num = ax * bx + ay * by;
    if num >= 0 {
        num / 1024
    } else {
        -((-num) / 1024)
    }
}

/// Executable dot product, equal to `dot_q`.
pub fn dot64(ax: i64, ay: i64, bx: i64, by: i64) -> (r: i64)
    requires
        -0x4000_0000 <= ax <= 0x4000_0000,
        -0x4000_0000 <= ay <= 0x4000_0000,
        -0x4000_0000 <= bx <= 0x4000_0000,
        -0x4000_0000 <= by <= 0x4000_0000,
    ensures
        r == dot_q(ax as int, ay as int, bx as int, by as int),
{
    proof {
        assert(-(0x4000_0000int * 0x4000_0000) <= (ax as int) * (bx as int) <= 0x4000_0000int
            * 0x4000_0000 && -(0x4000_0000int * 0x4000_0000) <= (ay as int) * (by as int)
            <= 0x4000_0000int * 0x4000_0000) by (nonlinear_arith)
            requires
                -0x4000_0000 <= ax as int <= 0x4000_0000,
                -0x4000_0000 <= ay as int <= 0x4000_0000,
                -0x4000_0000 <= bx as int <= 0x4000_0000,
                -0x4000_0000 <= by as int <= 0x4000_0000,
        ;
    }
    let num: i64 = ax * bx + ay * by;
    if num >= 0 {
        proof {
            lemma_div_is_ordered(0, num as int, 1024);
        }
        num / 1024
    } else {
        proof {
            lemma_div_is_ordered(0, (-num) as int, 1024);
        }
        -((-num) / 1024)
    }
}

/// The distance between two fixed-point 2-vectors: the floor of the
/// Euclidean norm of their difference.
pub open spec fn distance_q(ax: int, ay: int, bx: int, by: int) -> int {
    length_q(ax - bx, ay - by)
}

/// Executable distance, equal to `distance_q`.
pub fn distance64(ax: i64, ay: i64, bx: i64, by: i64) -> (r: i64)
    requires
        -0x2000_0000 <= ax <= 0x2000_0000,
        -0x2000_0000 <= ay <= 0x2000_0000,
        -0x2000_0000 <= bx <= 0x2000_0000,
        -0x2000_0000 <= by <= 0x2000_0000,
    ensures
        r == distance_q(ax as int, ay as int, bx as int, by as int),
        0 <= r <= 0x6000_0000,
{
    length64(ax - bx, ay - by)
}

/// A 2-vector scaled to unit length in 1/1024 units, the zero vector kept at
/// zero, each component division kept sign-exact.
pub open spec fn normalize_q(x: int, y: int) -> (int, int) {
    let len = length_q(x, y);
    if len == 0 {
        (0, 0)
    } else {
        (
            if x >= 0 {
                x * 1024 / len
            } else {
                -((-x) * 1024 / len)
            },
            if y >= 0 {
                y * 1024 / len
            } else {
                -((-y) * 1024 / len)
            },
        )
    }
}

/// Executable normalization, equal to `normalize_q`.
pub fn normalize64(x: i64, y: i64) -> (r: (i64, i64))
    requires
        -0x10_0000 <= x <= 0x10_0000,
        -0x10_0000 <= y <= 0x10_0000,
    ensures
        (r.0 as int, r.1 as int) == normalize_q(x as int, y as int),
{
    let len: i64 = length64(x, y);
    if len == 0 {
        (0, 0)
    } else {
        proof {
            assert(0 <= (x as int) * 1024 || x < 0);
            assert(-(0x10_0000int * 1024) <= (x as int) * 1024 <= 0x10_0000int
                * 1024) by (nonlinear_arith)
                requires
                    -0x10_0000 <= x as int <= 0x10_0000,
            ;
            assert(-(0x10_0000int * 1024) <= (y as int) * 1024 <= 0x10_0000int
                * 1024) by (nonlinear_arith)
                requires
                    -0x10_0000 <= y as int <= 0x10_0000,
            ;
        }
        let nx: i64 = if x >= 0 {
            proof {
                lemma_div_is_ordered(0, (x as int) * 1024, len as int);
                lemma_div_is_ordered((x as int) * 1024, 0x10_0000int * 1024, len as int);
                vstd::arithmetic::div_mod::lemma_div_is_ordered_by_denominator(
                    0x10_0000int * 1024,
                    1,
                    len as int,
                );
            }
            (x * 1024) / len
        } else {
            proof {
                lemma_div_is_ordered(0, ((-x) as int) * 1024, len as int);
                lemma_div_is_ordered(((-x) as int) * 1024, 0x10_0000int * 1024, len as int);
                vstd::arithmetic::div_mod::lemma_div_is_ordered_by_denominator(
                    0x10_0000int * 1024,
                    1,
                    len as int,
                );
            }
            -(((-x) * 1024) / len)
        };
        let ny: i64 = if y >= 0 {
            proof {
                lemma_div_is_ordered(0, (y as int) * 1024, len as int);
                lemma_div_is_ordered((y as int) * 1024, 0x10_0000int * 1024, len as int);
                vstd::arithmetic::div_mod::lemma_div_is_ordered_by_denominator(
                    0x10_0000int * 1024,
                    1,
                    len as int,
                );
            }
            (y * 1024) / len
        } else {
            proof {
                lemma_div_is_ordered(0, ((-y) as int) * 1024, len as int);
                lemma_div_is_ordered(((-y) as int) * 1024, 0x10_0000int * 1024, len as int);
                vstd::arithmetic::div_mod::lemma_div_is_ordered_by_denominator(
                    0x10_0000int * 1024,
                    1,
                    len as int,
                );
            }
            -(((-y) * 1024) / len)
        };
        (nx, ny)
    }
}

} // verus!
