//! Filter kernels evaluated in 16.16 fixed point.
//!
//! Every kernel takes a nonnegative distance `d` from the sampling center,
//! expressed in units of 1/65536 of a source pixel, and returns the kernel
//! weight scaled by 65536. The cubic kernels are the Mitchell-Netravali
//! family written with integer coefficients (Catmull-Rom is `B=0, C=1/2`;
//! Mitchell is `B=1/3, C=1/3`); Lanczos3 is `sinc(x) * sinc(x/3)` with the
//! sine evaluated by an odd Taylor polynomial, so it is exactly zero at
//! whole-pixel distances and exactly one at distance zero.

use vstd::prelude::*;
use vstd::arithmetic::div_mod::lemma_div_is_ordered;
use vstd::arithmetic::div_mod::lemma_div_is_ordered_by_denominator;
use vstd::arithmetic::div_mod::lemma_div_pos_is_pos;
use crate::filter::FilterKind;

verus! {

/// Support radius of each kernel, in fixed point: the kernel is zero at
/// and beyond this distance (0.5 for nearest/bilinear, 2 for the cubics,
/// 3 for Lanczos3).
pub open spec fn spec_radius_fp(f: FilterKind) -> int {
    match f {
        FilterKind::Nearest => 32768,
        FilterKind::Bilinear => 32768,
        FilterKind::CatmullRom => 131072,
        FilterKind::Mitchell => 131072,
        FilterKind::Lanczos3 => 196608,
    }
}

pub fn radius_fp(f: FilterKind) -> (r: u64)
    ensures
        r == spec_radius_fp(f),
{
    match f {
        FilterKind::Nearest => 32768,
        FilterKind::Bilinear => 32768,
        FilterKind::CatmullRom => 131072,
        FilterKind::Mitchell => 131072,
        FilterKind::Lanczos3 => 196608,
    }
}

/// A quotient of nonnegative integers is nonnegative and at most the
/// dividend.
pub proof fn lemma_div_nonneg(a: int, b: int)
    requires
        0 <= a,
        0 < b,
    ensures
        0 <= a / b <= a,
{
    lemma_div_is_ordered_by_denominator(a, 1, b);
    assert(a / 1 == a) by (nonlinear_arith);
    if a > 0 {
        lemma_div_pos_is_pos(a, b);
    } else {
        assert(0int / b == 0) by (nonlinear_arith)
            requires 0 < b;
    }
}

/// `x^2` in fixed point, truncated.
pub open spec fn spec_x2(d: int) -> int {
    (d * d) / 65536
}

/// `x^3` in fixed point, truncated.
pub open spec fn spec_x3(d: int) -> int {
    (spec_x2(d) * d) / 65536
}

/// Fixed-point square and cube for distances within the largest support.
fn powers_fp(d: u64) -> (r: (u64, u64))
    requires
        d < 196608,
    ensures
        r.0 == spec_x2(d as int),
        r.1 == spec_x3(d as int),
        r.0 <= 589824,
        r.1 <= 1769472,
{
    proof {
        assert(d as int * d as int <= 196607 * 196607) by (nonlinear_arith)
            requires 0 <= d as int <= 196607;
        lemma_div_nonneg(d as int * d as int, 65536);
        lemma_div_is_ordered(d as int * d as int, 196607int * 196607, 65536);
    }
    let x2: u64 = (d * d) / 65536;
    proof {
        assert(x2 as int * d as int <= 589824 * 196607) by (nonlinear_arith)
            requires 0 <= x2 as int <= 589824, 0 <= d as int <= 196607;
        lemma_div_nonneg(x2 as int * d as int, 65536);
        lemma_div_is_ordered(x2 as int * d as int, 589824int * 196607, 65536);
    }
    let x3: u64 = (x2 * d) / 65536;
    (x2, x3)
}

/// Signed fixed-point quotient `(p - n) / den` computed from the two
/// nonnegative parts of a polynomial.
pub open spec fn spec_posneg_div(p: int, n: int, den: int) -> int {
    if p >= n {
        (p - n) / den
    } else {
        -((n - p) / den)
    }
}

/// Executable counterpart of `spec_posneg_div` for small operands.
fn posneg_div(p: u64, n: u64, den: u64) -> (r: i64)
    requires
        p <= 100000000,
        n <= 100000000,
        1 <= den,
    ensures
        r == spec_posneg_div(p as int, n as int, den as int),
        -100000000 <= r <= 100000000,
{
    if p >= n {
        proof {
            lemma_div_nonneg((p - n) as int, den as int);
        }
        ((p - n) / den) as i64
    } else {
        proof {
            lemma_div_nonneg((n - p) as int, den as int);
        }
        -(((n - p) / den) as i64)
    }
}

/// Taylor evaluation of `sin(pi * u / 65536) * 65536` for `u` in
/// `[0, 32768]` (a quarter wave): `z - z^3/6 + z^5/120 - z^7/5040` with
/// `z = pi * u` in fixed point, floored at zero.
pub open spec fn spec_sin_half_fp(u: int) -> int {
    let z = (205887 * u) / 65536;
    let z2 = (z * z) / 65536;
    let z3 = (z2 * z) / 65536;
    let z5 = (z3 * z2) / 65536;
    let z7 = (z5 * z2) / 65536;
    let p = z + z5 / 120;
    let n = z3 / 6 + z7 / 5040;
    if p >= n {
        p - n
    } else {
        0
    }
}

/// `sin(pi * t / 65536) * 65536` for any nonnegative `t`, by reduction of
/// the integer part: `sin(pi(k + g)) = (-1)^k sin(pi g)`.
pub open spec fn spec_sin_pi_fp(t: int) -> int {
    let k = t / 65536;
    let g = t % 65536;
    let m = if g <= 32768 {
        spec_sin_half_fp(g)
    } else {
        spec_sin_half_fp(65536 - g)
    };
    if k % 2 == 0 {
        m
    } else {
        -m
    }
}

/// Quarter-wave sine, with its range.
fn sin_half_fp(u: u64) -> (r: u64)
    requires
        u <= 32768,
    ensures
        r == spec_sin_half_fp(u as int),
        r <= 110000,
{
    let z: u64 = (205887 * u) / 65536;
    proof {
        lemma_div_nonneg(205887 * u as int, 65536);
        lemma_div_is_ordered(205887 * u as int, 205887int * 32768, 65536);
    }
    proof {
        assert(z as int * z as int <= 102943 * 102943) by (nonlinear_arith)
            requires 0 <= z as int <= 102943;
        lemma_div_nonneg(z as int * z as int, 65536);
        lemma_div_is_ordered(z as int * z as int, 102943int * 102943, 65536);
    }
    let z2: u64 = (z * z) / 65536;
    proof {
        assert(z2 as int * z as int <= 161701 * 102943) by (nonlinear_arith)
            requires 0 <= z2 as int <= 161701, 0 <= z as int <= 102943;
        lemma_div_nonneg(z2 as int * z as int, 65536);
        lemma_div_is_ordered(z2 as int * z as int, 161701int * 102943, 65536);
    }
    let z3: u64 = (z2 * z) / 65536;
    proof {
        assert(z3 as int * z2 as int <= 253997 * 161701) by (nonlinear_arith)
            requires 0 <= z3 as int <= 253997, 0 <= z2 as int <= 161701;
        lemma_div_nonneg(z3 as int * z2 as int, 65536);
        lemma_div_is_ordered(z3 as int * z2 as int, 253997int * 161701, 65536);
    }
    let z5: u64 = (z3 * z2) / 65536;
    proof {
        assert(z5 as int * z2 as int <= 626702 * 161701) by (nonlinear_arith)
            requires 0 <= z5 as int <= 626702, 0 <= z2 as int <= 161701;
        lemma_div_nonneg(z5 as int * z2 as int, 65536);
        lemma_div_is_ordered(z5 as int * z2 as int, 626702int * 161701, 65536);
    }
    let z7: u64 = (z5 * z2) / 65536;
    proof {
        lemma_div_nonneg(z5 as int, 120);
        lemma_div_is_ordered(z5 as int, 626702, 120);
        lemma_div_nonneg(z3 as int, 6);
        lemma_div_nonneg(z7 as int, 5040);
    }
    let p: u64 = z + z5 / 120;
    let n: u64 = z3 / 6 + z7 / 5040;
    if p >= n {
        p - n
    } else {
        0
    }
}

/// Full-range fixed-point sine of `pi * t / 65536`, with its magnitude
/// bound.
fn sin_pi_fp(t: u64) -> (r: i64)
    ensures
        r == spec_sin_pi_fp(t as int),
        -110000 <= r <= 110000,
{
    let k: u64 = t / 65536;
    let g: u64 = t % 65536;
    let m: u64 = if g <= 32768 {
        sin_half_fp(g)
    } else {
        sin_half_fp(65536 - g)
    };
    if k % 2 == 0 {
        m as i64
    } else {
        -(m as i64)
    }
}

/// The kernel weight in fixed point at nonnegative fixed-point distance
/// `d`.
pub open spec fn spec_kernel_fp(f: FilterKind, d: int) -> int {
    match f {
        FilterKind::Nearest => if d <= 32768 {
            65536
        } else {
            0
        },
        FilterKind::Bilinear => if d >= 65536 {
            0
        } else {
            65536 - d
        },
        FilterKind::CatmullRom => if d >= 131072 {
            0
        } else if d < 65536 {
            spec_posneg_div(9 * spec_x3(d) + 393216, 15 * spec_x2(d), 6)
        } else {
            spec_posneg_div(15 * spec_x2(d) + 786432, 3 * spec_x3(d) + 24 * d, 6)
        },
        FilterKind::Mitchell => if d >= 131072 {
            0
        } else if d < 65536 {
            spec_posneg_div(21 * spec_x3(d) + 1048576, 36 * spec_x2(d), 18)
        } else {
            spec_posneg_div(36 * spec_x2(d) + 2097152, 7 * spec_x3(d) + 60 * d, 18)
        },
        FilterKind::Lanczos3 => if d < 1024 {
            65536
        } else if d >= 196608 {
            0
        } else {
            spec_lanczos3_fp(d)
        },
    }
}

/// Lanczos3 body for `1024 <= d < 196608`:
/// `3 * sin(pi x) * sin(pi x / 3) / (pi^2 x^2)` in fixed point, with
/// 646814 as `pi^2 * 65536`.
pub open spec fn spec_lanczos3_fp(d: int) -> int {
    let s1 = spec_sin_pi_fp(d);
    let s2 = spec_sin_pi_fp(d / 3);
    let den = 646814 * d * d;
    if s1 >= 0 {
        (3 * s1 * s2 * 4294967296) / den
    } else {
        -((3 * (-s1) * s2 * 4294967296) / den)
    }
}

/// Kernel evaluation, pinned to the kernel's fixed-point definition.
pub fn kernel_fp(f: FilterKind, d: u64) -> (w: i64)
    ensures
        w == spec_kernel_fp(f, d as int),
{
    match f {
        FilterKind::Nearest => if d <= 32768 {
            65536
        } else {
            0
        },
        FilterKind::Bilinear => if d >= 65536 {
            0
        } else {
            65536 - (d as i64)
        },
        FilterKind::CatmullRom => if d >= 131072 {
            0
        } else if d < 65536 {
            let (x2, x3): (u64, u64) = powers_fp(d);
            posneg_div(9 * x3 + 393216, 15 * x2, 6)
        } else {
            let (x2, x3): (u64, u64) = powers_fp(d);
            posneg_div(15 * x2 + 786432, 3 * x3 + 24 * d, 6)
        },
        FilterKind::Mitchell => if d >= 131072 {
            0
        } else if d < 65536 {
            let (x2, x3): (u64, u64) = powers_fp(d);
            posneg_div(21 * x3 + 1048576, 36 * x2, 18)
        } else {
            let (x2, x3): (u64, u64) = powers_fp(d);
            posneg_div(36 * x2 + 2097152, 7 * x3 + 60 * d, 18)
        },
        FilterKind::Lanczos3 => if d < 1024 {
            65536
        } else if d >= 196608 {
            0
        } else {
            let s1: i64 = sin_pi_fp(d);
            let s2: i64 = sin_pi_fp(d / 3);
            proof {
                lemma_div_nonneg(d as int, 3);
                lemma_div_is_ordered(d as int, 196607, 3);
                assert((d as int / 3) / 65536 == 0) by {
                    vstd::arithmetic::div_mod::lemma_basic_div(d as int / 3, 65536);
                }
                assert(spec_sin_pi_fp(d as int / 3) >= 0);
            }
            proof {
                assert(646814 * (d as int) * (d as int) <= 25002150452387486int)
                    by (nonlinear_arith)
                    requires 0 <= d as int <= 196607;
                assert(646814 * (d as int) * (d as int) >= 678233636864) by (nonlinear_arith)
                    requires 1024 <= d as int;
            }
            let den: u128 = 646814 * (d as u128) * (d as u128);
            if s1 >= 0 {
                proof {
                    assert(3 * (s1 as int) * (s2 as int) * 4294967296 <= 155907312844800000000)
                        by (nonlinear_arith)
                        requires 0 <= s1 as int <= 110000, 0 <= s2 as int <= 110000;
                }
                let num: u128 = 3 * (s1 as u128) * (s2 as u128) * 4294967296;
                proof {
                    lemma_div_nonneg(num as int, den as int);
                    lemma_div_is_ordered(num as int, 155907312844800000000, den as int);
                    lemma_div_is_ordered_by_denominator(155907312844800000000, 678233636864, den as int);
                }
                (num / den) as i64
            } else {
                proof {
                    assert(3 * ((-s1) as int) * (s2 as int) * 4294967296 <= 155907312844800000000)
                        by (nonlinear_arith)
                        requires 0 <= (-s1) as int <= 110000, 0 <= s2 as int <= 110000;
                }
                let num: u128 = 3 * ((-s1) as u128) * (s2 as u128) * 4294967296;
                proof {
                    lemma_div_nonneg(num as int, den as int);
                    lemma_div_is_ordered(num as int, 155907312844800000000, den as int);
                    lemma_div_is_ordered_by_denominator(155907312844800000000, 678233636864, den as int);
                }
                -((num / den) as i64)
            }
        },
    }
}

} // verus!
