//! Sampling windows for one separable pass.
//!
//! For a pass from `sl` source samples to `dl` destination samples, output
//! coordinate `o` maps to the continuous source coordinate
//! `center = (o + 0.5) * sl / dl - 0.5`. The window holds every integer
//! sample coordinate within `radius` of the center; when shrinking
//! (`dl < sl`) the radius is widened by `sl / dl` and kernel arguments are
//! shrunk by `dl / sl`, which acts as an anti-aliasing low-pass. Out-of-range
//! sample coordinates are clamped to the nearest edge sample. All positions
//! are carried in 16.16 fixed point.

use vstd::prelude::*;
use vstd::arithmetic::div_mod::lemma_div_is_ordered;
use vstd::arithmetic::div_mod::lemma_div_multiples_vanish;
use vstd::arithmetic::div_mod::lemma_fundamental_div_mod;
use vstd::arithmetic::div_mod::lemma_multiply_divide_lt;
use crate::filter::FilterKind;
use crate::kernel::lemma_div_nonneg;
use crate::kernel::kernel_fp;
use crate::kernel::radius_fp;
use crate::kernel::spec_kernel_fp;
use crate::kernel::spec_radius_fp;

verus! {

/// `center + 0.5` for output coordinate `o`, in fixed point (always
/// nonnegative).
pub open spec fn spec_chalf_fp(o: int, sl: int, dl: int) -> int {
    ((2 * o + 1) * sl * 65536) / (2 * dl)
}

/// Half-width of the sampling window in fixed point: the kernel radius,
/// widened by `sl / dl` (rounded up) when shrinking.
pub open spec fn spec_rwin_fp(f: FilterKind, sl: int, dl: int) -> int {
    if dl < sl {
        (spec_radius_fp(f) * sl + dl - 1) / dl
    } else {
        spec_radius_fp(f)
    }
}

/// Distance from sample coordinate `s` to the window center, in fixed
/// point.
pub open spec fn spec_dist_fp(o: int, sl: int, dl: int, s: int) -> int {
    let a = s * 65536 + 32768 - spec_chalf_fp(o, sl, dl);
    if a < 0 {
        -a
    } else {
        a
    }
}

/// Kernel argument for a distance: compressed by `dl / sl` when
/// shrinking.
pub open spec fn spec_xarg_fp(d: int, sl: int, dl: int) -> int {
    if dl < sl {
        (d * dl) / sl
    } else {
        d
    }
}

/// The weight of sample `s` in the window of output `o`: the kernel at
/// the compressed distance, clamped to twice the unit weight.
pub open spec fn spec_weight(f: FilterKind, o: int, sl: int, dl: int, s: int) -> int {
    let w = spec_kernel_fp(f, spec_xarg_fp(spec_dist_fp(o, sl, dl, s), sl, dl));
    if w > 131072 {
        131072
    } else if w < -131072 {
        -131072
    } else {
        w
    }
}

/// First sample coordinate of the window: `ceil(center - rwin)`, computed
/// with a nonnegative shift so that only nonnegative values are divided.
pub open spec fn spec_tap_lo(f: FilterKind, o: int, sl: int, dl: int) -> int {
    let su = spec_rwin_fp(f, sl, dl) / 65536 + 2;
    let t = spec_chalf_fp(o, sl, dl) + su * 65536 - 32768 - spec_rwin_fp(f, sl, dl);
    (t + 65535) / 65536 - su
}

/// Last sample coordinate of the window: `floor(center + rwin)`.
pub open spec fn spec_tap_hi(f: FilterKind, o: int, sl: int, dl: int) -> int {
    (spec_chalf_fp(o, sl, dl) + spec_rwin_fp(f, sl, dl) + 32768) / 65536 - 1
}

/// Number of samples in the window.
pub open spec fn spec_ntaps(f: FilterKind, o: int, sl: int, dl: int) -> nat {
    let lo = spec_tap_lo(f, o, sl, dl);
    let hi = spec_tap_hi(f, o, sl, dl);
    if hi >= lo {
        (hi - lo + 1) as nat
    } else {
        0
    }
}

/// Sum of the first `k` window weights.
pub open spec fn spec_wsum(f: FilterKind, o: int, sl: int, dl: int, k: nat) -> int
    decreases k,
{
    if k == 0 {
        0
    } else {
        spec_wsum(f, o, sl, dl, (k - 1) as nat) + spec_weight(
            f,
            o,
            sl,
            dl,
            spec_tap_lo(f, o, sl, dl) + k - 1,
        )
    }
}

/// Sum of all window weights.
pub open spec fn spec_wtotal(f: FilterKind, o: int, sl: int, dl: int) -> int {
    spec_wsum(f, o, sl, dl, spec_ntaps(f, o, sl, dl))
}

/// Clamp-to-edge: out-of-range sample coordinates reuse the nearest valid
/// sample.
pub open spec fn clamp_idx(s: int, sl: int) -> int {
    if s < 0 {
        0
    } else if s >= sl {
        sl - 1
    } else {
        s
    }
}

/// Weighted sum of the first `k` window samples of `line` (one source
/// scanline of one channel), with clamp-to-edge indexing.
pub open spec fn spec_conv_sum(
    line: Seq<int>,
    f: FilterKind,
    o: int,
    sl: int,
    dl: int,
    k: nat,
) -> int
    decreases k,
{
    if k == 0 {
        0
    } else {
        let s = spec_tap_lo(f, o, sl, dl) + k - 1;
        let v = line[clamp_idx(s, sl)];
        spec_conv_sum(line, f, o, sl, dl, (k - 1) as nat) + spec_weight(f, o, sl, dl, s) * v
    }
}

/// The source sample nearest to the center of output `o`:
/// `floor(center + 0.5)` clamped into range. Used by the nearest-neighbor
/// fallback when a window's weights cancel.
pub open spec fn spec_center_idx(o: int, sl: int, dl: int) -> int {
    clamp_idx(spec_chalf_fp(o, sl, dl) / 65536, sl)
}

/// The sampling window of one output coordinate: its first sample
/// coordinate, the weight of each sample, and the weight total.
pub struct Taps {
    pub lo: i64,
    pub w: Vec<i64>,
    pub sum: i128,
    pub chalf: u64,
}

impl Taps {
    /// The window matches the spec-level window of output `o` for a pass
    /// from `sl` to `dl` samples with filter `f`.
    pub open spec fn wf(&self, f: FilterKind, o: int, sl: int, dl: int) -> bool {
        &&& self.lo == spec_tap_lo(f, o, sl, dl)
        &&& self.w@.len() == spec_ntaps(f, o, sl, dl)
        &&& forall|j: int|
            0 <= j < self.w@.len() ==> self.w@[j] == spec_weight(f, o, sl, dl, self.lo + j)
        &&& forall|j: int| 0 <= j < self.w@.len() ==> -131072 <= #[trigger] self.w@[j] <= 131072
        &&& self.sum == spec_wtotal(f, o, sl, dl)
        &&& -39614081257132168796771975168 <= self.sum <= 39614081257132168796771975168
        &&& self.chalf == spec_chalf_fp(o, sl, dl)
        &&& self.chalf <= 281474976710656
        &&& -34359738370 <= self.lo
        &&& self.lo + self.w@.len() <= 34359738371
    }
}

/// Builds the sampling window of output coordinate `o`.
pub fn make_taps(f: FilterKind, o: u64, sl: u64, dl: u64) -> (t: Taps)
    requires
        1 <= sl <= 4294967295,
        1 <= dl <= 4294967295,
        o < dl,
    ensures
        t.wf(f, o as int, sl as int, dl as int),
{
    let ghost oi = o as int;
    let ghost sli = sl as int;
    let ghost dli = dl as int;
    // center + 0.5 in fixed point
    proof {
        assert((2 * oi + 1) * sli <= 8589934591int * 4294967295) by (nonlinear_arith)
            requires 0 <= oi <= 4294967294, 1 <= sli <= 4294967295;
    }
    let cnum: u128 = (2 * (o as u128) + 1) * (sl as u128) * 65536;
    proof {
        assert((2 * oi + 1) * sli * 65536 < (2 * dli) * (sli * 65536)) by (nonlinear_arith)
            requires 0 <= oi < dli, 1 <= sli;
        lemma_multiply_divide_lt((2 * oi + 1) * sli * 65536, 2 * dli, sli * 65536);
        lemma_div_nonneg((2 * oi + 1) * sli * 65536, 2 * dli);
        assert(sli * 65536 <= 281474976710656) by (nonlinear_arith)
            requires sli <= 4294967295;
    }
    let chalf: u64 = (cnum / (2 * (dl as u128))) as u64;
    let rad: u64 = radius_fp(f);
    let rwin: u64 = if dl < sl {
        proof {
            assert(spec_radius_fp(f) * sli <= 196608 * 4294967295) by (nonlinear_arith)
                requires spec_radius_fp(f) <= 196608, sli <= 4294967295;
            lemma_div_nonneg(spec_radius_fp(f) * sli + dli - 1, dli);
        }
        (rad * sl + dl - 1) / dl
    } else {
        rad
    };
    let su: u64 = rwin / 65536 + 2;
    proof {
        lemma_fundamental_div_mod(rwin as int, 65536);
        lemma_div_nonneg(rwin as int, 65536);
    }
    // shifted numerator for the lower bound, kept nonnegative
    let tnum: u64 = chalf + su * 65536 - 32768 - rwin;
    let lo: i64 = ((tnum + 65535) / 65536) as i64 - su as i64;
    let hi: i64 = ((chalf + rwin + 32768) / 65536) as i64 - 1;
    proof {
        lemma_div_nonneg(tnum as int + 65535, 65536);
        lemma_div_is_ordered(tnum as int + 65535, 2251799813685248, 65536);
        lemma_div_nonneg(chalf as int + rwin as int + 32768, 65536);
        lemma_div_is_ordered(chalf as int + rwin as int + 32768, 2251799813685248, 65536);
    }
    let mut w: Vec<i64> = Vec::new();
    let mut sum: i128 = 0;
    let mut s: i64 = lo;
    proof {
        assert(spec_ntaps(f, oi, sli, dli) == if hi >= lo {
            (hi - lo + 1) as nat
        } else {
            0nat
        });
    }
    while s <= hi
        invariant
            oi == o as int,
            sli == sl as int,
            dli == dl as int,
            lo == spec_tap_lo(f, oi, sli, dli),
            hi == spec_tap_hi(f, oi, sli, dli),
            lo <= s,
            s <= hi + 1,
            chalf == spec_chalf_fp(oi, sli, dli),
            chalf <= 281474976710656,
            rwin == spec_rwin_fp(f, sli, dli),
            rwin <= 845524699217920,
            1 <= sli <= 4294967295,
            1 <= dli <= 4294967295,
            dli < sli ==> rwin == (spec_radius_fp(f) * sli + dli - 1) / dli,
            -34359738370 <= lo <= 34359738370,
            -34359738370 <= hi <= 34359738370,
            w@.len() == s - lo,
            forall|j: int| 0 <= j < w@.len() ==> w@[j] == spec_weight(f, oi, sli, dli, lo + j),
            forall|j: int| 0 <= j < w@.len() ==> -131072 <= #[trigger] w@[j] <= 131072,
            sum == spec_wsum(f, oi, sli, dli, (s - lo) as nat),
            -131072 * (s - lo) <= sum <= 131072 * (s - lo),
        decreases hi + 1 - s,
    {
        let a: i128 = (s as i128) * 65536 + 32768 - (chalf as i128);
        let dist: u64 = if a >= 0 {
            a as u64
        } else {
            (-a) as u64
        };
        proof {
            assert(dist == spec_dist_fp(oi, sli, dli, s as int));
        }
        let xa: u64 = if dl < sl {
            proof {
                assert((dist as int) * dli <= 4503599627370496int * 4294967295) by (nonlinear_arith)
                    requires 0 <= dist as int <= 4503599627370496, 0 <= dli <= 4294967295;
                assert((dist as int) * dli <= (dist as int) * sli) by (nonlinear_arith)
                    requires dli <= sli, 0 <= dist as int;
                lemma_div_is_ordered((dist as int) * dli, (dist as int) * sli, sli);
                lemma_div_multiples_vanish(dist as int, sli);
                assert(sli * (dist as int) == (dist as int) * sli) by (nonlinear_arith);
                lemma_div_nonneg((dist as int) * dli, sli);
            }
            (((dist as u128) * (dl as u128)) / (sl as u128)) as u64
        } else {
            dist
        };
        let wr: i64 = kernel_fp(f, xa);
        let wc: i64 = if wr > 131072 {
            131072
        } else if wr < -131072 {
            -131072
        } else {
            wr
        };
        proof {
            assert(wc == spec_weight(f, oi, sli, dli, s as int));
        }
        w.push(wc);
        sum = sum + wc as i128;
        s = s + 1;
        proof {
            assert(sum == spec_wsum(f, oi, sli, dli, (s - lo) as nat));
        }
    }
    proof {
        if hi >= lo {
            assert(w@.len() == spec_ntaps(f, oi, sli, dli));
        } else {
            assert(w@.len() == 0);
        }
        assert(131072 * (s - lo) <= 39614081257132168796771975168) by (nonlinear_arith)
            requires s - lo <= 68719476741;
    }
    Taps { lo, w, sum, chalf }
}

} // verus!
