//! Engine-wide laws, stated and proved over the resampling model.

use vstd::prelude::*;
use vstd::arithmetic::div_mod::lemma_div_denominator;
use vstd::arithmetic::div_mod::lemma_div_multiples_vanish;
use vstd::arithmetic::div_mod::lemma_div_pos_is_pos;
use vstd::arithmetic::div_mod::lemma_fundamental_div_mod;
use vstd::arithmetic::div_mod::lemma_fundamental_div_mod_converse;
use vstd::arithmetic::div_mod::lemma_mod_division_less_than_divisor;
use vstd::arithmetic::div_mod::lemma_multiply_divide_lt;
use crate::conv::clamp_idx;
use crate::conv::spec_center_idx;
use crate::conv::spec_chalf_fp;
use crate::conv::spec_conv_sum;
use crate::conv::spec_ntaps;
use crate::conv::spec_tap_hi;
use crate::conv::spec_tap_lo;
use crate::conv::spec_weight;
use crate::conv::spec_wsum;
use crate::conv::spec_wtotal;
use crate::engine::lemma_idx_bound;
use crate::engine::spec_hgrid;
use crate::engine::spec_hline;
use crate::engine::spec_hval;
use crate::engine::spec_nearest_map;
use crate::engine::spec_resize;
use crate::engine::spec_vline;
use crate::filter::FilterKind;

verus! {

/// The channel byte a uniform image holds at flat offset `j`.
pub open spec fn spec_channel_sel(c0: u8, c1: u8, c2: u8, c3: u8, ch: int) -> u8 {
    if ch == 0 {
        c0
    } else if ch == 1 {
        c1
    } else if ch == 2 {
        c2
    } else {
        c3
    }
}

/// Every byte of a resampled buffer lies in `[0, 255]`; the absence of
/// wraparound in the arithmetic that produces them is checked by the
/// verifier on the executable passes themselves.
pub proof fn lemma_output_bytes_in_range(
    src: Seq<u8>,
    sw: int,
    sh: int,
    dw: int,
    dh: int,
    f: FilterKind,
)
    ensures
        forall|i: int|
            0 <= i < dw * dh * 4 ==> 0 <= #[trigger] spec_resize(src, sw, sh, dw, dh, f)[i] <= 255,
{
}

/// Nearest-neighbor resampling of a uniform image to any size, larger in
/// both axes, is the same uniform image: every destination pixel copies
/// some source pixel, so no blending artifact can appear.
pub proof fn lemma_nearest_uniform_upscale(
    src: Seq<u8>,
    sw: int,
    sh: int,
    dw: int,
    dh: int,
    c0: u8,
    c1: u8,
    c2: u8,
    c3: u8,
)
    requires
        1 <= sw,
        1 <= sh,
        sw <= dw,
        sh <= dh,
        src.len() == sw * sh * 4,
        forall|j: int| 0 <= j < src.len() ==> src[j] == spec_channel_sel(c0, c1, c2, c3, j % 4),
    ensures
        forall|i: int|
            0 <= i < dw * dh * 4 ==> #[trigger] spec_resize(src, sw, sh, dw, dh, FilterKind::Nearest)[i]
                == spec_channel_sel(c0, c1, c2, c3, i % 4),
{
    let out = spec_resize(src, sw, sh, dw, dh, FilterKind::Nearest);
    assert forall|i: int| 0 <= i < dw * dh * 4 implies #[trigger] out[i] == spec_channel_sel(
        c0,
        c1,
        c2,
        c3,
        i % 4,
    ) by {
        let y = i / (4 * dw);
        let x = (i / 4) % dw;
        let ch = i % 4;
        lemma_mod_division_less_than_divisor(i, 4);
        lemma_mod_division_less_than_divisor(i / 4, dw);
        lemma_div_pos_is_pos(i, 4 * dw);
        assert((4 * dw) * dh == dw * dh * 4) by (nonlinear_arith);
        lemma_multiply_divide_lt(i, 4 * dw, dh);
        let my = spec_nearest_map(y, sh, dh);
        let mx = spec_nearest_map(x, sw, dw);
        assert(0 <= my < sh);
        assert(0 <= mx < sw);
        let p = my * sw + mx;
        assert(0 <= p && p * 4 + ch < sw * sh * 4) by (nonlinear_arith)
            requires 0 <= my < sh, 0 <= mx < sw, 0 <= ch < 4, p == my * sw + mx;
        assert(out[i] == src[p * 4 + ch]);
        lemma_fundamental_div_mod_converse(p * 4 + ch, 4, p, ch);
        assert(src[p * 4 + ch] == spec_channel_sel(c0, c1, c2, c3, ch));
    }
}

/// At identity scale the window of output `o` gives weight one to sample
/// `o` and weight zero to every other sample, for every kernel that
/// vanishes at whole-pixel distances.
proof fn lemma_identity_axis(f: FilterKind, o: int, n: int)
    requires
        1 <= n,
        0 <= o < n,
        f != FilterKind::Mitchell,
    ensures
        spec_wtotal(f, o, n, n) == 65536,
        forall|line: Seq<int>|
            #[trigger] spec_conv_sum(line, f, o, n, n, spec_ntaps(f, o, n, n))
                == 65536 * line[clamp_idx(o, n)],
        spec_center_idx(o, n, n) == o,
{
    assert((2 * o + 1) * n * 65536 == (2 * n) * ((2 * o + 1) * 32768)) by (nonlinear_arith);
    lemma_div_multiples_vanish((2 * o + 1) * 32768, 2 * n);
    assert(spec_chalf_fp(o, n, n) == o * 65536 + 32768);
    assert((o * 65536 + 32768) / 65536 == o) by {
        lemma_fundamental_div_mod_converse(o * 65536 + 32768, 65536, o, 32768);
    }
    assert(spec_center_idx(o, n, n) == o);
    let lo = spec_tap_lo(f, o, n, n);
    let hi = spec_tap_hi(f, o, n, n);
    let rad: int = if f == FilterKind::Lanczos3 {
        196608
    } else if f == FilterKind::CatmullRom {
        131072
    } else {
        32768
    };
    let su: int = rad / 65536 + 2;
    let halfw: int = rad / 65536;
    assert(lo == o - halfw && hi == o + halfw) by {
        let t = o * 65536 + 32768 + su * 65536 - 32768 - rad;
        lemma_fundamental_div_mod_converse(t + 65535, 65536, o + su - halfw, 65535 - (rad - halfw
            * 65536));
        lemma_fundamental_div_mod_converse(
            o * 65536 + 32768 + rad + 32768,
            65536,
            o + 1 + halfw,
            rad - halfw * 65536,
        );
    }
    assert(spec_ntaps(f, o, n, n) == 2 * halfw + 1);
    lemma_kernel_units();
    assert(spec_weight(f, o, n, n, o) == 65536);
    assert forall|line: Seq<int>| #[trigger] spec_conv_sum(line, f, o, n, n, spec_ntaps(f, o, n, n))
        == 65536 * line[clamp_idx(o, n)] by {
        lemma_identity_sum(line, f, o, n, halfw);
    }
    lemma_identity_sum(Seq::<int>::empty().push(1), f, o, n, halfw);
    assert(spec_wtotal(f, o, n, n) == 65536);
}


/// The fixed-point kernels are exactly one at distance zero and exactly
/// zero at whole-pixel distances (Mitchell excepted); each literal
/// division is pinned by the fundamental division lemma.
proof fn lemma_kernel_units()
    ensures
        crate::kernel::spec_kernel_fp(FilterKind::Nearest, 0) == 65536,
        crate::kernel::spec_kernel_fp(FilterKind::Bilinear, 0) == 65536,
        crate::kernel::spec_kernel_fp(FilterKind::CatmullRom, 0) == 65536,
        crate::kernel::spec_kernel_fp(FilterKind::Lanczos3, 0) == 65536,
        crate::kernel::spec_kernel_fp(FilterKind::CatmullRom, 65536) == 0,
        crate::kernel::spec_kernel_fp(FilterKind::Lanczos3, 65536) == 0,
        crate::kernel::spec_kernel_fp(FilterKind::Lanczos3, 131072) == 0,
{
    lemma_fundamental_div_mod_converse(0, 65536, 0, 0);
    lemma_fundamental_div_mod_converse(0, 6, 0, 0);
    lemma_fundamental_div_mod_converse(0, 120, 0, 0);
    lemma_fundamental_div_mod_converse(0, 5040, 0, 0);
    lemma_fundamental_div_mod_converse(0, 2, 0, 0);
    lemma_fundamental_div_mod_converse(393216, 6, 65536, 0);
    lemma_fundamental_div_mod_converse(65536int * 65536, 65536, 65536, 0);
    assert(crate::kernel::spec_x2(0) == 0);
    assert(crate::kernel::spec_x3(0) == 0);
    assert(crate::kernel::spec_x2(65536) == 65536);
    assert(crate::kernel::spec_x3(65536) == 65536);
    assert(crate::kernel::spec_kernel_fp(FilterKind::CatmullRom, 0) == 65536);
    assert(crate::kernel::spec_kernel_fp(FilterKind::CatmullRom, 65536) == 0);
    assert(crate::kernel::spec_sin_half_fp(0) == 0) by {
        lemma_fundamental_div_mod_converse(0, 65536, 0, 0);
    }
    lemma_fundamental_div_mod_converse(65536, 65536, 1, 0);
    lemma_fundamental_div_mod_converse(1, 2, 0, 1);
    assert(crate::kernel::spec_sin_pi_fp(65536) == 0);
    lemma_fundamental_div_mod_converse(131072, 65536, 2, 0);
    lemma_fundamental_div_mod_converse(2, 2, 1, 0);
    assert(crate::kernel::spec_sin_pi_fp(131072) == 0);
    assert(crate::kernel::spec_lanczos3_fp(65536) == 0) by {
        assert(3 * crate::kernel::spec_sin_pi_fp(65536) * crate::kernel::spec_sin_pi_fp(65536int / 3)
            * 4294967296 == 0);
        lemma_fundamental_div_mod_converse(0, 646814int * 65536 * 65536, 0, 0);
    }
    assert(crate::kernel::spec_lanczos3_fp(131072) == 0) by {
        assert(3 * crate::kernel::spec_sin_pi_fp(131072) * crate::kernel::spec_sin_pi_fp(
            131072int / 3,
        ) * 4294967296 == 0);
        lemma_fundamental_div_mod_converse(0, 646814int * 131072 * 131072, 0, 0);
    }
}

/// A window whose only nonzero weight is 65536 at sample `o` sums to
/// 65536 and convolves any line to 65536 times its sample at `o`.
proof fn lemma_single_tap_sum(line: Seq<int>, f: FilterKind, o: int, n: int, lo: int, k: nat)
    requires
        1 <= n,
        0 <= o < n,
        spec_tap_lo(f, o, n, n) == lo,
        forall|s: int|
            lo <= s < lo + k ==> #[trigger] spec_weight(f, o, n, n, s) == (if s == o {
                65536int
            } else {
                0int
            }),
    ensures
        spec_conv_sum(line, f, o, n, n, k) == (if lo <= o < lo + k {
            65536 * line[clamp_idx(o, n)]
        } else {
            0int
        }),
        spec_wsum(f, o, n, n, k) == (if lo <= o < lo + k {
            65536int
        } else {
            0int
        }),
    decreases k,
{
    if k > 0 {
        lemma_single_tap_sum(line, f, o, n, lo, (k - 1) as nat);
        let s = lo + k - 1;
        assert(spec_weight(f, o, n, n, s) == (if s == o {
            65536int
        } else {
            0int
        }));
        if s != o {
            assert(spec_weight(f, o, n, n, s) * line[clamp_idx(s, n)] == 0);
        } else {
            assert(clamp_idx(o, n) == o);
        }
    }
}

/// At identity scale only the center tap of the window is nonzero.
proof fn lemma_identity_sum(line: Seq<int>, f: FilterKind, o: int, n: int, halfw: int)
    requires
        1 <= n,
        0 <= o < n,
        f != FilterKind::Mitchell,
        spec_chalf_fp(o, n, n) == o * 65536 + 32768,
        spec_tap_lo(f, o, n, n) == o - halfw,
        spec_ntaps(f, o, n, n) == 2 * halfw + 1,
        halfw == if f == FilterKind::Lanczos3 {
            3int
        } else if f == FilterKind::CatmullRom {
            2int
        } else {
            0int
        },
    ensures
        spec_conv_sum(line, f, o, n, n, spec_ntaps(f, o, n, n)) == 65536 * line[clamp_idx(o, n)],
        spec_wsum(f, o, n, n, spec_ntaps(f, o, n, n)) == 65536,
{
    lemma_kernel_units();
    assert forall|s: int| o - halfw <= s < o + halfw + 1 implies #[trigger] spec_weight(
        f,
        o,
        n,
        n,
        s,
    ) == (if s == o {
        65536int
    } else {
        0int
    }) by {
        let d = if s >= o {
            (s - o) * 65536
        } else {
            (o - s) * 65536
        };
        assert(crate::conv::spec_dist_fp(o, n, n, s) == d);
        if s != o {
            assert(crate::kernel::spec_kernel_fp(f, d) == 0);
        }
    }
    lemma_single_tap_sum(line, f, o, n, o - halfw, (2 * halfw + 1) as nat);
}

/// Resampling an image to its own dimensions returns it unchanged, for
/// every filter whose kernel vanishes at whole-pixel distances (all but
/// Mitchell, whose cubic bleeds 1/18 of each neighbor into every output
/// pixel even at identity scale).
pub proof fn lemma_identity_resize(src: Seq<u8>, sw: int, sh: int, f: FilterKind)
    requires
        1 <= sw,
        1 <= sh,
        src.len() == sw * sh * 4,
        f != FilterKind::Mitchell,
    ensures
        spec_resize(src, sw, sh, sw, sh, f) == src,
{
    let out = spec_resize(src, sw, sh, sw, sh, f);
    assert(out.len() == src.len());
    assert forall|i: int| 0 <= i < src.len() implies out[i] == src[i] by {
        let y = i / (4 * sw);
        let x = (i / 4) % sw;
        let ch = i % 4;
        lemma_mod_division_less_than_divisor(i, 4);
        lemma_mod_division_less_than_divisor(i / 4, sw);
        lemma_div_pos_is_pos(i, 4 * sw);
        assert((4 * sw) * sh == sw * sh * 4) by (nonlinear_arith);
        lemma_multiply_divide_lt(i, 4 * sw, sh);
        assert(i == 4 * (i / 4) + i % 4) by {
            lemma_fundamental_div_mod(i, 4);
        }
        assert(i / 4 == sw * ((i / 4) / sw) + (i / 4) % sw) by {
            lemma_fundamental_div_mod(i / 4, sw);
        }
        assert((i / 4) / sw == y) by {
            lemma_div_denominator(i, 4, sw);
        }
        assert(i == 4 * (sw * y + x) + ch);
        assert((y * sw + x) * 4 + ch == 4 * (sw * y + x) + ch) by (nonlinear_arith);
        assert(i == (y * sw + x) * 4 + ch);
        if f == FilterKind::Nearest {
            lemma_identity_nearest_map(y, sh);
            lemma_identity_nearest_map(x, sw);
            assert(out[i] == src[(y * sw + x) * 4 + ch]);
        } else {
            lemma_identity_axis(f, x, sw);
            lemma_identity_axis(f, y, sh);
            let g = spec_hgrid(src, sw, sh, sw, f);
            lemma_identity_hval(src, sw, sh, f, x, y, ch);
            let line = spec_vline(g, sw, x, ch, sh);
            assert forall|s: int| 0 <= s < sh implies #[trigger] line[s] == src[(s * sw + x) * 4
                + ch] * 65536 by {
                lemma_idx_bound(s, x, sw, sh, ch);
                crate::engine::lemma_idx_decompose(s, x, sw, ch);
                lemma_identity_hval(src, sw, sh, f, x, s, ch);
            }
            let v = src[(y * sw + x) * 4 + ch] as int;
            lemma_idx_bound(y, x, sw, sh, ch);
            assert(line[y] == v * 65536);
            assert(spec_conv_sum(line, f, y, sh, sh, spec_ntaps(f, y, sh, sh)) == 65536 * (v
                * 65536));
            let acc = 65536 * (v * 65536);
            if acc <= 0 {
                assert(v == 0) by (nonlinear_arith)
                    requires 65536 * (v * 65536) <= 0, 0 <= v;
                assert(out[i] == 0);
            } else {
                let sum: int = 65536;
                let q = (2 * acc + sum * 65536) / (2 * (sum * 65536));
                assert(2 * acc + 65536 * 65536 == (2 * v + 1) * (65536int * 65536))
                    by (nonlinear_arith)
                    requires acc == 65536 * (v * 65536);
                assert((2 * v + 1) * (65536int * 65536) == v * (2 * (65536int * 65536)) + 65536int
                    * 65536) by (nonlinear_arith);
                assert(q == v) by {
                    lemma_fundamental_div_mod_converse(
                        (2 * v + 1) * (65536int * 65536),
                        2 * (65536int * 65536),
                        v,
                        65536int * 65536,
                    );
                }
                assert(out[i] == src[i]);
            }
        }
    }
    assert(out =~= src);
}

/// At identity scale the nearest-neighbor map is the identity.
proof fn lemma_identity_nearest_map(o: int, n: int)
    requires
        1 <= n,
        0 <= o < n,
    ensures
        spec_nearest_map(o, n, n) == o,
{
    assert(2 * o * n + n == o * (2 * n) + n) by (nonlinear_arith);
    lemma_fundamental_div_mod_converse(2 * o * n + n, 2 * n, o, n);
}

/// At identity scale the horizontal pass reproduces each source sample in
/// fixed point.
proof fn lemma_identity_hval(src: Seq<u8>, sw: int, sh: int, f: FilterKind, x: int, y: int, ch: int)
    requires
        1 <= sw,
        1 <= sh,
        src.len() == sw * sh * 4,
        f != FilterKind::Mitchell,
        f != FilterKind::Nearest,
        0 <= x < sw,
        0 <= y < sh,
        0 <= ch < 4,
    ensures
        spec_hval(src, sw, sw, f, x, y, ch) == src[(y * sw + x) * 4 + ch] * 65536,
{
    lemma_identity_axis(f, x, sw);
    let line = spec_hline(src, sw, y, ch);
    lemma_idx_bound(y, x, sw, sh, ch);
    let v = src[(y * sw + x) * 4 + ch] as int;
    assert(line[x] == v);
    assert(spec_conv_sum(line, f, x, sw, sw, spec_ntaps(f, x, sw, sw)) == 65536 * v);
    if 65536 * v <= 0 {
        assert(v == 0) by (nonlinear_arith)
            requires 65536 * v <= 0, 0 <= v;
    } else {
        assert((65536 * v * 65536) / 65536 == v * 65536) by {
            assert(65536 * v * 65536 == 65536 * (v * 65536)) by (nonlinear_arith);
            lemma_div_multiples_vanish(v * 65536, 65536);
        }
        assert(v * 65536 <= 16711680);
    }
}

} // verus!
