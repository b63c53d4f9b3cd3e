//! The resampling engine: separable two-pass convolution and the
//! nearest-neighbor path over row-major RGBA buffers.
//!
//! A convolution resize runs a horizontal pass producing an intermediate
//! `dst_width x src_height` grid of fixed-point channel values, then a
//! vertical pass producing the final bytes. Each of the 4 channels is
//! resampled identically and independently. Weights are normalized by
//! their sum when the value is applied, and every result is clamped to
//! `[0, 255]` before the final rounding, so no partial or out-of-range
//! value is ever produced.

use vstd::prelude::*;
use vstd::arithmetic::div_mod::lemma_fundamental_div_mod_converse;
use crate::conv::Taps;
use crate::conv::clamp_idx;
use crate::conv::make_taps;
use crate::conv::spec_center_idx;
use crate::conv::spec_conv_sum;
use crate::conv::spec_ntaps;
use crate::conv::spec_wtotal;
use vstd::slice::slice_to_vec;
use vstd::string::StringSliceAdditionalSpecFns;
use crate::filter::FilterKind;
use crate::filter::parse_filter;
use crate::filter::spec_parse_filter;
use crate::raster::Raster;
use crate::raster::ResizeError;

verus! {

/// One source scanline of one channel, as mathematical integers: sample
/// `s` of row `y`.
pub open spec fn spec_hline(src: Seq<u8>, sw: int, y: int, ch: int) -> Seq<int> {
    Seq::new(sw as nat, |s: int| src[(y * sw + s) * 4 + ch] as int)
}

/// The intermediate fixed-point value of channel `ch` at destination
/// column `x` of source row `y`: the normalized horizontal convolution,
/// clamped to `[0, 255]` in fixed point. A window whose weights cancel
/// falls back to the sample nearest the center.
pub open spec fn spec_hval(
    src: Seq<u8>,
    sw: int,
    dw: int,
    f: FilterKind,
    x: int,
    y: int,
    ch: int,
) -> int {
    let line = spec_hline(src, sw, y, ch);
    let sum = spec_wtotal(f, x, sw, dw);
    if sum <= 0 {
        line[spec_center_idx(x, sw, dw)] * 65536
    } else {
        let acc = spec_conv_sum(line, f, x, sw, dw, spec_ntaps(f, x, sw, dw));
        if acc <= 0 {
            0
        } else if (acc * 65536) / sum > 16711680 {
            16711680
        } else {
            (acc * 65536) / sum
        }
    }
}

/// The whole intermediate grid, row-major with `src_height` rows of
/// `dst_width` pixels.
pub open spec fn spec_hgrid(src: Seq<u8>, sw: int, sh: int, dw: int, f: FilterKind) -> Seq<int> {
    Seq::new((sh * dw * 4) as nat, |i: int| spec_hval(src, sw, dw, f, (i / 4) % dw, i / (4 * dw), i % 4))
}

/// One intermediate column of one channel: sample `s` of column `x`.
pub open spec fn spec_vline(h: Seq<int>, dw: int, x: int, ch: int, sh: int) -> Seq<int> {
    Seq::new(sh as nat, |s: int| h[(s * dw + x) * 4 + ch])
}

/// Round a clamped fixed-point channel value to a byte (half away from
/// zero).
pub open spec fn spec_round_byte(v: int) -> u8 {
    let q = (v + 32768) / 65536;
    if q > 255 {
        255 as u8
    } else {
        q as u8
    }
}

/// The final byte of channel `ch` at destination `(x, y)`: the normalized
/// vertical convolution over intermediate values, rounded once at the
/// end and clamped to `[0, 255]`.
pub open spec fn spec_vout(
    h: Seq<int>,
    dw: int,
    sh: int,
    dh: int,
    f: FilterKind,
    x: int,
    y: int,
    ch: int,
) -> u8 {
    let line = spec_vline(h, dw, x, ch, sh);
    let sum = spec_wtotal(f, y, sh, dh);
    if sum <= 0 {
        spec_round_byte(line[spec_center_idx(y, sh, dh)])
    } else {
        let acc = spec_conv_sum(line, f, y, sh, dh, spec_ntaps(f, y, sh, dh));
        if acc <= 0 {
            0 as u8
        } else {
            let q = (2 * acc + sum * 65536) / (2 * (sum * 65536));
            if q > 255 {
                255 as u8
            } else {
                q as u8
            }
        }
    }
}

/// Nearest-neighbor source coordinate for output coordinate `o`:
/// `floor(o * sl / dl + 0.5)`, clamped into range.
pub open spec fn spec_nearest_map(o: int, sl: int, dl: int) -> int {
    clamp_idx((2 * o * sl + dl) / (2 * dl), sl)
}

/// The full resampled buffer: `dst_width * dst_height * 4` bytes,
/// row-major. Nearest-neighbor copies source bytes; every other filter is
/// the separable convolution of the two passes.
pub open spec fn spec_resize(
    src: Seq<u8>,
    sw: int,
    sh: int,
    dw: int,
    dh: int,
    f: FilterKind,
) -> Seq<u8> {
    Seq::new(
        (dw * dh * 4) as nat,
        |i: int|
            if f == FilterKind::Nearest {
                src[(spec_nearest_map(i / (4 * dw), sh, dh) * sw + spec_nearest_map(
                    (i / 4) % dw,
                    sw,
                    dw,
                )) * 4 + i % 4]
            } else {
                spec_vout(
                    spec_hgrid(src, sw, sh, dw, f),
                    dw,
                    sh,
                    dh,
                    f,
                    (i / 4) % dw,
                    i / (4 * dw),
                    i % 4,
                )
            },
    )
}

/// A `Vec<i64>` as a sequence of mathematical integers.
pub open spec fn seq_int(s: Seq<i64>) -> Seq<int> {
    Seq::new(s.len(), |i: int| s[i] as int)
}

/// Row-major index arithmetic: the flat index of channel `ch` of column
/// `col` in row `row` decomposes back into its parts.
pub proof fn lemma_idx_decompose(row: int, col: int, w: int, ch: int)
    requires
        0 <= row,
        0 <= col < w,
        0 <= ch < 4,
    ensures
        ((row * w + col) * 4 + ch) / 4 == row * w + col,
        ((row * w + col) * 4 + ch) % 4 == ch,
        (row * w + col) % w == col,
        (row * w + col) / w == row,
        ((row * w + col) * 4 + ch) / (4 * w) == row,
{
    let i = (row * w + col) * 4 + ch;
    assert(i == (row * w + col) * 4 + ch);
    lemma_fundamental_div_mod_converse(i, 4, row * w + col, ch);
    lemma_fundamental_div_mod_converse(row * w + col, w, row, col);
    assert((row * w + col) * 4 + ch == row * (4 * w) + (col * 4 + ch)) by (nonlinear_arith);
    assert(0 <= col * 4 + ch < 4 * w) by (nonlinear_arith)
        requires 0 <= col < w, 0 <= ch < 4;
    lemma_fundamental_div_mod_converse(i, 4 * w, row, col * 4 + ch);
}

/// Row-major indices stay inside a `h x w` grid of pixels.
pub proof fn lemma_idx_bound(row: int, col: int, w: int, h: int, ch: int)
    requires
        0 <= row < h,
        0 <= col < w,
        0 <= ch < 4,
    ensures
        0 <= (row * w + col) * 4 + ch,
        (row * w + col) * 4 + ch < h * w * 4,
        (row * w + col) * 4 + ch < w * h * 4,
{
    assert((row * w + col) * 4 + ch < h * w * 4 && 0 <= (row * w + col) * 4 + ch) by (nonlinear_arith)
        requires 0 <= row < h, 0 <= col < w, 0 <= ch < 4;
    assert(h * w * 4 == w * h * 4) by (nonlinear_arith);
}

/// Horizontal pass: resamples every source row from `sw` to `dw` columns,
/// producing the intermediate fixed-point grid.
pub fn hpass(src: &Vec<u8>, sw: u64, sh: u64, dw: u64, f: FilterKind) -> (h: Vec<i64>)
    requires
        1 <= sw <= 4294967295,
        1 <= sh <= 4294967295,
        1 <= dw <= 4294967295,
        src@.len() == sw * sh * 4,
        sh * dw * 4 <= usize::MAX,
    ensures
        h@.len() == sh * dw * 4,
        forall|i: int|
            0 <= i < h@.len() ==> h@[i] == spec_hgrid(src@, sw as int, sh as int, dw as int, f)[i],
        forall|i: int| 0 <= i < h@.len() ==> 0 <= #[trigger] h@[i] <= 16711680,
{
    let ghost swi = sw as int;
    let ghost shi = sh as int;
    let ghost dwi = dw as int;
    let ghost grid = spec_hgrid(src@, swi, shi, dwi, f);
    let mut tables: Vec<Taps> = Vec::new();
    let mut x: u64 = 0;
    while x < dw
        invariant
            swi == sw as int,
            dwi == dw as int,
            1 <= sw <= 4294967295,
            1 <= dw <= 4294967295,
            x <= dw,
            tables@.len() == x,
            forall|j: int| 0 <= j < x ==> (#[trigger] tables@[j]).wf(f, j, swi, dwi),
        decreases dw - x,
    {
        tables.push(make_taps(f, x, sw, dw));
        x = x + 1;
    }
    let mut h: Vec<i64> = Vec::new();
    let mut y: u64 = 0;
    while y < sh
        invariant
            swi == sw as int,
            shi == sh as int,
            dwi == dw as int,
            grid == spec_hgrid(src@, swi, shi, dwi, f),
            1 <= sw <= 4294967295,
            1 <= sh <= 4294967295,
            1 <= dw <= 4294967295,
            src@.len() == sw * sh * 4,
            sh * dw * 4 <= usize::MAX,
            tables@.len() == dw,
            forall|j: int| 0 <= j < dw ==> (#[trigger] tables@[j]).wf(f, j, swi, dwi),
            y <= sh,
            h@.len() == y * (dw * 4),
            forall|i: int| 0 <= i < h@.len() ==> h@[i] == grid[i],
            forall|i: int| 0 <= i < h@.len() ==> 0 <= #[trigger] h@[i] <= 16711680,
        decreases sh - y,
    {
        let mut x2: u64 = 0;
        while x2 < dw
            invariant
                swi == sw as int,
                shi == sh as int,
                dwi == dw as int,
                grid == spec_hgrid(src@, swi, shi, dwi, f),
                1 <= sw <= 4294967295,
                1 <= sh <= 4294967295,
                1 <= dw <= 4294967295,
                src@.len() == sw * sh * 4,
                sh * dw * 4 <= usize::MAX,
                tables@.len() == dw,
                forall|j: int| 0 <= j < dw ==> (#[trigger] tables@[j]).wf(f, j, swi, dwi),
                y < sh,
                x2 <= dw,
                h@.len() == y * (dw * 4) + x2 * 4,
                forall|i: int| 0 <= i < h@.len() ==> h@[i] == grid[i],
                forall|i: int| 0 <= i < h@.len() ==> 0 <= #[trigger] h@[i] <= 16711680,
            decreases dw - x2,
        {
            let mut ch: u64 = 0;
            while ch < 4
                invariant
                    swi == sw as int,
                    shi == sh as int,
                    dwi == dw as int,
                    grid == spec_hgrid(src@, swi, shi, dwi, f),
                    1 <= sw <= 4294967295,
                    1 <= sh <= 4294967295,
                    1 <= dw <= 4294967295,
                    src@.len() == sw * sh * 4,
                    sh * dw * 4 <= usize::MAX,
                    tables@.len() == dw,
                    forall|j: int| 0 <= j < dw ==> (#[trigger] tables@[j]).wf(f, j, swi, dwi),
                    y < sh,
                    x2 < dw,
                    ch <= 4,
                    h@.len() == y * (dw * 4) + x2 * 4 + ch,
                    forall|i: int| 0 <= i < h@.len() ==> h@[i] == grid[i],
                    forall|i: int| 0 <= i < h@.len() ==> 0 <= #[trigger] h@[i] <= 16711680,
                decreases 4 - ch,
            {
                let ghost line = spec_hline(src@, swi, y as int, ch as int);
                let t: &Taps = &tables[x2 as usize];
                let n: usize = t.w.len();
                let mut acc: i128 = 0;
                let mut j: usize = 0;
                while j < n
                    invariant
                        swi == sw as int,
                        shi == sh as int,
                        dwi == dw as int,
                        line == spec_hline(src@, swi, y as int, ch as int),
                        1 <= sw <= 4294967295,
                        1 <= sh <= 4294967295,
                        1 <= dw <= 4294967295,
                        src@.len() == sw * sh * 4,
                        y < sh,
                        x2 < dw,
                        ch < 4,
                        t.wf(f, x2 as int, swi, dwi),
                        n == t.w@.len(),
                        j <= n,
                        acc == spec_conv_sum(line, f, x2 as int, swi, dwi, j as nat),
                        -33423360 * (j as i128) <= acc <= 33423360 * (j as i128),
                    decreases n - j,
                {
                    let s: i64 = t.lo + (j as i64);
                    let si: u64 = if s < 0 {
                        0
                    } else if s >= (sw as i64) {
                        sw - 1
                    } else {
                        s as u64
                    };
                    proof {
                        assert(si == clamp_idx(s as int, swi));
                        lemma_idx_bound(y as int, si as int, swi, shi, ch as int);
                    }
                    // the exec length pins the buffer length below the address-space bound
                    let _total: usize = src.len();
                    let idx128: u128 = ((y as u128) * (sw as u128) + (si as u128)) * 4 + (ch as u128);
                    proof {
                        assert(idx128 == (y as int * swi + si as int) * 4 + ch as int);
                    }
                    let idx: usize = idx128 as usize;
                    let p: u8 = src[idx];
                    proof {
                        assert(line[si as int] == p as int);
                    }
                    proof {
                        assert(-33423360 <= (t.w@[j as int] as int) * (p as int) <= 33423360)
                            by (nonlinear_arith)
                            requires
                                -131072 <= t.w@[j as int] as int <= 131072,
                                0 <= p as int <= 255;
                    }
                    acc = acc + (t.w[j] as i128) * (p as i128);
                    j = j + 1;
                }
                let sum: i128 = t.sum;
                let val: i64 = if sum <= 0 {
                    let c0: u64 = t.chalf / 65536;
                    let ci: u64 = if c0 >= sw {
                        sw - 1
                    } else {
                        c0
                    };
                    proof {
                        assert(ci == spec_center_idx(x2 as int, swi, dwi));
                        lemma_idx_bound(y as int, ci as int, swi, shi, ch as int);
                    }
                    let _total: usize = src.len();
                    let idx128: u128 = ((y as u128) * (sw as u128) + (ci as u128)) * 4 + (ch as u128);
                    proof {
                        assert(idx128 == (y as int * swi + ci as int) * 4 + ch as int);
                    }
                    let idx: usize = idx128 as usize;
                    (src[idx] as i64) * 65536
                } else if acc <= 0 {
                    0
                } else {
                    let q: u128 = ((acc as u128) * 65536) / (sum as u128);
                    if q > 16711680 {
                        16711680
                    } else {
                        q as i64
                    }
                };
                proof {
                    assert(val == spec_hval(src@, swi, dwi, f, x2 as int, y as int, ch as int));
                    assert(0 <= val <= 16711680);
                    lemma_idx_bound(y as int, x2 as int, dwi, shi, ch as int);
                    lemma_idx_decompose(y as int, x2 as int, dwi, ch as int);
                    assert(y as int * (dwi * 4) + x2 as int * 4 + ch as int == (y as int * dwi
                        + x2 as int) * 4 + ch as int) by (nonlinear_arith);
                    assert(grid[(y as int * dwi + x2 as int) * 4 + ch as int] == spec_hval(
                        src@,
                        swi,
                        dwi,
                        f,
                        x2 as int,
                        y as int,
                        ch as int,
                    ));
                }
                h.push(val);
                ch = ch + 1;
            }
            x2 = x2 + 1;
        }
        y = y + 1;
        proof {
            assert((y as int - 1) * (dwi * 4) + dwi * 4 == y as int * (dwi * 4)) by (nonlinear_arith);
        }
    }
    proof {
        assert(y as int * (dwi * 4) == shi * dwi * 4) by (nonlinear_arith)
            requires y as int == shi;
    }
    h
}

/// The final raster as a function of the intermediate grid.
pub open spec fn spec_vgrid(hs: Seq<int>, dw: int, sh: int, dh: int, f: FilterKind) -> Seq<u8> {
    Seq::new(
        (dw * dh * 4) as nat,
        |i: int| spec_vout(hs, dw, sh, dh, f, (i / 4) % dw, i / (4 * dw), i % 4),
    )
}

/// Vertical pass: resamples every intermediate column from `sh` to `dh`
/// rows, rounding each channel to a byte once at the end.
pub fn vpass(h: &Vec<i64>, dw: u64, sh: u64, dh: u64, f: FilterKind) -> (out: Vec<u8>)
    requires
        1 <= dw <= 4294967295,
        1 <= sh <= 4294967295,
        1 <= dh <= 4294967295,
        h@.len() == sh * dw * 4,
        forall|i: int| 0 <= i < h@.len() ==> 0 <= #[trigger] h@[i] <= 16711680,
        dw * dh * 4 <= usize::MAX,
    ensures
        out@.len() == dw * dh * 4,
        out@ == spec_vgrid(seq_int(h@), dw as int, sh as int, dh as int, f),
{
    let ghost dwi = dw as int;
    let ghost shi = sh as int;
    let ghost dhi = dh as int;
    let ghost hs = seq_int(h@);
    let ghost grid = spec_vgrid(hs, dwi, shi, dhi, f);
    let mut out: Vec<u8> = Vec::new();
    let mut y: u64 = 0;
    while y < dh
        invariant
            dwi == dw as int,
            shi == sh as int,
            dhi == dh as int,
            hs == seq_int(h@),
            grid == spec_vgrid(hs, dwi, shi, dhi, f),
            1 <= dw <= 4294967295,
            1 <= sh <= 4294967295,
            1 <= dh <= 4294967295,
            h@.len() == sh * dw * 4,
            forall|i: int| 0 <= i < h@.len() ==> 0 <= #[trigger] h@[i] <= 16711680,
            dw * dh * 4 <= usize::MAX,
            y <= dh,
            out@.len() == y * (dw * 4),
            forall|i: int| 0 <= i < out@.len() ==> out@[i] == grid[i],
        decreases dh - y,
    {
        let t: Taps = make_taps(f, y, sh, dh);
        let mut x: u64 = 0;
        while x < dw
            invariant
                dwi == dw as int,
                shi == sh as int,
                dhi == dh as int,
                hs == seq_int(h@),
                grid == spec_vgrid(hs, dwi, shi, dhi, f),
                1 <= dw <= 4294967295,
                1 <= sh <= 4294967295,
                1 <= dh <= 4294967295,
                h@.len() == sh * dw * 4,
                forall|i: int| 0 <= i < h@.len() ==> 0 <= #[trigger] h@[i] <= 16711680,
                dw * dh * 4 <= usize::MAX,
                y < dh,
                t.wf(f, y as int, shi, dhi),
                x <= dw,
                out@.len() == y * (dw * 4) + x * 4,
                forall|i: int| 0 <= i < out@.len() ==> out@[i] == grid[i],
            decreases dw - x,
        {
            let mut ch: u64 = 0;
            while ch < 4
                invariant
                    dwi == dw as int,
                    shi == sh as int,
                    dhi == dh as int,
                    hs == seq_int(h@),
                    grid == spec_vgrid(hs, dwi, shi, dhi, f),
                    1 <= dw <= 4294967295,
                    1 <= sh <= 4294967295,
                    1 <= dh <= 4294967295,
                    h@.len() == sh * dw * 4,
                    forall|i: int| 0 <= i < h@.len() ==> 0 <= #[trigger] h@[i] <= 16711680,
                    dw * dh * 4 <= usize::MAX,
                    y < dh,
                    t.wf(f, y as int, shi, dhi),
                    x < dw,
                    ch <= 4,
                    out@.len() == y * (dw * 4) + x * 4 + ch,
                    forall|i: int| 0 <= i < out@.len() ==> out@[i] == grid[i],
                decreases 4 - ch,
            {
                let ghost line = spec_vline(hs, dwi, x as int, ch as int, shi);
                let n: usize = t.w.len();
                let mut acc: i128 = 0;
                let mut j: usize = 0;
                while j < n
                    invariant
                        dwi == dw as int,
                        shi == sh as int,
                        dhi == dh as int,
                        hs == seq_int(h@),
                        line == spec_vline(hs, dwi, x as int, ch as int, shi),
                        1 <= dw <= 4294967295,
                        1 <= sh <= 4294967295,
                        1 <= dh <= 4294967295,
                        h@.len() == sh * dw * 4,
                        forall|i: int| 0 <= i < h@.len() ==> 0 <= #[trigger] h@[i] <= 16711680,
                        y < dh,
                        x < dw,
                        ch < 4,
                        t.wf(f, y as int, shi, dhi),
                        n == t.w@.len(),
                        j <= n,
                        acc == spec_conv_sum(line, f, y as int, shi, dhi, j as nat),
                        -2190433320960 * (j as i128) <= acc <= 2190433320960 * (j as i128),
                    decreases n - j,
                {
                    let s: i64 = t.lo + (j as i64);
                    let si: u64 = if s < 0 {
                        0
                    } else if s >= (sh as i64) {
                        sh - 1
                    } else {
                        s as u64
                    };
                    proof {
                        assert(si == clamp_idx(s as int, shi));
                        lemma_idx_bound(si as int, x as int, dwi, shi, ch as int);
                    }
                    // the exec length pins the buffer length below the address-space bound
                    let _total: usize = h.len();
                    let idx128: u128 = ((si as u128) * (dw as u128) + (x as u128)) * 4 + (ch as u128);
                    proof {
                        assert(idx128 == (si as int * dwi + x as int) * 4 + ch as int);
                    }
                    let idx: usize = idx128 as usize;
                    let p: i64 = h[idx];
                    proof {
                        assert(line[si as int] == p as int);
                    }
                    proof {
                        assert(-2190433320960 <= (t.w@[j as int] as int) * (p as int)
                            <= 2190433320960) by (nonlinear_arith)
                            requires
                                -131072 <= t.w@[j as int] as int <= 131072,
                                0 <= p as int <= 16711680;
                    }
                    acc = acc + (t.w[j] as i128) * (p as i128);
                    j = j + 1;
                }
                let sum: i128 = t.sum;
                let b: u8 = if sum <= 0 {
                    let c0: u64 = t.chalf / 65536;
                    let ci: u64 = if c0 >= sh {
                        sh - 1
                    } else {
                        c0
                    };
                    proof {
                        assert(ci == spec_center_idx(y as int, shi, dhi));
                        lemma_idx_bound(ci as int, x as int, dwi, shi, ch as int);
                    }
                    let _total: usize = h.len();
                    let idx128: u128 = ((ci as u128) * (dw as u128) + (x as u128)) * 4 + (ch as u128);
                    proof {
                        assert(idx128 == (ci as int * dwi + x as int) * 4 + ch as int);
                    }
                    let idx: usize = idx128 as usize;
                    let v: i64 = h[idx];
                    let q: u64 = ((v as u64) + 32768) / 65536;
                    if q > 255 {
                        255
                    } else {
                        q as u8
                    }
                } else if acc <= 0 {
                    0
                } else {
                    let num: u128 = 2 * (acc as u128) + (sum as u128) * 65536;
                    let den: u128 = 2 * ((sum as u128) * 65536);
                    let q: u128 = num / den;
                    proof {
                        crate::kernel::lemma_div_nonneg(num as int, den as int);
                    }
                    if q > 255 {
                        255
                    } else {
                        q as u8
                    }
                };
                proof {
                    assert(b == spec_vout(hs, dwi, shi, dhi, f, x as int, y as int, ch as int));
                    lemma_idx_bound(y as int, x as int, dwi, dhi, ch as int);
                    lemma_idx_decompose(y as int, x as int, dwi, ch as int);
                    assert(y as int * (dwi * 4) + x as int * 4 + ch as int == (y as int * dwi
                        + x as int) * 4 + ch as int) by (nonlinear_arith);
                    assert(grid[(y as int * dwi + x as int) * 4 + ch as int] == spec_vout(
                        hs,
                        dwi,
                        shi,
                        dhi,
                        f,
                        x as int,
                        y as int,
                        ch as int,
                    ));
                }
                out.push(b);
                ch = ch + 1;
            }
            x = x + 1;
        }
        y = y + 1;
        proof {
            assert((y as int - 1) * (dwi * 4) + dwi * 4 == y as int * (dwi * 4)) by (nonlinear_arith);
        }
    }
    proof {
        assert(y as int * (dwi * 4) == dwi * dhi * 4) by (nonlinear_arith)
            requires y as int == dhi;
        assert(out@ =~= spec_vgrid(hs, dwi, shi, dhi, f));
    }
    out
}

/// Nearest source coordinate of one output coordinate, clamped into
/// range.
fn nearest_map(o: u64, sl: u64, dl: u64) -> (m: u64)
    requires
        1 <= sl <= 4294967295,
        1 <= dl <= 4294967295,
        o < dl,
    ensures
        m == spec_nearest_map(o as int, sl as int, dl as int),
        m < sl,
{
    let ghost oi = o as int;
    let ghost sli = sl as int;
    let ghost dli = dl as int;
    proof {
        assert(2 * oi * sli <= 2int * 4294967294 * 4294967295) by (nonlinear_arith)
            requires 0 <= oi <= 4294967294, 1 <= sli <= 4294967295;
        assert(2 * oi * sli + dli < (2 * dli) * (sli + 1)) by (nonlinear_arith)
            requires 0 <= oi < dli, 1 <= sli;
        vstd::arithmetic::div_mod::lemma_multiply_divide_lt(2 * oi * sli + dli, 2 * dli, sli + 1);
        crate::kernel::lemma_div_nonneg(2 * oi * sli + dli, 2 * dli);
    }
    let num: u128 = 2 * (o as u128) * (sl as u128) + (dl as u128);
    let q: u64 = (num / (2 * (dl as u128))) as u64;
    if q >= sl {
        sl - 1
    } else {
        q
    }
}

/// Resamples `src` to `dst_width x dst_height` with filter `f`.
///
/// Fails with `InvalidSource` when the source raster is malformed, with
/// `InvalidDimensions` when a requested dimension is zero, and with
/// `AllocationFailure` when a needed buffer would not fit in the address
/// space; otherwise it returns the complete resampled raster.
pub fn resize(src: &Raster, dst_width: u32, dst_height: u32, f: FilterKind) -> (r: Result<
    Raster,
    ResizeError,
>)
    ensures
        !src.wf() ==> r == Err::<Raster, ResizeError>(ResizeError::InvalidSource),
        src.wf() && (dst_width == 0 || dst_height == 0) ==> r == Err::<Raster, ResizeError>(
            ResizeError::InvalidDimensions,
        ),
        src.wf() && dst_width > 0 && dst_height > 0 && (dst_width * dst_height * 4 > usize::MAX
            || dst_width * src.height * 4 > usize::MAX) ==> r == Err::<Raster, ResizeError>(
            ResizeError::AllocationFailure,
        ),
        src.wf() && dst_width > 0 && dst_height > 0 && dst_width * dst_height * 4 <= usize::MAX
            && dst_width * src.height * 4 <= usize::MAX ==> match r {
            Ok(out) => {
                &&& out.wf()
                &&& out.width == dst_width
                &&& out.height == dst_height
                &&& out.data@.len() == dst_width * dst_height * 4
                &&& out.data@ == spec_resize(
                    src.data@,
                    src.width as int,
                    src.height as int,
                    dst_width as int,
                    dst_height as int,
                    f,
                )
            },
            Err(_) => false,
        },
{
    let sw: u32 = src.width;
    let sh: u32 = src.height;
    if sw == 0 || sh == 0 {
        return Err(ResizeError::InvalidSource);
    }
    proof {
        assert((sw as int) * (sh as int) <= 4294967295int * 4294967295) by (nonlinear_arith)
            requires 0 <= sw as int <= 4294967295, 0 <= sh as int <= 4294967295;
    }
    let expect: u128 = (sw as u128) * (sh as u128) * 4;
    if (src.data.len() as u128) != expect {
        return Err(ResizeError::InvalidSource);
    }
    let dw: u32 = dst_width;
    let dh: u32 = dst_height;
    if dw == 0 || dh == 0 {
        return Err(ResizeError::InvalidDimensions);
    }
    proof {
        assert((dw as int) * (dh as int) <= 4294967295int * 4294967295) by (nonlinear_arith)
            requires 0 <= dw as int <= 4294967295, 0 <= dh as int <= 4294967295;
        assert((dw as int) * (sh as int) <= 4294967295int * 4294967295) by (nonlinear_arith)
            requires 0 <= dw as int <= 4294967295, 0 <= sh as int <= 4294967295;
    }
    let need_out: u128 = (dw as u128) * (dh as u128) * 4;
    let need_mid: u128 = (dw as u128) * (sh as u128) * 4;
    if need_out > (usize::MAX as u128) || need_mid > (usize::MAX as u128) {
        return Err(ResizeError::AllocationFailure);
    }
    let ghost swi = sw as int;
    let ghost shi = sh as int;
    let ghost dwi = dw as int;
    let ghost dhi = dh as int;
    let ghost result = spec_resize(src.data@, swi, shi, dwi, dhi, f);
    if f == FilterKind::Nearest {
        let mut out: Vec<u8> = Vec::new();
        let mut y: u64 = 0;
        while y < (dh as u64)
            invariant
                swi == sw as int,
                shi == sh as int,
                dwi == dw as int,
                dhi == dh as int,
                result == spec_resize(src.data@, swi, shi, dwi, dhi, f),
                f == FilterKind::Nearest,
                1 <= sw <= 4294967295,
                1 <= sh <= 4294967295,
                1 <= dw <= 4294967295,
                1 <= dh <= 4294967295,
                src.data@.len() == sw * sh * 4,
                dw * dh * 4 <= usize::MAX,
                y <= dh,
                out@.len() == y * (dw as int * 4),
                forall|i: int| 0 <= i < out@.len() ==> out@[i] == result[i],
            decreases dh - y,
        {
            let my: u64 = nearest_map(y, sh as u64, dh as u64);
            let mut x: u64 = 0;
            while x < (dw as u64)
                invariant
                    swi == sw as int,
                    shi == sh as int,
                    dwi == dw as int,
                    dhi == dh as int,
                    result == spec_resize(src.data@, swi, shi, dwi, dhi, f),
                    f == FilterKind::Nearest,
                    1 <= sw <= 4294967295,
                    1 <= sh <= 4294967295,
                    1 <= dw <= 4294967295,
                    1 <= dh <= 4294967295,
                    src.data@.len() == sw * sh * 4,
                    dw * dh * 4 <= usize::MAX,
                    y < dh,
                    my == spec_nearest_map(y as int, shi, dhi),
                    my < sh,
                    x <= dw,
                    out@.len() == y * (dw as int * 4) + x * 4,
                    forall|i: int| 0 <= i < out@.len() ==> out@[i] == result[i],
                decreases dw - x,
            {
                let mx: u64 = nearest_map(x, sw as u64, dw as u64);
                let mut ch: u64 = 0;
                while ch < 4
                    invariant
                        swi == sw as int,
                        shi == sh as int,
                        dwi == dw as int,
                        dhi == dh as int,
                        result == spec_resize(src.data@, swi, shi, dwi, dhi, f),
                        f == FilterKind::Nearest,
                        1 <= sw <= 4294967295,
                        1 <= sh <= 4294967295,
                        1 <= dw <= 4294967295,
                        1 <= dh <= 4294967295,
                        src.data@.len() == sw * sh * 4,
                        dw * dh * 4 <= usize::MAX,
                        y < dh,
                        my == spec_nearest_map(y as int, shi, dhi),
                        my < sh,
                        x < dw,
                        mx == spec_nearest_map(x as int, swi, dwi),
                        mx < sw,
                        ch <= 4,
                        out@.len() == y * (dw as int * 4) + x * 4 + ch,
                        forall|i: int| 0 <= i < out@.len() ==> out@[i] == result[i],
                    decreases 4 - ch,
                {
                    proof {
                        lemma_idx_bound(my as int, mx as int, swi, shi, ch as int);
                    }
                    // the exec length pins the buffer length below the address-space bound
                    let _total: usize = src.data.len();
                    let idx128: u128 = ((my as u128) * (sw as u128) + (mx as u128)) * 4 + (
                    ch as u128);
                    proof {
                        assert(idx128 == (my as int * swi + mx as int) * 4 + ch as int);
                    }
                    let idx: usize = idx128 as usize;
                    let b: u8 = src.data[idx];
                    proof {
                        lemma_idx_bound(y as int, x as int, dwi, dhi, ch as int);
                        lemma_idx_decompose(y as int, x as int, dwi, ch as int);
                        assert(y as int * (dwi * 4) + x as int * 4 + ch as int == (y as int * dwi
                            + x as int) * 4 + ch as int) by (nonlinear_arith);
                        assert(result[(y as int * dwi + x as int) * 4 + ch as int] == b);
                    }
                    out.push(b);
                    ch = ch + 1;
                }
                x = x + 1;
            }
            y = y + 1;
            proof {
                assert((y as int - 1) * (dwi * 4) + dwi * 4 == y as int * (dwi * 4))
                    by (nonlinear_arith);
            }
        }
        proof {
            assert(y as int * (dwi * 4) == dwi * dhi * 4) by (nonlinear_arith)
                requires y as int == dhi;
            assert(out@ =~= result);
        }
        Ok(Raster { width: dw, height: dh, data: out })
    } else {
        proof {
            assert(shi * dwi * 4 == dwi * shi * 4) by (nonlinear_arith);
        }
        let h: Vec<i64> = hpass(&src.data, sw as u64, sh as u64, dw as u64, f);
        let out: Vec<u8> = vpass(&h, dw as u64, sh as u64, dh as u64, f);
        proof {
            assert(seq_int(h@) =~= spec_hgrid(src.data@, swi, shi, dwi, f));
            assert(out@ =~= result);
        }
        Ok(Raster { width: dw, height: dh, data: out })
    }
}

/// Resizes a raw RGBA buffer, selecting the filter by name.
///
/// The algorithm name is matched case-insensitively against the known
/// aliases; an unrecognized name falls back to Lanczos3. The source is
/// validated before any computation starts, and either a complete
/// `dst_width * dst_height * 4` byte buffer or an error is returned.
pub fn resize_image(
    src_width: u32,
    src_height: u32,
    src_data: &[u8],
    dst_width: u32,
    dst_height: u32,
    algorithm: &str,
) -> (r: Result<Vec<u8>, ResizeError>)
    ensures
        (src_width == 0 || src_height == 0 || src_data@.len() != src_width * src_height * 4) ==> r
            == Err::<Vec<u8>, ResizeError>(ResizeError::InvalidSource),
        src_width > 0 && src_height > 0 && src_data@.len() == src_width * src_height * 4 && (
        dst_width == 0 || dst_height == 0) ==> r == Err::<Vec<u8>, ResizeError>(
            ResizeError::InvalidDimensions,
        ),
        src_width > 0 && src_height > 0 && src_data@.len() == src_width * src_height * 4
            && dst_width > 0 && dst_height > 0 && (dst_width * dst_height * 4 > usize::MAX
            || dst_width * src_height * 4 > usize::MAX) ==> r == Err::<Vec<u8>, ResizeError>(
            ResizeError::AllocationFailure,
        ),
        src_width > 0 && src_height > 0 && src_data@.len() == src_width * src_height * 4
            && dst_width > 0 && dst_height > 0 && dst_width * dst_height * 4 <= usize::MAX
            && dst_width * src_height * 4 <= usize::MAX ==> match r {
            Ok(out) => {
                &&& out@.len() == dst_width * dst_height * 4
                &&& out@ == spec_resize(
                    src_data@,
                    src_width as int,
                    src_height as int,
                    dst_width as int,
                    dst_height as int,
                    spec_parse_filter(algorithm.spec_bytes()),
                )
            },
            Err(_) => false,
        },
{
    let data: Vec<u8> = slice_to_vec(src_data);
    match Raster::new(src_width, src_height, data) {
        Err(e) => Err(e),
        Ok(raster) => {
            let f: FilterKind = parse_filter(algorithm);
            match resize(&raster, dst_width, dst_height, f) {
                Ok(out) => Ok(out.data),
                Err(e) => Err(e),
            }
        },
    }
}

} // verus!
