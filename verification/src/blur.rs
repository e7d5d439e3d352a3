//! Separable in-place box blur: a horizontal averaging pass, then a vertical
//! one, each over a window of `2 * radius + 1` samples with edge pixels
//! extended outward. Each pass keeps a running window sum, so the cost is
//! linear in the pixel count whatever the radius. Output dimensions equal
//! input dimensions exactly.

use vstd::prelude::*;
use vstd::arithmetic::div_mod::lemma_div_is_ordered;
use vstd::arithmetic::div_mod::lemma_div_by_multiple;
use vstd::arithmetic::div_mod::lemma_fundamental_div_mod_converse;
use crate::buffer::PixelBuffer;
use crate::buffer::chan_of;
use crate::buffer::grid_data;
use crate::buffer::lemma_index_comp;
use crate::errors::PipelineError;

verus! {

/// A sample coordinate clamped to the buffer's border, so edge pixels extend
/// outward.
pub open spec fn clamp_idx(i: int, n: int) -> int {
    if i < 0 {
        0
    } else if i >= n {
        n - 1
    } else {
        i
    }
}

/// The radius actually used: the request clamped to `[1, min(w, h) / 2]`,
/// with the lower clamp winning on degenerate buffers.
pub open spec fn effective_radius(radius: u8, w: int, h: int) -> int {
    let half = (if w < h { w } else { h }) / 2;
    let capped = if radius > half { half } else { radius as int };
    if capped < 1 {
        1
    } else {
        capped
    }
}

/// Sum of the first `k` samples of the horizontal window of radius `r` at
/// `(x, y)`: samples `x - r, ..., x - r + k - 1`, clamped to the row.
pub open spec fn hwin_sum(d: Seq<u8>, w: int, x: int, y: int, r: int, c: int, k: int) -> int
    decreases k,
{
    if k <= 0 {
        0
    } else {
        hwin_sum(d, w, x, y, r, c, k - 1) + chan_of(d, w, clamp_idx(x - r + k - 1, w), y, c)
    }
}

/// Sum of the first `k` samples of the vertical window of radius `r` at
/// `(x, y)`: samples `y - r, ..., y - r + k - 1`, clamped to the column.
pub open spec fn vwin_sum(d: Seq<u8>, w: int, h: int, x: int, y: int, r: int, c: int, k: int) -> int
    decreases k,
{
    if k <= 0 {
        0
    } else {
        vwin_sum(d, w, h, x, y, r, c, k - 1) + chan_of(d, w, x, clamp_idx(y - r + k - 1, h), c)
    }
}

/// The bytes after the horizontal pass: every channel the average of its row
/// window.
pub open spec fn hblur_data(d: Seq<u8>, w: int, h: int, r: int) -> Seq<u8> {
    grid_data(w, h, |x: int, y: int, c: int| (hwin_sum(d, w, x, y, r, c, 2 * r + 1) / (2 * r + 1)) as u8)
}

/// The bytes after the vertical pass: every channel the average of its column
/// window.
pub open spec fn vblur_data(d: Seq<u8>, w: int, h: int, r: int) -> Seq<u8> {
    grid_data(w, h, |x: int, y: int, c: int| (vwin_sum(d, w, h, x, y, r, c, 2 * r + 1) / (2 * r + 1)) as u8)
}

/// The bytes after the whole blur: the vertical pass applied to the result of
/// the horizontal pass.
pub open spec fn blurred_data(d: Seq<u8>, w: int, h: int, r: int) -> Seq<u8> {
    vblur_data(hblur_data(d, w, h, r), w, h, r)
}

/// The requested radius is clamped to at least 1, whatever the buffer's size.
pub proof fn lemma_effective_radius_at_least_one(radius: u8, w: int, h: int)
    ensures
        effective_radius(radius, w, h) >= 1,
{
}

/// A horizontal window sum of `k` samples lies in `[0, k * 255]`.
pub proof fn lemma_hwin_sum_bounds(d: Seq<u8>, w: int, x: int, y: int, r: int, c: int, k: int)
    requires
        k >= 0,
    ensures
        0 <= hwin_sum(d, w, x, y, r, c, k) <= k * 255,
    decreases k,
{
    if k > 0 {
        lemma_hwin_sum_bounds(d, w, x, y, r, c, k - 1);
    }
}

/// A vertical window sum of `k` samples lies in `[0, k * 255]`.
pub proof fn lemma_vwin_sum_bounds(d: Seq<u8>, w: int, h: int, x: int, y: int, r: int, c: int, k: int)
    requires
        k >= 0,
    ensures
        0 <= vwin_sum(d, w, h, x, y, r, c, k) <= k * 255,
    decreases k,
{
    if k > 0 {
        lemma_vwin_sum_bounds(d, w, h, x, y, r, c, k - 1);
    }
}

/// A nonempty horizontal window sum is at least its first sample, the one
/// that leaves when the window slides right.
proof fn lemma_hwin_sum_first(d: Seq<u8>, w: int, x: int, y: int, r: int, c: int, k: int)
    requires
        k >= 1,
    ensures
        hwin_sum(d, w, x, y, r, c, k) >= chan_of(d, w, clamp_idx(x - r, w), y, c),
    decreases k,
{
    if k > 1 {
        lemma_hwin_sum_first(d, w, x, y, r, c, k - 1);
    } else {
        assert(hwin_sum(d, w, x, y, r, c, 0) == 0);
    }
}

/// A nonempty vertical window sum is at least its first sample, the one that
/// leaves when the window slides down.
proof fn lemma_vwin_sum_first(d: Seq<u8>, w: int, h: int, x: int, y: int, r: int, c: int, k: int)
    requires
        k >= 1,
    ensures
        vwin_sum(d, w, h, x, y, r, c, k) >= chan_of(d, w, x, clamp_idx(y - r, h), c),
    decreases k,
{
    if k > 1 {
        lemma_vwin_sum_first(d, w, h, x, y, r, c, k - 1);
    } else {
        assert(vwin_sum(d, w, h, x, y, r, c, 0) == 0);
    }
}

/// Sliding the horizontal window one pixel right drops its first sample:
/// the window at `x + 1` is the window at `x` extended by one, less the
/// sample at `clamp(x - r)`.
proof fn lemma_hwin_shift(d: Seq<u8>, w: int, x: int, y: int, r: int, c: int, k: int)
    requires
        k >= 0,
    ensures
        hwin_sum(d, w, x + 1, y, r, c, k) == hwin_sum(d, w, x, y, r, c, k + 1) - chan_of(
            d,
            w,
            clamp_idx(x - r, w),
            y,
            c,
        ),
    decreases k,
{
    if k > 0 {
        lemma_hwin_shift(d, w, x, y, r, c, k - 1);
    } else {
        assert(hwin_sum(d, w, x + 1, y, r, c, 0) == 0);
        assert(hwin_sum(d, w, x, y, r, c, 1) == hwin_sum(d, w, x, y, r, c, 0) + chan_of(d, w, clamp_idx(x - r, w), y, c));
        assert(hwin_sum(d, w, x, y, r, c, 0) == 0);
    }
}

/// Sliding the vertical window one pixel down drops its first sample.
proof fn lemma_vwin_shift(d: Seq<u8>, w: int, h: int, x: int, y: int, r: int, c: int, k: int)
    requires
        k >= 0,
    ensures
        vwin_sum(d, w, h, x, y + 1, r, c, k) == vwin_sum(d, w, h, x, y, r, c, k + 1) - chan_of(
            d,
            w,
            x,
            clamp_idx(y - r, h),
            c,
        ),
    decreases k,
{
    if k > 0 {
        lemma_vwin_shift(d, w, h, x, y, r, c, k - 1);
    } else {
        assert(vwin_sum(d, w, h, x, y + 1, r, c, 0) == 0);
        assert(vwin_sum(d, w, h, x, y, r, c, 1) == vwin_sum(d, w, h, x, y, r, c, 0) + chan_of(d, w, x, clamp_idx(y - r, h), c));
        assert(vwin_sum(d, w, h, x, y, r, c, 0) == 0);
    }
}

/// The horizontal averaging pass, with one running window sum per channel
/// slid along each row.
#[verifier::loop_isolation(false)]
#[verifier::rlimit(60)]
fn pass_h(src: &PixelBuffer, r: usize) -> (out: PixelBuffer)
    requires
        src.wf(),
        1 <= r <= 255,
    ensures
        out.wf(),
        out.width == src.width,
        out.height == src.height,
        out.data@ == hblur_data(src.data@, src.width as int, src.height as int, r as int),
{
    let w: usize = src.width;
    let h: usize = src.height;
    let window: usize = 2 * r + 1;
    let _total: usize = src.data.len();
    let ghost d = src.data@;
    let ghost ri = r as int;
    let ghost target = hblur_data(d, w as int, h as int, ri);
    proof {
        assert(target.len() == w * h * 4);
    }
    if w == 0 || h == 0 {
        let out = PixelBuffer { width: w, height: h, data: Vec::new() };
        proof {
            assert((w as int) * (h as int) * 4 == 0) by (nonlinear_arith)
                requires w == 0 || h == 0,
            ;
            assert(out.data@ =~= target);
        }
        return out;
    }
    proof {
        assert(w + window + 1 <= usize::MAX && w * 4 <= usize::MAX) by (nonlinear_arith)
            requires
                w >= 1,
                h >= 1,
                window <= 511,
                w * h * 4 <= usize::MAX,
        ;
    }
    let mut out_data: Vec<u8> = Vec::new();
    let mut y: usize = 0;
    while y < h
        invariant
            y <= h,
            out_data@.len() == y * (w * 4),
            forall|j: int| 0 <= j < out_data@.len() ==>
                out_data@[j] == (hwin_sum(d, w as int, (j / 4) % (w as int), (j / 4) / (w as int), ri, j % 4, 2 * ri + 1) / (2 * ri + 1)) as u8,
        decreases h - y,
    {
        // Prime the four channel sums with the window centered on column 0.
        let mut s0: usize = 0;
        let mut s1: usize = 0;
        let mut s2: usize = 0;
        let mut s3: usize = 0;
        let mut k: usize = 0;
        while k < window
            invariant
                k <= window,
                s0 == hwin_sum(d, w as int, 0, y as int, ri, 0, k as int),
                s1 == hwin_sum(d, w as int, 0, y as int, ri, 1, k as int),
                s2 == hwin_sum(d, w as int, 0, y as int, ri, 2, k as int),
                s3 == hwin_sum(d, w as int, 0, y as int, ri, 3, k as int),
                s0 <= k * 255,
                s1 <= k * 255,
                s2 <= k * 255,
                s3 <= k * 255,
            decreases window - k,
        {
            let sx: usize = if k < r {
                0
            } else {
                let t: usize = k - r;
                if t >= w {
                    w - 1
                } else {
                    t
                }
            };
            proof {
                assert(sx as int == clamp_idx(0 - ri + k as int, w as int));
            }
            s0 = s0 + (src.data[src.index_of(sx, y, 0)] as usize);
            s1 = s1 + (src.data[src.index_of(sx, y, 1)] as usize);
            s2 = s2 + (src.data[src.index_of(sx, y, 2)] as usize);
            s3 = s3 + (src.data[src.index_of(sx, y, 3)] as usize);
            k += 1;
        }
        // Slide the window across the row, averaging at each center.
        let mut x: usize = 0;
        while x < w
            invariant
                x <= w,
                out_data@.len() == y * (w * 4) + x * 4,
                x < w ==> s0 == hwin_sum(d, w as int, x as int, y as int, ri, 0, 2 * ri + 1),
                x < w ==> s1 == hwin_sum(d, w as int, x as int, y as int, ri, 1, 2 * ri + 1),
                x < w ==> s2 == hwin_sum(d, w as int, x as int, y as int, ri, 2, 2 * ri + 1),
                x < w ==> s3 == hwin_sum(d, w as int, x as int, y as int, ri, 3, 2 * ri + 1),
                s0 <= window * 255,
                s1 <= window * 255,
                s2 <= window * 255,
                s3 <= window * 255,
                forall|j: int| 0 <= j < out_data@.len() ==>
                    out_data@[j] == (hwin_sum(d, w as int, (j / 4) % (w as int), (j / 4) / (w as int), ri, j % 4, 2 * ri + 1) / (2 * ri + 1)) as u8,
            decreases w - x,
        {
            let mut c: usize = 0;
            while c < 4
                invariant
                    c <= 4,
                    x < w,
                    out_data@.len() == y * (w * 4) + x * 4 + c,
                    forall|j: int| 0 <= j < out_data@.len() ==>
                        out_data@[j] == (hwin_sum(d, w as int, (j / 4) % (w as int), (j / 4) / (w as int), ri, j % 4, 2 * ri + 1) / (2 * ri + 1)) as u8,
                decreases 4 - c,
            {
                let sum: usize = if c == 0 {
                    s0
                } else if c == 1 {
                    s1
                } else if c == 2 {
                    s2
                } else {
                    s3
                };
                proof {
                    assert(sum == hwin_sum(d, w as int, x as int, y as int, ri, c as int, 2 * ri + 1));
                }
                let q: usize = sum / window;
                proof {
                    lemma_hwin_sum_bounds(d, w as int, x as int, y as int, ri, c as int, 2 * ri + 1);
                    lemma_div_is_ordered(sum as int, 255 * (2 * ri + 1), 2 * ri + 1);
                    lemma_div_by_multiple(255, 2 * ri + 1);
                    assert((2 * ri + 1) * 255 == 255 * (2 * ri + 1)) by (nonlinear_arith);
                    assert(q <= 255);
                    lemma_index_comp(w as int, h as int, x as int, y as int, c as int);
                    assert((y * (w * 4) + x * 4 + c) as int == ((y as int) * (w as int) + (x as int)) * 4 + (c as int)) by (nonlinear_arith);
                }
                out_data.push(q as u8);
                c += 1;
            }
            // Move the window one pixel right: its first sample leaves, one
            // new sample enters at the far edge.
            if x + 1 < w {
                let leave: usize = if x < r {
                    0
                } else {
                    x - r
                };
                let enter_t: usize = x + 1 + r;
                let enter: usize = if enter_t >= w {
                    w - 1
                } else {
                    enter_t
                };
                proof {
                    assert(leave as int == clamp_idx(x as int - ri, w as int));
                    assert(enter as int == clamp_idx(x as int - ri + (2 * ri + 1), w as int));
                    lemma_hwin_shift(d, w as int, x as int, y as int, ri, 0, 2 * ri + 1);
                    lemma_hwin_shift(d, w as int, x as int, y as int, ri, 1, 2 * ri + 1);
                    lemma_hwin_shift(d, w as int, x as int, y as int, ri, 2, 2 * ri + 1);
                    lemma_hwin_shift(d, w as int, x as int, y as int, ri, 3, 2 * ri + 1);
                    lemma_hwin_sum_first(d, w as int, x as int, y as int, ri, 0, 2 * ri + 1);
                    lemma_hwin_sum_first(d, w as int, x as int, y as int, ri, 1, 2 * ri + 1);
                    lemma_hwin_sum_first(d, w as int, x as int, y as int, ri, 2, 2 * ri + 1);
                    lemma_hwin_sum_first(d, w as int, x as int, y as int, ri, 3, 2 * ri + 1);
                    lemma_hwin_sum_bounds(d, w as int, (x + 1) as int, y as int, ri, 0, 2 * ri + 1);
                    lemma_hwin_sum_bounds(d, w as int, (x + 1) as int, y as int, ri, 1, 2 * ri + 1);
                    lemma_hwin_sum_bounds(d, w as int, (x + 1) as int, y as int, ri, 2, 2 * ri + 1);
                    lemma_hwin_sum_bounds(d, w as int, (x + 1) as int, y as int, ri, 3, 2 * ri + 1);
                }
                s0 = s0 + (src.data[src.index_of(enter, y, 0)] as usize) - (src.data[src.index_of(leave, y, 0)] as usize);
                s1 = s1 + (src.data[src.index_of(enter, y, 1)] as usize) - (src.data[src.index_of(leave, y, 1)] as usize);
                s2 = s2 + (src.data[src.index_of(enter, y, 2)] as usize) - (src.data[src.index_of(leave, y, 2)] as usize);
                s3 = s3 + (src.data[src.index_of(enter, y, 3)] as usize) - (src.data[src.index_of(leave, y, 3)] as usize);
            }
            x += 1;
        }
        y += 1;
        proof {
            assert((y - 1) * (w * 4) + w * 4 == y * (w * 4)) by (nonlinear_arith);
        }
    }
    let out = PixelBuffer { width: w, height: h, data: out_data };
    proof {
        assert(h * (w * 4) == w * h * 4) by (nonlinear_arith);
        assert(out.data@.len() == target.len());
        assert forall|j: int| 0 <= j < out.data@.len() implies out.data@[j] == target[j] by {
            assert(target[j] == (hwin_sum(d, w as int, (j / 4) % (w as int), (j / 4) / (w as int), ri, j % 4, 2 * ri + 1) / (2 * ri + 1)) as u8);
        }
        assert(out.data@ =~= target);
        assert(out.wf()) by {
            assert(w * h * 4 == w * (h * 4)) by (nonlinear_arith);
        }
    }
    out
}

/// The vertical averaging pass, with one running window sum per column and
/// channel, all slid down the rows together.
#[verifier::loop_isolation(false)]
#[verifier::rlimit(60)]
fn pass_v(src: &PixelBuffer, r: usize) -> (out: PixelBuffer)
    requires
        src.wf(),
        1 <= r <= 255,
    ensures
        out.wf(),
        out.width == src.width,
        out.height == src.height,
        out.data@ == vblur_data(src.data@, src.width as int, src.height as int, r as int),
{
    let w: usize = src.width;
    let h: usize = src.height;
    let window: usize = 2 * r + 1;
    let _total: usize = src.data.len();
    let ghost d = src.data@;
    let ghost ri = r as int;
    let ghost target = vblur_data(d, w as int, h as int, ri);
    proof {
        assert(target.len() == w * h * 4);
    }
    if w == 0 || h == 0 {
        let out = PixelBuffer { width: w, height: h, data: Vec::new() };
        proof {
            assert((w as int) * (h as int) * 4 == 0) by (nonlinear_arith)
                requires w == 0 || h == 0,
            ;
            assert(out.data@ =~= target);
        }
        return out;
    }
    proof {
        assert(h + window + 1 <= usize::MAX && w * 4 <= usize::MAX) by (nonlinear_arith)
            requires
                w >= 1,
                h >= 1,
                window <= 511,
                w * h * 4 <= usize::MAX,
        ;
    }
    let w4: usize = w * 4;
    // Prime one running sum per column and channel, centered on row 0.
    let mut col_sums: Vec<usize> = Vec::new();
    let mut px: usize = 0;
    while px < w
        invariant
            px <= w,
            col_sums@.len() == px * 4,
            forall|j: int| 0 <= j < col_sums@.len() ==>
                col_sums@[j] == vwin_sum(d, w as int, h as int, j / 4, 0, ri, j % 4, 2 * ri + 1)
                    && col_sums@[j] <= window * 255,
        decreases w - px,
    {
        let mut c: usize = 0;
        while c < 4
            invariant
                c <= 4,
                px < w,
                col_sums@.len() == px * 4 + c,
                forall|j: int| 0 <= j < col_sums@.len() ==>
                    col_sums@[j] == vwin_sum(d, w as int, h as int, j / 4, 0, ri, j % 4, 2 * ri + 1)
                        && col_sums@[j] <= window * 255,
            decreases 4 - c,
        {
            let mut s: usize = 0;
            let mut k: usize = 0;
            while k < window
                invariant
                    k <= window,
                    s == vwin_sum(d, w as int, h as int, px as int, 0, ri, c as int, k as int),
                    s <= k * 255,
                decreases window - k,
            {
                let sy: usize = if k < r {
                    0
                } else {
                    let t: usize = k - r;
                    if t >= h {
                        h - 1
                    } else {
                        t
                    }
                };
                proof {
                    assert(sy as int == clamp_idx(0 - ri + k as int, h as int));
                }
                s = s + (src.data[src.index_of(px, sy, c)] as usize);
                k += 1;
            }
            proof {
                lemma_fundamental_div_mod_converse((px * 4 + c) as int, 4, px as int, c as int);
            }
            col_sums.push(s);
            c += 1;
        }
        px += 1;
    }
    let mut out_data: Vec<u8> = Vec::new();
    let mut y: usize = 0;
    while y < h
        invariant
            y <= h,
            out_data@.len() == y * (w * 4),
            col_sums@.len() == w * 4,
            forall|j: int| 0 <= j < col_sums@.len() ==>
                (y < h ==> col_sums@[j] == vwin_sum(d, w as int, h as int, j / 4, y as int, ri, j % 4, 2 * ri + 1))
                    && col_sums@[j] <= window * 255,
            forall|j: int| 0 <= j < out_data@.len() ==>
                out_data@[j] == (vwin_sum(d, w as int, h as int, (j / 4) % (w as int), (j / 4) / (w as int), ri, j % 4, 2 * ri + 1) / (2 * ri + 1)) as u8,
        decreases h - y,
    {
        // Average each column's window at the current row.
        let mut x: usize = 0;
        while x < w
            invariant
                x <= w,
                y < h,
                out_data@.len() == y * (w * 4) + x * 4,
                forall|j: int| 0 <= j < out_data@.len() ==>
                    out_data@[j] == (vwin_sum(d, w as int, h as int, (j / 4) % (w as int), (j / 4) / (w as int), ri, j % 4, 2 * ri + 1) / (2 * ri + 1)) as u8,
            decreases w - x,
        {
            let mut c: usize = 0;
            while c < 4
                invariant
                    c <= 4,
                    x < w,
                    y < h,
                    out_data@.len() == y * (w * 4) + x * 4 + c,
                    forall|j: int| 0 <= j < out_data@.len() ==>
                        out_data@[j] == (vwin_sum(d, w as int, h as int, (j / 4) % (w as int), (j / 4) / (w as int), ri, j % 4, 2 * ri + 1) / (2 * ri + 1)) as u8,
                decreases 4 - c,
            {
                proof {
                    assert(x * 4 + c < w * 4) by (nonlinear_arith)
                        requires x < w, c < 4,
                    ;
                }
                let sum: usize = col_sums[x * 4 + c];
                proof {
                    lemma_fundamental_div_mod_converse((x * 4 + c) as int, 4, x as int, c as int);
                    assert(sum == vwin_sum(d, w as int, h as int, x as int, y as int, ri, c as int, 2 * ri + 1));
                }
                let q: usize = sum / window;
                proof {
                    lemma_vwin_sum_bounds(d, w as int, h as int, x as int, y as int, ri, c as int, 2 * ri + 1);
                    lemma_div_is_ordered(sum as int, 255 * (2 * ri + 1), 2 * ri + 1);
                    lemma_div_by_multiple(255, 2 * ri + 1);
                    assert((2 * ri + 1) * 255 == 255 * (2 * ri + 1)) by (nonlinear_arith);
                    assert(q <= 255);
                    lemma_index_comp(w as int, h as int, x as int, y as int, c as int);
                    assert((y * (w * 4) + x * 4 + c) as int == ((y as int) * (w as int) + (x as int)) * 4 + (c as int)) by (nonlinear_arith);
                }
                out_data.push(q as u8);
                c += 1;
            }
            x += 1;
        }
        // Move every column's window one row down.
        if y + 1 < h {
            let leave: usize = if y < r {
                0
            } else {
                y - r
            };
            let enter_t: usize = y + 1 + r;
            let enter: usize = if enter_t >= h {
                h - 1
            } else {
                enter_t
            };
            proof {
                assert(leave as int == clamp_idx(y as int - ri, h as int));
                assert(enter as int == clamp_idx(y as int - ri + (2 * ri + 1), h as int));
            }
            let mut j: usize = 0;
            while j < w4
                invariant
                    j <= w4,
                    w4 == w * 4,
                    y + 1 < h,
                    col_sums@.len() == w * 4,
                    forall|jj: int| 0 <= jj < j ==>
                        col_sums@[jj] == vwin_sum(d, w as int, h as int, jj / 4, (y + 1) as int, ri, jj % 4, 2 * ri + 1)
                            && col_sums@[jj] <= window * 255,
                    forall|jj: int| j <= jj < col_sums@.len() ==>
                        col_sums@[jj] == vwin_sum(d, w as int, h as int, jj / 4, y as int, ri, jj % 4, 2 * ri + 1)
                            && col_sums@[jj] <= window * 255,
                decreases w4 - j,
            {
                let cx: usize = j / 4;
                let cc: usize = j % 4;
                proof {
                    assert(cx < w) by (nonlinear_arith)
                        requires j < w * 4, cx == j / 4,
                    ;
                    lemma_vwin_shift(d, w as int, h as int, cx as int, y as int, ri, cc as int, 2 * ri + 1);
                    lemma_vwin_sum_first(d, w as int, h as int, cx as int, y as int, ri, cc as int, 2 * ri + 1);
                    lemma_vwin_sum_bounds(d, w as int, h as int, cx as int, (y + 1) as int, ri, cc as int, 2 * ri + 1);
                }
                let old_s: usize = col_sums[j];
                let enter_v: usize = src.data[src.index_of(cx, enter, cc)] as usize;
                let leave_v: usize = src.data[src.index_of(cx, leave, cc)] as usize;
                col_sums[j] = old_s + enter_v - leave_v;
                j += 1;
            }
        }
        y += 1;
        proof {
            assert((y - 1) * (w * 4) + w * 4 == y * (w * 4)) by (nonlinear_arith);
        }
    }
    let out = PixelBuffer { width: w, height: h, data: out_data };
    proof {
        assert(h * (w * 4) == w * h * 4) by (nonlinear_arith);
        assert(out.data@.len() == target.len());
        assert forall|j: int| 0 <= j < out.data@.len() implies out.data@[j] == target[j] by {
            assert(target[j] == (vwin_sum(d, w as int, h as int, (j / 4) % (w as int), (j / 4) / (w as int), ri, j % 4, 2 * ri + 1) / (2 * ri + 1)) as u8);
        }
        assert(out.data@ =~= target);
        assert(out.wf()) by {
            assert(w * h * 4 == w * (h * 4)) by (nonlinear_arith);
        }
    }
    out
}

/// Box-blur the buffer in place with the requested radius, clamped to
/// `[1, min(width, height) / 2]` (and to at least 1 on tiny buffers). Fails
/// exactly when the buffer is empty, leaving it unchanged.
pub fn blur(buf: &mut PixelBuffer, radius: u8) -> (r: Result<(), PipelineError>)
    requires
        old(buf).wf(),
    ensures
        match r {
            Ok(()) => {
                &&& final(buf).wf()
                &&& final(buf).width == old(buf).width
                &&& final(buf).height == old(buf).height
                &&& final(buf).width >= 1 && final(buf).height >= 1
                &&& final(buf).data@ == blurred_data(
                    old(buf).data@,
                    old(buf).width as int,
                    old(buf).height as int,
                    effective_radius(radius, old(buf).width as int, old(buf).height as int),
                )
            },
            Err(e) => {
                &&& e == PipelineError::InvalidDimension
                &&& (old(buf).width == 0 || old(buf).height == 0)
                &&& *final(buf) == *old(buf)
            },
        },
{
    if buf.width == 0 || buf.height == 0 {
        return Err(PipelineError::InvalidDimension);
    }
    let half: usize = (if buf.width < buf.height { buf.width } else { buf.height }) / 2;
    let capped: usize = if (radius as usize) > half { half } else { radius as usize };
    let r: usize = if capped < 1 { 1 } else { capped };
    proof {
        assert(r as int == effective_radius(radius, buf.width as int, buf.height as int));
    }
    let tmp = pass_h(buf, r);
    let out = pass_v(&tmp, r);
    *buf = out;
    Ok(())
}

} // verus!
