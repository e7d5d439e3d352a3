//! Scaling down by block averaging and back up by block replication. The
//! round trip loses the trailing rows and columns that do not fill a block:
//! a later upscale restores `floor(dim / factor) * factor`, not `dim`.

use vstd::prelude::*;
use vstd::arithmetic::div_mod::lemma_fundamental_div_mod;
use vstd::arithmetic::div_mod::lemma_div_is_ordered;
use vstd::arithmetic::div_mod::lemma_div_by_multiple;
use vstd::arithmetic::div_mod::lemma_multiply_divide_lt;
use crate::buffer::PixelBuffer;
use crate::buffer::chan_of;
use crate::buffer::grid_data;
use crate::buffer::lemma_index_comp;
use crate::errors::PipelineError;

verus! {

/// Sum of channel `c` over `n` consecutive pixels of row `y` starting at
/// column `x0`, in a grid with rows `w` pixels long.
pub open spec fn row_sum(d: Seq<u8>, w: int, x0: int, y: int, n: int, c: int) -> int
    decreases n,
{
    if n <= 0 {
        0
    } else {
        row_sum(d, w, x0, y, n - 1, c) + chan_of(d, w, x0 + n - 1, y, c)
    }
}

/// Sum of channel `c` over the `fw` by `fh` block of pixels whose top-left
/// corner is `(x0, y0)`.
pub open spec fn block_sum(d: Seq<u8>, w: int, x0: int, y0: int, fw: int, fh: int, c: int) -> int
    decreases fh,
{
    if fh <= 0 {
        0
    } else {
        block_sum(d, w, x0, y0, fw, fh - 1, c) + row_sum(d, w, x0, y0 + fh - 1, fw, c)
    }
}

/// Channel `c` of the scaled-down pixel `(x, y)`: the average over the
/// source's `f` by `f` block at `(x * f, y * f)`.
pub open spec fn scaled_down_chan(d: Seq<u8>, w: int, f: int, x: int, y: int, c: int) -> u8 {
    (block_sum(d, w, x * f, y * f, f, f, c) / (f * f)) as u8
}

/// The bytes of the buffer scaled down by `f`: dimensions floor-divided,
/// every destination pixel the average of its source block.
pub open spec fn scaled_down_data(d: Seq<u8>, w: int, h: int, f: int) -> Seq<u8> {
    grid_data(w / f, h / f, |x: int, y: int, c: int| scaled_down_chan(d, w, f, x, y, c))
}

/// The bytes of the buffer scaled up by `f`: every source pixel replicated
/// over an `f` by `f` block.
pub open spec fn scaled_up_data(d: Seq<u8>, w: int, h: int, f: int) -> Seq<u8> {
    grid_data(w * f, h * f, |x: int, y: int, c: int| chan_of(d, w, x / f, y / f, c))
}

/// A row sum of `n` channel bytes lies in `[0, n * 255]`.
pub proof fn lemma_row_sum_bounds(d: Seq<u8>, w: int, x0: int, y: int, n: int, c: int)
    requires
        n >= 0,
    ensures
        0 <= row_sum(d, w, x0, y, n, c) <= n * 255,
    decreases n,
{
    if n > 0 {
        lemma_row_sum_bounds(d, w, x0, y, n - 1, c);
    }
}

/// A block sum of `fw * fh` channel bytes lies in `[0, fw * fh * 255]`.
pub proof fn lemma_block_sum_bounds(d: Seq<u8>, w: int, x0: int, y0: int, fw: int, fh: int, c: int)
    requires
        fw >= 0,
        fh >= 0,
    ensures
        0 <= block_sum(d, w, x0, y0, fw, fh, c) <= fw * fh * 255,
    decreases fh,
{
    if fh > 0 {
        lemma_block_sum_bounds(d, w, x0, y0, fw, fh - 1, c);
        lemma_row_sum_bounds(d, w, x0, y0 + fh - 1, fw, c);
        assert(fw * (fh - 1) * 255 + fw * 255 == fw * fh * 255) by (nonlinear_arith);
    } else {
        assert(fw * fh * 255 == 0) by (nonlinear_arith)
            requires fh == 0,
        ;
    }
}

/// A coordinate inside a block of a pixel that survives floor division stays
/// inside the source grid.
pub proof fn lemma_block_coord_bound(v: int, dv: int, f: int, dim: int)
    requires
        f >= 1,
        dim >= 0,
        0 <= v < dim / f,
        0 <= dv < f,
    ensures
        0 <= v * f + dv < dim,
{
    lemma_fundamental_div_mod(dim, f);
    assert(v * f + dv < (dim / f) * f) by (nonlinear_arith)
        requires v < dim / f, 0 <= dv < f, f >= 1,
    ;
    assert((dim / f) * f <= dim) by (nonlinear_arith)
        requires dim == f * (dim / f) + dim % f, dim % f >= 0,
    ;
    assert(v * f + dv >= 0) by (nonlinear_arith)
        requires v >= 0, dv >= 0, f >= 1,
    ;
}

/// Shrink the buffer by `factor` on both axes, averaging each non-overlapping
/// `factor` by `factor` block (alpha included) into one destination pixel.
/// Trailing rows and columns that do not fill a block are dropped. Fails
/// exactly when the result would be empty.
#[verifier::loop_isolation(false)]
pub fn scale_down(buf: &PixelBuffer, factor: usize) -> (r: Result<PixelBuffer, PipelineError>)
    requires
        buf.wf(),
        1 <= factor <= 255,
    ensures
        match r {
            Ok(out) => {
                &&& out.wf()
                &&& out.width == buf.width / factor
                &&& out.height == buf.height / factor
                &&& out.width >= 1
                &&& out.height >= 1
                &&& out.data@ == scaled_down_data(buf.data@, buf.width as int, buf.height as int, factor as int)
            },
            Err(e) => {
                &&& e == PipelineError::InvalidDimension
                &&& (buf.width / factor == 0 || buf.height / factor == 0)
            },
        },
{
    let nw: usize = buf.width / factor;
    let nh: usize = buf.height / factor;
    if nw == 0 || nh == 0 {
        return Err(PipelineError::InvalidDimension);
    }
    let ghost d = buf.data@;
    let ghost w = buf.width as int;
    let ghost fi = factor as int;
    let ghost target = scaled_down_data(d, w, buf.height as int, fi);
    proof {
        assert(target.len() == nw * nh * 4);
    }
    let mut out_data: Vec<u8> = Vec::new();
    let mut y: usize = 0;
    while y < nh
        invariant
            y <= nh,
            out_data@.len() == y * (nw * 4),
            nw == buf.width / factor,
            nh == buf.height / factor,
            nw >= 1,
            nh >= 1,
            1 <= factor <= 255,
            buf.wf(),
            d == buf.data@,
            w == buf.width as int,
            fi == factor as int,
            forall|j: int| 0 <= j < out_data@.len() ==>
                out_data@[j] == scaled_down_chan(d, w, fi, (j / 4) % (nw as int), (j / 4) / (nw as int), j % 4),
        decreases nh - y,
    {
        let mut x: usize = 0;
        while x < nw
            invariant
                x <= nw,
                y < nh,
                out_data@.len() == y * (nw * 4) + x * 4,
                nw == buf.width / factor,
                nh == buf.height / factor,
                nw >= 1,
                nh >= 1,
                1 <= factor <= 255,
                buf.wf(),
                d == buf.data@,
                w == buf.width as int,
                fi == factor as int,
                forall|j: int| 0 <= j < out_data@.len() ==>
                    out_data@[j] == scaled_down_chan(d, w, fi, (j / 4) % (nw as int), (j / 4) / (nw as int), j % 4),
            decreases nw - x,
        {
            let mut c: usize = 0;
            while c < 4
                invariant
                    c <= 4,
                    x < nw,
                    y < nh,
                    out_data@.len() == y * (nw * 4) + x * 4 + c,
                    nw == buf.width / factor,
                    nh == buf.height / factor,
                    nw >= 1,
                    nh >= 1,
                    1 <= factor <= 255,
                    buf.wf(),
                    d == buf.data@,
                    w == buf.width as int,
                    fi == factor as int,
                    forall|j: int| 0 <= j < out_data@.len() ==>
                        out_data@[j] == scaled_down_chan(d, w, fi, (j / 4) % (nw as int), (j / 4) / (nw as int), j % 4),
                decreases 4 - c,
            {
                proof {
                    lemma_block_coord_bound(x as int, 0, fi, buf.width as int);
                    lemma_block_coord_bound(y as int, 0, fi, buf.height as int);
                }
                let x0: usize = x * factor;
                let y0: usize = y * factor;
                let mut sum: usize = 0;
                let mut dy: usize = 0;
                while dy < factor
                    invariant
                        dy <= factor,
                        sum == block_sum(d, w, x0 as int, y0 as int, fi, dy as int, c as int),
                        0 <= sum <= dy * factor * 255,
                        x0 == x * factor,
                        y0 == y * factor,
                        x < nw,
                        y < nh,
                        c < 4,
                        nw == buf.width / factor,
                        nh == buf.height / factor,
                        1 <= factor <= 255,
                        buf.wf(),
                        d == buf.data@,
                        w == buf.width as int,
                        fi == factor as int,
                    decreases factor - dy,
                {
                    let mut dx: usize = 0;
                    let row_start: usize = sum;
                    while dx < factor
                        invariant
                            dx <= factor,
                            sum == row_start + row_sum(d, w, x0 as int, (y0 + dy) as int, dx as int, c as int),
                            row_start == block_sum(d, w, x0 as int, y0 as int, fi, dy as int, c as int),
                            0 <= row_start <= dy * factor * 255,
                            0 <= sum <= dy * factor * 255 + dx * 255,
                            dy < factor,
                            x0 == x * factor,
                            y0 == y * factor,
                            x < nw,
                            y < nh,
                            c < 4,
                            nw == buf.width / factor,
                            nh == buf.height / factor,
                            1 <= factor <= 255,
                            buf.wf(),
                            d == buf.data@,
                            w == buf.width as int,
                            fi == factor as int,
                        decreases factor - dx,
                    {
                        proof {
                            lemma_block_coord_bound(x as int, dx as int, fi, buf.width as int);
                            lemma_block_coord_bound(y as int, dy as int, fi, buf.height as int);
                            assert(dy * factor * 255 + dx * 255 + 255 <= 255 * 255 * 255) by (nonlinear_arith)
                                requires dy < factor, dx < factor, factor <= 255,
                            ;
                        }
                        let px: usize = x0 + dx;
                        let py: usize = y0 + dy;
                        let i: usize = buf.index_of(px, py, c);
                        sum = sum + (buf.data[i] as usize);
                        dx += 1;
                    }
                    proof {
                        assert(sum == block_sum(d, w, x0 as int, y0 as int, fi, (dy + 1) as int, c as int));
                        assert(dy * factor * 255 + factor * 255 == (dy + 1) * factor * 255) by (nonlinear_arith);
                    }
                    dy += 1;
                }
                proof {
                    assert(1 <= factor * factor <= 65025) by (nonlinear_arith)
                        requires 1 <= factor <= 255,
                    ;
                }
                let denom: usize = factor * factor;
                let q: usize = sum / denom;
                proof {
                    lemma_block_sum_bounds(d, w, x0 as int, y0 as int, fi, fi, c as int);
                    lemma_div_is_ordered(sum as int, 255 * (fi * fi), fi * fi);
                    lemma_div_by_multiple(255, fi * fi);
                    assert(fi * fi * 255 == 255 * (fi * fi)) by (nonlinear_arith);
                    assert(q <= 255);
                    lemma_index_comp(nw as int, nh as int, x as int, y as int, c as int);
                    assert((y * (nw * 4) + x * 4 + c) as int == ((y as int) * (nw as int) + (x as int)) * 4 + (c as int)) by (nonlinear_arith);
                    assert(q as u8 == scaled_down_chan(d, w, fi, x as int, y as int, c as int));
                }
                out_data.push(q as u8);
                c += 1;
            }
            x += 1;
            proof {
                assert(y * (nw * 4) + (x - 1) * 4 + 4 == y * (nw * 4) + x * 4) by (nonlinear_arith);
            }
        }
        y += 1;
        proof {
            assert((y - 1) * (nw * 4) + nw * 4 == y * (nw * 4)) by (nonlinear_arith);
        }
    }
    let out = PixelBuffer { width: nw, height: nh, data: out_data };
    proof {
        assert(out.data@.len() == nh * (nw * 4));
        assert(nh * (nw * 4) == nw * nh * 4) by (nonlinear_arith);
        assert(out.data@.len() == target.len());
        assert forall|j: int| 0 <= j < out.data@.len() implies out.data@[j] == target[j] by {
            assert(target[j] == scaled_down_chan(d, w, fi, (j / 4) % (nw as int), (j / 4) / (nw as int), j % 4));
        }
        assert(out.data@ =~= target);
        assert(out.wf()) by {
            assert(nw * nh * 4 == nw * (nh * 4)) by (nonlinear_arith);
        }
    }
    Ok(out)
}

/// Replicate each pixel into a `factor` by `factor` block, growing both
/// dimensions by `factor`.
#[verifier::loop_isolation(false)]
pub fn scale_up(buf: &PixelBuffer, factor: usize) -> (r: PixelBuffer)
    requires
        buf.wf(),
        1 <= factor <= 255,
        buf.width * factor <= usize::MAX,
        buf.height * factor <= usize::MAX,
        (buf.width * factor) * ((buf.height * factor) * 4) <= usize::MAX,
    ensures
        r.wf(),
        r.width == buf.width * factor,
        r.height == buf.height * factor,
        r.data@ == scaled_up_data(buf.data@, buf.width as int, buf.height as int, factor as int),
{
    let nw: usize = buf.width * factor;
    let nh: usize = buf.height * factor;
    let ghost d = buf.data@;
    let ghost w = buf.width as int;
    let ghost fi = factor as int;
    let ghost target = scaled_up_data(d, w, buf.height as int, fi);
    proof {
        assert(target.len() == nw * nh * 4);
    }
    let mut out_data: Vec<u8> = Vec::new();
    let mut y: usize = 0;
    while y < nh
        invariant
            y <= nh,
            out_data@.len() == y * (nw * 4),
            nw == buf.width * factor,
            nh == buf.height * factor,
            1 <= factor <= 255,
            (buf.width * factor) * ((buf.height * factor) * 4) <= usize::MAX,
            buf.wf(),
            d == buf.data@,
            w == buf.width as int,
            fi == factor as int,
            forall|j: int| 0 <= j < out_data@.len() ==>
                out_data@[j] == chan_of(d, w, ((j / 4) % (nw as int)) / fi, ((j / 4) / (nw as int)) / fi, j % 4),
        decreases nh - y,
    {
        proof {
            assert(y * (nw * 4) + nw * 4 <= nh * (nw * 4)) by (nonlinear_arith)
                requires y < nh,
            ;
            assert(nh * (nw * 4) == nw * (nh * 4)) by (nonlinear_arith);
        }
        let mut x: usize = 0;
        while x < nw
            invariant
                x <= nw,
                y < nh,
                out_data@.len() == y * (nw * 4) + x * 4,
                y * (nw * 4) + nw * 4 <= nw * (nh * 4),
                nw * (nh * 4) <= usize::MAX,
                nw == buf.width * factor,
                nh == buf.height * factor,
                1 <= factor <= 255,
                buf.wf(),
                d == buf.data@,
                w == buf.width as int,
                fi == factor as int,
                forall|j: int| 0 <= j < out_data@.len() ==>
                    out_data@[j] == chan_of(d, w, ((j / 4) % (nw as int)) / fi, ((j / 4) / (nw as int)) / fi, j % 4),
            decreases nw - x,
        {
            let sx: usize = x / factor;
            let sy: usize = y / factor;
            proof {
                assert((x as int) < fi * (buf.width as int)) by (nonlinear_arith)
                    requires x < nw, nw == buf.width * factor, fi == factor as int,
                ;
                assert((y as int) < fi * (buf.height as int)) by (nonlinear_arith)
                    requires y < nh, nh == buf.height * factor, fi == factor as int,
                ;
                lemma_multiply_divide_lt(x as int, fi, buf.width as int);
                lemma_multiply_divide_lt(y as int, fi, buf.height as int);
                assert(x * 4 + 4 <= nw * 4) by (nonlinear_arith)
                    requires x < nw,
                ;
            }
            let mut c: usize = 0;
            while c < 4
                invariant
                    c <= 4,
                    x < nw,
                    y < nh,
                    sx == x / factor,
                    sy == y / factor,
                    sx < buf.width,
                    sy < buf.height,
                    out_data@.len() == y * (nw * 4) + x * 4 + c,
                    nw == buf.width * factor,
                    nh == buf.height * factor,
                    1 <= factor <= 255,
                    buf.wf(),
                    d == buf.data@,
                    w == buf.width as int,
                    fi == factor as int,
                    forall|j: int| 0 <= j < out_data@.len() ==>
                        out_data@[j] == chan_of(d, w, ((j / 4) % (nw as int)) / fi, ((j / 4) / (nw as int)) / fi, j % 4),
                decreases 4 - c,
            {
                let i: usize = buf.index_of(sx, sy, c);
                let v: u8 = buf.data[i];
                proof {
                    lemma_index_comp(nw as int, nh as int, x as int, y as int, c as int);
                    assert((y * (nw * 4) + x * 4 + c) as int == ((y as int) * (nw as int) + (x as int)) * 4 + (c as int)) by (nonlinear_arith);
                }
                out_data.push(v);
                c += 1;
            }
            x += 1;
            proof {
                assert(y * (nw * 4) + (x - 1) * 4 + 4 == y * (nw * 4) + x * 4) by (nonlinear_arith);
            }
        }
        y += 1;
        proof {
            assert((y - 1) * (nw * 4) + nw * 4 == y * (nw * 4)) by (nonlinear_arith);
        }
    }
    let out = PixelBuffer { width: nw, height: nh, data: out_data };
    proof {
        assert(nh * (nw * 4) == nw * nh * 4) by (nonlinear_arith);
        assert(out.data@.len() == target.len());
        assert forall|j: int| 0 <= j < out.data@.len() implies out.data@[j] == target[j] by {
            assert(target[j] == chan_of(d, w, ((j / 4) % (nw as int)) / fi, ((j / 4) / (nw as int)) / fi, j % 4));
        }
        assert(out.data@ =~= target);
        assert(out.wf()) by {
            assert(nw * nh * 4 == nw * (nh * 4)) by (nonlinear_arith);
        }
    }
    out
}

/// Floor-division loss of the scale round trip: scaling down by `f` and back
/// up restores `(dim / f) * f`, which is `dim` exactly when `f` divides it.
pub proof fn lemma_scale_round_trip_dims(dim: int, f: int)
    requires
        f >= 1,
        dim >= 0,
    ensures
        (dim / f) * f <= dim,
        (dim / f) * f == dim <==> dim % f == 0,
{
    lemma_fundamental_div_mod(dim, f);
    assert(f * (dim / f) == (dim / f) * f) by (nonlinear_arith);
}

} // verus!
