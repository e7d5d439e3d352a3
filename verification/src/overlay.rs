//! Alpha compositing of the overlay icon onto the screenshot, and its mask
//! ("invert") mode, once per active, non-ignored monitor. Overlay pixels that
//! fall off the destination are silently skipped.

use vstd::prelude::*;
use vstd::arithmetic::div_mod::lemma_div_is_ordered;
use vstd::arithmetic::div_mod::lemma_div_by_multiple;
use crate::buffer::PixelBuffer;
use crate::buffer::OverlayImage;
use crate::buffer::chan_of;
use crate::buffer::grid_data;
use crate::buffer::lemma_index_comp;
use crate::buffer::lemma_pixel_index_bound;
use crate::buffer::lemma_grid_data_matches;
use crate::position::MonitorDescriptor;
use crate::position::PlacementRequest;
use crate::position::resolved_x;
use crate::position::resolved_y;
use crate::position::resolve_offsets;

verus! {

/// One channel alpha-blended: destination weighted by `255 - a`, source by
/// `a`, in 1/255 units. `a == 0` keeps the destination, `a == 255` takes the
/// source.
pub open spec fn blend(dst: int, src: int, a: int) -> int {
    (dst * (255 - a) + src * a) / 255
}

/// Channel `c` of destination pixel `(x, y)` after compositing an `ow` by
/// `oh` overlay at signed offset `(x_off, y_off)`. Color channels under the
/// overlay blend toward the overlay's color, or, in invert mode, toward their
/// own complement, weighted by the overlay's alpha; everything else is kept.
pub open spec fn overlay_chan(
    d: Seq<u8>,
    w: int,
    ov: Seq<u8>,
    ow: int,
    oh: int,
    x_off: int,
    y_off: int,
    invert: bool,
    x: int,
    y: int,
    c: int,
) -> u8 {
    let dv = chan_of(d, w, x, y, c);
    if x_off <= x < x_off + ow && y_off <= y < y_off + oh && c < 3 {
        let ox = x - x_off;
        let oy = y - y_off;
        let a = chan_of(ov, ow, ox, oy, 3) as int;
        if invert {
            blend(dv as int, 255 - dv, a) as u8
        } else {
            blend(dv as int, chan_of(ov, ow, ox, oy, c) as int, a) as u8
        }
    } else {
        dv
    }
}

/// The destination's bytes after compositing the overlay at `(x_off, y_off)`.
pub open spec fn composited_data(
    d: Seq<u8>,
    w: int,
    h: int,
    ov: Seq<u8>,
    ow: int,
    oh: int,
    x_off: int,
    y_off: int,
    invert: bool,
) -> Seq<u8> {
    grid_data(w, h, |x: int, y: int, c: int| overlay_chan(d, w, ov, ow, oh, x_off, y_off, invert, x, y, c))
}

/// Full overlay alpha takes the source channel outright.
pub proof fn lemma_blend_opaque(dst: int, src: int)
    requires
        0 <= src,
    ensures
        blend(dst, src, 255) == src,
{
    lemma_div_by_multiple(src, 255);
    assert(dst * 0 == 0) by (nonlinear_arith);
    assert(src * 255 == 255 * src) by (nonlinear_arith);
    assert((255 * src) / 255 == src) by {
        assert((src * 255) / 255 == src);
    }
}

/// Zero overlay alpha keeps the destination outright.
pub proof fn lemma_blend_transparent(dst: int, src: int)
    requires
        0 <= dst,
    ensures
        blend(dst, src, 0) == dst,
{
    lemma_div_by_multiple(dst, 255);
    assert(src * 0 == 0) by (nonlinear_arith);
    assert(dst * 255 == 255 * dst) by (nonlinear_arith);
}

/// Under a fully opaque overlay pixel a color channel is replaced by the
/// overlay's color; under a fully transparent one it is unchanged.
pub proof fn lemma_overlay_extremes(
    d: Seq<u8>,
    w: int,
    ov: Seq<u8>,
    ow: int,
    oh: int,
    x_off: int,
    y_off: int,
    x: int,
    y: int,
    c: int,
)
    requires
        x_off <= x < x_off + ow,
        y_off <= y < y_off + oh,
        0 <= c < 3,
    ensures
        chan_of(ov, ow, x - x_off, y - y_off, 3) == 255 ==> overlay_chan(d, w, ov, ow, oh, x_off, y_off, false, x, y, c)
            == chan_of(ov, ow, x - x_off, y - y_off, c),
        chan_of(ov, ow, x - x_off, y - y_off, 3) == 0 ==> overlay_chan(d, w, ov, ow, oh, x_off, y_off, false, x, y, c)
            == chan_of(d, w, x, y, c),
{
    lemma_blend_opaque(chan_of(d, w, x, y, c) as int, chan_of(ov, ow, x - x_off, y - y_off, c) as int);
    lemma_blend_transparent(chan_of(d, w, x, y, c) as int, chan_of(ov, ow, x - x_off, y - y_off, c) as int);
}

/// In invert mode a fully opaque overlay pixel complements the destination
/// channel: a channel holding `v` becomes `255 - v`.
pub proof fn lemma_invert_full_mask(
    d: Seq<u8>,
    w: int,
    ov: Seq<u8>,
    ow: int,
    oh: int,
    x_off: int,
    y_off: int,
    x: int,
    y: int,
    c: int,
)
    requires
        x_off <= x < x_off + ow,
        y_off <= y < y_off + oh,
        0 <= c < 3,
        chan_of(ov, ow, x - x_off, y - y_off, 3) == 255,
    ensures
        overlay_chan(d, w, ov, ow, oh, x_off, y_off, true, x, y, c)
            == 255 - chan_of(d, w, x, y, c),
{
    let dv = chan_of(d, w, x, y, c) as int;
    lemma_blend_opaque(dv, 255 - dv);
}

/// Composite the overlay onto the buffer at signed offset `(x_off, y_off)`,
/// blending the three color channels of every overlay pixel that lands inside
/// the buffer and skipping the rest.
#[verifier::loop_isolation(false)]
pub fn overlay(dst: &mut PixelBuffer, image: &OverlayImage, x_off: isize, y_off: isize, invert: bool)
    requires
        old(dst).wf(),
        image.wf(),
        x_off + image.width <= isize::MAX,
        y_off + image.height <= isize::MAX,
    ensures
        final(dst).wf(),
        final(dst).width == old(dst).width,
        final(dst).height == old(dst).height,
        final(dst).data@ == composited_data(
            old(dst).data@,
            old(dst).width as int,
            old(dst).height as int,
            image.data@,
            image.width as int,
            image.height as int,
            x_off as int,
            y_off as int,
            invert,
        ),
{
    let w: usize = dst.width;
    let h: usize = dst.height;
    let ow: usize = image.width;
    let oh: usize = image.height;
    let _ov_total: usize = image.data.len();
    let ghost d0 = dst.data@;
    let ghost wi = w as int;
    let ghost hi = h as int;
    let ghost ovd = image.data@;
    let ghost owi = ow as int;
    let ghost ohi = oh as int;
    let ghost xoi = x_off as int;
    let ghost yoi = y_off as int;
    let ghost target = composited_data(d0, wi, hi, ovd, owi, ohi, xoi, yoi, invert);
    let mut oy: usize = 0;
    while oy < oh
        invariant
            oy <= oh,
            dst.width == w,
            dst.height == h,
            dst.data@.len() == d0.len(),
            old(dst).wf(),
            d0 == old(dst).data@,
            wi == w as int,
            hi == h as int,
            image.wf(),
            ovd == image.data@,
            owi == ow as int,
            ohi == oh as int,
            ow == image.width,
            oh == image.height,
            xoi == x_off as int,
            yoi == y_off as int,
            x_off + ow <= isize::MAX,
            y_off + oh <= isize::MAX,
            forall|x: int, y: int, cc: int| 0 <= x < wi && 0 <= y < hi && 0 <= cc < 4 ==>
                chan_of(dst.data@, wi, x, y, cc) == (
                    if xoi <= x < xoi + owi && yoi <= y < yoi + oy {
                        overlay_chan(d0, wi, ovd, owi, ohi, xoi, yoi, invert, x, y, cc)
                    } else {
                        chan_of(d0, wi, x, y, cc)
                    }
                ),
        decreases oh - oy,
    {
        let mut ox: usize = 0;
        while ox < ow
            invariant
                ox <= ow,
                oy < oh,
                dst.width == w,
                dst.height == h,
                dst.data@.len() == d0.len(),
                old(dst).wf(),
                d0 == old(dst).data@,
                wi == w as int,
                hi == h as int,
                image.wf(),
                ovd == image.data@,
                owi == ow as int,
                ohi == oh as int,
                ow == image.width,
                oh == image.height,
                xoi == x_off as int,
                yoi == y_off as int,
                x_off + ow <= isize::MAX,
                y_off + oh <= isize::MAX,
                forall|x: int, y: int, cc: int| 0 <= x < wi && 0 <= y < hi && 0 <= cc < 4 ==>
                    chan_of(dst.data@, wi, x, y, cc) == (
                        if (xoi <= x < xoi + owi && yoi <= y < yoi + oy)
                            || (y == yoi + oy && xoi <= x < xoi + ox) {
                            overlay_chan(d0, wi, ovd, owi, ohi, xoi, yoi, invert, x, y, cc)
                        } else {
                            chan_of(d0, wi, x, y, cc)
                        }
                    ),
            decreases ow - ox,
        {
            proof {
                assert((ox as int) < isize::MAX && (oy as int) < isize::MAX) by (nonlinear_arith)
                    requires
                        ox < ow,
                        oy < oh,
                        ow * oh * 4 <= usize::MAX,
                ;
            }
            let tx: isize = x_off + (ox as isize);
            let ty: isize = y_off + (oy as isize);
            if tx >= 0 && ty >= 0 && (tx as usize) < w && (ty as usize) < h {
                let txu: usize = tx as usize;
                let tyu: usize = ty as usize;
                let ai: usize = image.index_of(ox, oy, 3);
                let a: u8 = image.data[ai];
                let mut c: usize = 0;
                while c < 3
                    invariant
                        c <= 3,
                        ox < ow,
                        oy < oh,
                        txu == xoi + ox,
                        tyu == yoi + oy,
                        txu < w,
                        tyu < h,
                        a == chan_of(ovd, owi, ox as int, oy as int, 3),
                        dst.width == w,
                        dst.height == h,
                        dst.data@.len() == d0.len(),
                        old(dst).wf(),
                        d0 == old(dst).data@,
                        wi == w as int,
                        hi == h as int,
                        image.wf(),
                        ovd == image.data@,
                        owi == ow as int,
                        ohi == oh as int,
                        ow == image.width,
                        oh == image.height,
                        xoi == x_off as int,
                        yoi == y_off as int,
                        forall|x: int, y: int, cc: int| 0 <= x < wi && 0 <= y < hi && 0 <= cc < 4 ==>
                            chan_of(dst.data@, wi, x, y, cc) == (
                                if (xoi <= x < xoi + owi && yoi <= y < yoi + oy)
                                    || (y == yoi + oy && xoi <= x < xoi + ox)
                                    || (y == yoi + oy && x == xoi + ox && cc < c) {
                                    overlay_chan(d0, wi, ovd, owi, ohi, xoi, yoi, invert, x, y, cc)
                                } else {
                                    chan_of(d0, wi, x, y, cc)
                                }
                            ),
                    decreases 3 - c,
                {
                    let di: usize = dst.index_of(txu, tyu, c);
                    let dv: u8 = dst.data[di];
                    proof {
                        assert(chan_of(dst.data@, wi, txu as int, tyu as int, c as int) == dv);
                        assert(!((xoi <= txu < xoi + owi && yoi <= tyu < yoi + oy)
                            || (tyu == yoi + oy && xoi <= txu < xoi + ox)
                            || (tyu == yoi + oy && txu == xoi + ox && c < c)));
                        assert(dv == chan_of(d0, wi, txu as int, tyu as int, c as int));
                    }
                    let sv: u8 = if invert {
                        255 - dv
                    } else {
                        let si: usize = image.index_of(ox, oy, c);
                        image.data[si]
                    };
                    proof {
                        assert(0 <= (dv as int) * (255 - (a as int)) + (sv as int) * (a as int) <= 255 * 255)
                            by (nonlinear_arith)
                            requires
                                dv <= 255,
                                sv <= 255,
                                a <= 255,
                        ;
                    }
                    let num: usize = (dv as usize) * (255 - (a as usize)) + (sv as usize) * (a as usize);
                    proof {
                        lemma_div_is_ordered(num as int, (255 * 255) as int, 255);
                        lemma_div_by_multiple(255, 255);
                    }
                    let nv: u8 = (num / 255) as u8;
                    proof {
                        assert(nv as int == blend(dv as int, sv as int, a as int));
                        assert(nv == overlay_chan(d0, wi, ovd, owi, ohi, xoi, yoi, invert, txu as int, tyu as int, c as int));
                    }
                    let ghost before = dst.data@;
                    dst.data[di] = nv;
                    proof {
                        assert(dst.data@ == before.update(di as int, nv));
                        lemma_index_comp(wi, hi, txu as int, tyu as int, c as int);
                        assert forall|x: int, y: int, cc: int| 0 <= x < wi && 0 <= y < hi && 0 <= cc < 4 implies
                            chan_of(dst.data@, wi, x, y, cc) == (
                                if (xoi <= x < xoi + owi && yoi <= y < yoi + oy)
                                    || (y == yoi + oy && xoi <= x < xoi + ox)
                                    || (y == yoi + oy && x == xoi + ox && cc < c + 1) {
                                    overlay_chan(d0, wi, ovd, owi, ohi, xoi, yoi, invert, x, y, cc)
                                } else {
                                    chan_of(d0, wi, x, y, cc)
                                }
                            ) by {
                            let jj = (y * wi + x) * 4 + cc;
                            lemma_pixel_index_bound(wi, hi, x, y, cc);
                            if jj == di as int {
                                lemma_index_comp(wi, hi, x, y, cc);
                                assert(x == txu as int && y == tyu as int && cc == c as int);
                            } else {
                                assert(chan_of(dst.data@, wi, x, y, cc) == chan_of(before, wi, x, y, cc));
                            }
                        }
                    }
                    c += 1;
                }
            }
            ox += 1;
        }
        oy += 1;
    }
    proof {
        assert forall|x: int, y: int, cc: int| 0 <= x < wi && 0 <= y < hi && 0 <= cc < 4 implies
            chan_of(dst.data@, wi, x, y, cc)
                == overlay_chan(d0, wi, ovd, owi, ohi, xoi, yoi, invert, x, y, cc) by {
        }
        if w >= 1 && h >= 1 {
            lemma_grid_data_matches(
                dst.data@,
                wi,
                hi,
                |x: int, y: int, cc: int| overlay_chan(d0, wi, ovd, owi, ohi, xoi, yoi, invert, x, y, cc),
            );
        } else {
            assert(wi * hi * 4 == 0) by (nonlinear_arith)
                requires wi == 0 || hi == 0,
            ;
            assert(dst.data@.len() == 0);
            assert(target.len() == 0);
            assert(dst.data@ =~= target);
        }
    }
}

/// Whether a monitor index is in the ignore list.
pub open spec fn ignored_contains(ignored: Seq<usize>, idx: usize) -> bool {
    exists|k: int| 0 <= k < ignored.len() && ignored[k] == idx
}

/// Membership test against the ignore list.
pub fn contains_index(ignored: &Vec<usize>, idx: usize) -> (r: bool)
    ensures
        r == ignored_contains(ignored@, idx),
{
    let mut k: usize = 0;
    while k < ignored.len()
        invariant
            k <= ignored@.len(),
            forall|j: int| 0 <= j < k ==> ignored@[j] != idx,
        decreases ignored@.len() - k,
    {
        if ignored[k] == idx {
            return true;
        }
        k += 1;
    }
    false
}

/// The buffer's bytes after one monitor's turn: composited at the monitor's
/// resolved offset when the monitor is active and not ignored, untouched
/// otherwise.
pub open spec fn apply_monitor(
    d: Seq<u8>,
    w: int,
    h: int,
    ov: Seq<u8>,
    ow: int,
    oh: int,
    m: MonitorDescriptor,
    p: PlacementRequest,
    ignored: Seq<usize>,
    invert: bool,
) -> Seq<u8> {
    if m.active && !ignored_contains(ignored, m.index) {
        composited_data(d, w, h, ov, ow, oh, resolved_x(p, m, ow), resolved_y(p, m, oh), invert)
    } else {
        d
    }
}

/// The buffer's bytes after the first `k` monitors' turns, in enumeration
/// order.
pub open spec fn apply_monitors_upto(
    d: Seq<u8>,
    w: int,
    h: int,
    ov: Seq<u8>,
    ow: int,
    oh: int,
    monitors: Seq<MonitorDescriptor>,
    p: PlacementRequest,
    ignored: Seq<usize>,
    invert: bool,
    k: int,
) -> Seq<u8>
    decreases k,
{
    if k <= 0 {
        d
    } else {
        apply_monitor(
            apply_monitors_upto(d, w, h, ov, ow, oh, monitors, p, ignored, invert, k - 1),
            w,
            h,
            ov,
            ow,
            oh,
            monitors[k - 1],
            p,
            ignored,
            invert,
        )
    }
}

/// The buffer's bytes after every monitor's turn.
pub open spec fn apply_all_monitors(
    d: Seq<u8>,
    w: int,
    h: int,
    ov: Seq<u8>,
    ow: int,
    oh: int,
    monitors: Seq<MonitorDescriptor>,
    p: PlacementRequest,
    ignored: Seq<usize>,
    invert: bool,
) -> Seq<u8> {
    apply_monitors_upto(d, w, h, ov, ow, oh, monitors, p, ignored, invert, monitors.len() as int)
}

/// An ignored or inactive monitor receives no overlay writes: its turn leaves
/// the buffer exactly as it was, whatever the placement configuration.
pub proof fn lemma_ignored_monitor_unchanged(
    d: Seq<u8>,
    w: int,
    h: int,
    ov: Seq<u8>,
    ow: int,
    oh: int,
    m: MonitorDescriptor,
    p: PlacementRequest,
    ignored: Seq<usize>,
    invert: bool,
)
    requires
        ignored_contains(ignored, m.index) || !m.active,
    ensures
        apply_monitor(d, w, h, ov, ow, oh, m, p, ignored, invert) == d,
{
}

/// Composite the overlay once per active, non-ignored monitor, at each
/// monitor's own resolved offset, in enumeration order.
pub fn compose_monitors(
    dst: &mut PixelBuffer,
    image: &OverlayImage,
    monitors: &Vec<MonitorDescriptor>,
    p: &PlacementRequest,
    ignored: &Vec<usize>,
    invert: bool,
)
    requires
        old(dst).wf(),
        image.wf(),
        forall|k: int| 0 <= k < monitors@.len()
            ==> (#[trigger] monitors@[k]).fits(image.width as int, image.height as int),
    ensures
        final(dst).wf(),
        final(dst).width == old(dst).width,
        final(dst).height == old(dst).height,
        final(dst).data@ == apply_all_monitors(
            old(dst).data@,
            old(dst).width as int,
            old(dst).height as int,
            image.data@,
            image.width as int,
            image.height as int,
            monitors@,
            *p,
            ignored@,
            invert,
        ),
{
    let ghost d0 = old(dst).data@;
    let ghost wi = old(dst).width as int;
    let ghost hi = old(dst).height as int;
    let mut k: usize = 0;
    while k < monitors.len()
        invariant
            k <= monitors@.len(),
            dst.wf(),
            dst.width == old(dst).width,
            dst.height == old(dst).height,
            d0 == old(dst).data@,
            wi == old(dst).width as int,
            hi == old(dst).height as int,
            image.wf(),
            forall|j: int| 0 <= j < monitors@.len()
                ==> (#[trigger] monitors@[j]).fits(image.width as int, image.height as int),
            dst.data@ == apply_monitors_upto(
                d0,
                wi,
                hi,
                image.data@,
                image.width as int,
                image.height as int,
                monitors@,
                *p,
                ignored@,
                invert,
                k as int,
            ),
        decreases monitors@.len() - k,
    {
        let m: MonitorDescriptor = monitors[k];
        if m.active && !contains_index(ignored, m.index) {
            let offs: (isize, isize) = resolve_offsets(p, &m, image.width, image.height);
            overlay(dst, image, offs.0, offs.1, invert);
        }
        k += 1;
    }
}

} // verus!
