//! Saturating per-channel brightening and darkening. Color channels move,
//! the alpha channel stays; saturation at 0 and 255 is deliberate and lossy.

use vstd::prelude::*;
use crate::buffer::PixelBuffer;

verus! {

/// One channel byte brightened by `amount`, clamped to 255.
pub open spec fn sat_add(c: u8, amount: u8) -> u8 {
    if c + amount > 255 {
        255u8
    } else {
        (c + amount) as u8
    }
}

/// One channel byte darkened by `amount`, clamped to 0.
pub open spec fn sat_sub(c: u8, amount: u8) -> u8 {
    if c < amount {
        0u8
    } else {
        (c - amount) as u8
    }
}

/// The buffer's bytes after brightening: every color channel saturating-added,
/// every alpha byte unchanged.
pub open spec fn brightened_data(d: Seq<u8>, amount: u8) -> Seq<u8> {
    Seq::new(d.len(), |i: int| if i % 4 < 3 { sat_add(d[i], amount) } else { d[i] })
}

/// The buffer's bytes after darkening: every color channel saturating-subtracted,
/// every alpha byte unchanged.
pub open spec fn darkened_data(d: Seq<u8>, amount: u8) -> Seq<u8> {
    Seq::new(d.len(), |i: int| if i % 4 < 3 { sat_sub(d[i], amount) } else { d[i] })
}

/// Add `amount` to the three color channels of every pixel, saturating at 255.
pub fn brighten(buf: &mut PixelBuffer, amount: u8)
    ensures
        final(buf).width == old(buf).width,
        final(buf).height == old(buf).height,
        final(buf).data@ == brightened_data(old(buf).data@, amount),
        old(buf).wf() ==> final(buf).wf(),
{
    let n: usize = buf.data.len();
    let mut i: usize = 0;
    while i < n
        invariant
            i <= n,
            n == buf.data@.len(),
            buf.data@.len() == old(buf).data@.len(),
            buf.width == old(buf).width,
            buf.height == old(buf).height,
            forall|j: int| 0 <= j < i ==>
                buf.data@[j] == (if j % 4 < 3 { sat_add(old(buf).data@[j], amount) } else { old(buf).data@[j] }),
            forall|j: int| i <= j < n ==> buf.data@[j] == old(buf).data@[j],
        decreases n - i,
    {
        if i % 4 != 3 {
            let v: u8 = buf.data[i];
            buf.data[i] = v.saturating_add(amount);
        }
        i += 1;
    }
    proof {
        assert(buf.data@ =~= brightened_data(old(buf).data@, amount));
    }
}

/// Subtract `amount` from the three color channels of every pixel, saturating
/// at 0.
pub fn darken(buf: &mut PixelBuffer, amount: u8)
    ensures
        final(buf).width == old(buf).width,
        final(buf).height == old(buf).height,
        final(buf).data@ == darkened_data(old(buf).data@, amount),
        old(buf).wf() ==> final(buf).wf(),
{
    let n: usize = buf.data.len();
    let mut i: usize = 0;
    while i < n
        invariant
            i <= n,
            n == buf.data@.len(),
            buf.data@.len() == old(buf).data@.len(),
            buf.width == old(buf).width,
            buf.height == old(buf).height,
            forall|j: int| 0 <= j < i ==>
                buf.data@[j] == (if j % 4 < 3 { sat_sub(old(buf).data@[j], amount) } else { old(buf).data@[j] }),
            forall|j: int| i <= j < n ==> buf.data@[j] == old(buf).data@[j],
        decreases n - i,
    {
        if i % 4 != 3 {
            let v: u8 = buf.data[i];
            buf.data[i] = v.saturating_sub(amount);
        }
        i += 1;
    }
    proof {
        assert(buf.data@ =~= darkened_data(old(buf).data@, amount));
    }
}

/// Saturating brighten-then-darken round trip: exact below the clamp, lossy
/// above it. A channel that did not saturate comes back unchanged; one that
/// saturated comes back as `255 - amount`, whatever it was before.
pub proof fn lemma_saturating_round_trip(c: u8, amount: u8)
    ensures
        c + amount <= 255 ==> sat_sub(sat_add(c, amount), amount) == c,
        c + amount > 255 ==> sat_sub(sat_add(c, amount), amount) == 255 - amount,
{
}

} // verus!
