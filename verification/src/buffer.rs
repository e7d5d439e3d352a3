//! The pixel grid the pipeline owns, and the index arithmetic every stage
//! shares.

use vstd::prelude::*;
use vstd::arithmetic::div_mod::lemma_fundamental_div_mod;
use vstd::arithmetic::div_mod::lemma_fundamental_div_mod_converse;

verus! {

/// A rectangular grid of 4-byte B,G,R,A pixels, stored row-major with no
/// padding: byte `(y * width + x) * 4 + c` is channel `c` of pixel `(x, y)`,
/// with `c == 0, 1, 2` the color channels and `c == 3` the alpha channel.
pub struct PixelBuffer {
    pub width: usize,
    pub height: usize,
    pub data: Vec<u8>,
}

/// A decoded icon in the same 4-byte layout, read but never written.
pub struct OverlayImage {
    pub width: usize,
    pub height: usize,
    pub data: Vec<u8>,
}

/// Channel `c` of pixel `(x, y)` in a row-major B,G,R,A byte sequence whose
/// rows are `w` pixels long.
pub open spec fn chan_of(d: Seq<u8>, w: int, x: int, y: int, c: int) -> u8 {
    d[(y * w + x) * 4 + c]
}

/// The byte sequence of a `w` by `h` grid whose channel `c` of pixel `(x, y)`
/// is `f(x, y, c)`.
pub open spec fn grid_data(w: int, h: int, f: spec_fn(int, int, int) -> u8) -> Seq<u8> {
    Seq::new((w * h * 4) as nat, |i: int| f((i / 4) % w, (i / 4) / w, i % 4))
}

impl PixelBuffer {
    /// The buffer invariant: exactly `width * height * 4` bytes.
    pub open spec fn wf(&self) -> bool {
        self.data@.len() == self.width * self.height * 4
    }

    /// Channel `c` of pixel `(x, y)`.
    pub open spec fn chan(&self, x: int, y: int, c: int) -> u8 {
        chan_of(self.data@, self.width as int, x, y, c)
    }

    /// Byte index of channel `c` of pixel `(x, y)`.
    pub fn index_of(&self, x: usize, y: usize, c: usize) -> (i: usize)
        requires
            self.wf(),
            x < self.width,
            y < self.height,
            c < 4,
        ensures
            i == (y * self.width + x) * 4 + c,
            i < self.data@.len(),
    {
        let _total: usize = self.data.len();
        proof {
            lemma_pixel_index_bound(self.width as int, self.height as int, x as int, y as int, c as int);
        }
        (y * self.width + x) * 4 + c
    }
}

impl OverlayImage {
    /// The image invariant: exactly `width * height * 4` bytes.
    pub open spec fn wf(&self) -> bool {
        self.data@.len() == self.width * self.height * 4
    }

    /// Channel `c` of pixel `(x, y)`.
    pub open spec fn chan(&self, x: int, y: int, c: int) -> u8 {
        chan_of(self.data@, self.width as int, x, y, c)
    }

    /// Byte index of channel `c` of pixel `(x, y)`.
    pub fn index_of(&self, x: usize, y: usize, c: usize) -> (i: usize)
        requires
            self.wf(),
            x < self.width,
            y < self.height,
            c < 4,
        ensures
            i == (y * self.width + x) * 4 + c,
            i < self.data@.len(),
    {
        let _total: usize = self.data.len();
        proof {
            lemma_pixel_index_bound(self.width as int, self.height as int, x as int, y as int, c as int);
        }
        (y * self.width + x) * 4 + c
    }
}

/// The byte index of an in-bounds channel is itself in bounds, and so is
/// every intermediate value of its computation.
pub proof fn lemma_pixel_index_bound(w: int, h: int, x: int, y: int, c: int)
    requires
        0 <= x < w,
        0 <= y < h,
        0 <= c < 4,
    ensures
        0 <= (y * w + x) * 4 + c < w * h * 4,
        0 <= y * w,
        y * w + x < w * h,
        w * h <= w * h * 4,
        (y * w + x) * 4 < w * h * 4,
{
    assert(0 <= (y * w + x) * 4 + c < w * h * 4 && 0 <= y * w && y * w + x < w * h
        && w * h <= w * h * 4 && (y * w + x) * 4 < w * h * 4) by (nonlinear_arith)
        requires
            0 <= x < w,
            0 <= y < h,
            0 <= c < 4,
    ;
}

/// A byte index splits uniquely into a pixel coordinate and a channel.
pub proof fn lemma_index_decomp(w: int, h: int, i: int)
    requires
        w >= 1,
        h >= 1,
        0 <= i < w * h * 4,
    ensures
        0 <= i % 4 < 4,
        0 <= (i / 4) % w < w,
        0 <= (i / 4) / w < h,
        (((i / 4) / w) * w + ((i / 4) % w)) * 4 + (i % 4) == i,
{
    lemma_fundamental_div_mod(i, 4);
    lemma_fundamental_div_mod(i / 4, w);
    let q4 = i / 4;
    let r4 = i % 4;
    let qw = q4 / w;
    let rw = q4 % w;
    assert(0 <= r4 < 4) by (nonlinear_arith)
        requires i >= 0, r4 == i % 4,
    ;
    assert(0 <= rw < w) by (nonlinear_arith)
        requires q4 >= 0, w >= 1, rw == q4 % w,
    ;
    assert(q4 < w * h) by (nonlinear_arith)
        requires 0 <= i < w * h * 4, i == 4 * q4 + r4, 0 <= r4 < 4,
    ;
    assert(0 <= qw < h) by (nonlinear_arith)
        requires w >= 1, h >= 1, 0 <= q4, q4 < w * h, q4 == w * qw + rw, 0 <= rw < w,
    ;
    assert((qw * w + rw) * 4 + r4 == i) by (nonlinear_arith)
        requires i == 4 * q4 + r4, q4 == w * qw + rw,
    ;
}

/// A pixel coordinate and channel recover themselves from their byte index.
pub proof fn lemma_index_comp(w: int, h: int, x: int, y: int, c: int)
    requires
        0 <= x < w,
        0 <= y < h,
        0 <= c < 4,
    ensures
        ((y * w + x) * 4 + c) % 4 == c,
        (((y * w + x) * 4 + c) / 4) % w == x,
        (((y * w + x) * 4 + c) / 4) / w == y,
{
    let p = y * w + x;
    let i = p * 4 + c;
    lemma_fundamental_div_mod_converse(i, 4, p, c);
    lemma_fundamental_div_mod_converse(p, w, y, x);
}

/// A sequence that agrees with `f` channel by channel is `grid_data(w, h, f)`.
pub proof fn lemma_grid_data_matches(d: Seq<u8>, w: int, h: int, f: spec_fn(int, int, int) -> u8)
    requires
        w >= 1,
        h >= 1,
        d.len() == w * h * 4,
        forall|x: int, y: int, c: int|
            0 <= x < w && 0 <= y < h && 0 <= c < 4 ==> chan_of(d, w, x, y, c) == f(x, y, c),
    ensures
        d == grid_data(w, h, f),
{
    let g = grid_data(w, h, f);
    assert forall|i: int| 0 <= i < d.len() implies d[i] == g[i] by {
        lemma_index_decomp(w, h, i);
        let x = (i / 4) % w;
        let y = (i / 4) / w;
        let c = i % 4;
        assert(chan_of(d, w, x, y, c) == f(x, y, c));
        assert(d[(y * w + x) * 4 + c] == d[i]);
    }
    assert(d =~= g);
}

} // verus!
