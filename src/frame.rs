use crate::geometry::PixColor;
use vstd::prelude::*;

verus! {

/// Position of pixel `(x, y)` in a row-major buffer `w` pixels wide.
pub open spec fn pixel_index(w: int, x: int, y: int) -> int {
    y * w + x
}

/// The frame the renderer paints into: `height` rows of `width` pixels,
/// row-major, row 0 at the bottom of the screen.
pub struct PixelBuffer {
    pub width: u32,
    pub height: u32,
    pub pixels: Vec<PixColor>,
}

impl PixelBuffer {
    /// The pixel store holds exactly one colour per pixel.
    pub open spec fn wf(&self) -> bool {
        self.pixels@.len() == self.width as int * self.height as int
    }

    /// The colour at `(x, y)`.
    pub open spec fn at(&self, x: int, y: int) -> PixColor {
        self.pixels@[pixel_index(self.width as int, x, y)]
    }

    /// A `width` by `height` buffer filled with `color`.
    pub fn new(width: u32, height: u32, color: PixColor) -> (r: PixelBuffer)
        requires
            width as int * height as int <= usize::MAX,
        ensures
            r.wf(),
            r.width == width,
            r.height == height,
            forall|i: int| 0 <= i < r.pixels@.len() ==> r.pixels@[i] == color,
    {
        let n: usize = (width as usize) * (height as usize);
        let mut pixels: Vec<PixColor> = Vec::with_capacity(n);
        let mut i: usize = 0;
        while i < n
            invariant
                i <= n,
                pixels@.len() == i,
                forall|k: int| 0 <= k < i ==> pixels@[k] == color,
            decreases n - i,
        {
            pixels.push(color);
            i += 1;
        }
        PixelBuffer { width, height, pixels }
    }

    pub fn width(&self) -> (r: u32)
        ensures
            r == self.width,
    {
        self.width
    }

    pub fn height(&self) -> (r: u32)
        ensures
            r == self.height,
    {
        self.height
    }

    /// Paints every pixel `color`.
    pub fn clear(&mut self, color: PixColor)
        ensures
            final(self).width == old(self).width,
            final(self).height == old(self).height,
            final(self).pixels@.len() == old(self).pixels@.len(),
            forall|i: int| 0 <= i < final(self).pixels@.len() ==> final(self).pixels@[i] == color,
    {
        let n = self.pixels.len();
        let mut i: usize = 0;
        while i < n
            invariant
                i <= n,
                n == self.pixels@.len(),
                self.width == old(self).width,
                self.height == old(self).height,
                n == old(self).pixels@.len(),
                forall|k: int| 0 <= k < i ==> self.pixels@[k] == color,
            decreases n - i,
        {
            self.pixels.set(i, color);
            i += 1;
        }
    }

    /// Paints `(x, y)` with `color`; a position outside the frame changes
    /// nothing.
    pub fn set_pixel(&mut self, x: u32, y: u32, color: PixColor)
        requires
            old(self).wf(),
        ensures
            final(self).width == old(self).width,
            final(self).height == old(self).height,
            final(self).pixels@ == if x < old(self).width && y < old(self).height {
                old(self).pixels@.update(
                    pixel_index(old(self).width as int, x as int, y as int),
                    color,
                )
            } else {
                old(self).pixels@
            },
    {
        if x < self.width && y < self.height {
            let len = self.pixels.len();
            proof {
                lemma_index_in_frame(self.width as int, self.height as int, x as int, y as int);
                assert(y as int * self.width as int <= pixel_index(self.width as int, x as int, y as int));
                assert(pixel_index(self.width as int, x as int, y as int) < len);
            }
            let i = (y as usize) * (self.width as usize) + (x as usize);
            self.pixels.set(i, color);
        }
    }

    /// The colour at `(x, y)`, if that position lies in the frame.
    pub fn get_pixel(&self, x: u32, y: u32) -> (r: Option<PixColor>)
        requires
            self.wf(),
        ensures
            r == if x < self.width && y < self.height {
                Some(self.at(x as int, y as int))
            } else {
                None::<PixColor>
            },
    {
        if x < self.width && y < self.height {
            let len = self.pixels.len();
            proof {
                lemma_index_in_frame(self.width as int, self.height as int, x as int, y as int);
                assert(y as int * self.width as int <= pixel_index(self.width as int, x as int, y as int));
                assert(pixel_index(self.width as int, x as int, y as int) < len);
            }
            let i = (y as usize) * (self.width as usize) + (x as usize);
            Some(self.pixels[i])
        } else {
            None
        }
    }
}

/// A position inside a `w` by `h` frame has an index below `w * h`.
pub proof fn lemma_index_in_frame(w: int, h: int, x: int, y: int)
    requires
        0 <= x < w,
        0 <= y < h,
    ensures
        0 <= pixel_index(w, x, y) < w * h,
{
    assert(0 <= y * w + x < w * h) by (nonlinear_arith)
        requires
            0 <= x < w,
            0 <= y < h,
    ;
}


/// Index `pixel_index(w, x, y)` names column `x` and row `y`.
pub proof fn lemma_coords_of_index(w: int, x: int, y: int)
    requires
        0 <= x < w,
        0 <= y,
    ensures
        pixel_index(w, x, y) % w == x,
        pixel_index(w, x, y) / w == y,
{
    vstd::arithmetic::div_mod::lemma_fundamental_div_mod_converse(y * w + x, w, y, x);
}

/// Every index is the pixel index of its column `k % w` and row `k / w`.
pub proof fn lemma_index_of_coords(w: int, h: int, k: int)
    requires
        w > 0,
        0 <= k < w * h,
    ensures
        k == pixel_index(w, k % w, k / w),
        0 <= k % w < w,
        0 <= k / w < h,
{
    vstd::arithmetic::div_mod::lemma_fundamental_div_mod(k, w);
    vstd::arithmetic::div_mod::lemma_mod_bound(k, w);
    vstd::arithmetic::div_mod::lemma_div_pos_is_pos(k, w);
    assert(k / w < h) by (nonlinear_arith)
        requires
            k == w * (k / w) + k % w,
            0 <= k % w,
            k < w * h,
            w > 0,
    ;
    assert(w * (k / w) == (k / w) * w) by (nonlinear_arith);
}

} // verus!
