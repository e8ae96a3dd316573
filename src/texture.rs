use crate::geometry::PixColor;
use vstd::prelude::*;

verus! {

/// A decoded image used to paint walls: `height` rows of `width` texels,
/// stored bottom row last, four channels (red, green, blue, alpha) of
/// `channel_bytes` bytes each. Of a two-byte channel the second byte, its
/// high byte, is used.
pub struct Texture {
    pub width: u32,
    pub height: u32,
    pub channel_bytes: u32,
    pub data: Vec<u8>,
}

impl Texture {
    pub open spec fn wf(&self) -> bool {
        &&& self.width >= 1
        &&& self.height >= 1
        &&& (self.channel_bytes == 1 || self.channel_bytes == 2)
        &&& self.data@.len() == self.width as int * self.height as int * 4
            * self.channel_bytes as int
    }

    /// Byte offset of texel `(u, v)`, both wrapped to the image.
    pub open spec fn texel_base(&self, u: int, v: int) -> int {
        let row = self.height as int - 1 - v % (self.height as int);
        (row * self.width as int + u % (self.width as int)) * 4 * self.channel_bytes as int
    }

    /// Channel `c` of texel `(u, v)`.
    pub open spec fn channel(&self, u: int, v: int, c: int) -> u8 {
        let cb = self.channel_bytes as int;
        self.data@[self.texel_base(u, v) + c * cb + cb - 1]
    }

    /// The opaque colour of texel `(u, v)`.
    pub open spec fn texel(&self, u: int, v: int) -> PixColor {
        PixColor(self.channel(u, v, 0), self.channel(u, v, 1), self.channel(u, v, 2), 255)
    }

    /// A texture over `data`, or `None` when the sizes do not match or a
    /// dimension is zero.
    pub fn new(width: u32, height: u32, channel_bytes: u32, data: Vec<u8>) -> (r: Option<Texture>)
        ensures
            r is Some <==> (width >= 1 && height >= 1 && (channel_bytes == 1 || channel_bytes
                == 2) && data@.len() == width as int * height as int * 4 * channel_bytes as int),
            r matches Some(t) ==> t.wf() && t.width == width && t.height == height
                && t.channel_bytes == channel_bytes && t.data@ == data@,
    {
        if width == 0 || height == 0 || (channel_bytes != 1 && channel_bytes != 2) {
            return None;
        }
        proof {
            assert(width as int * height as int <= 0xffff_ffff * 0xffff_ffffint) by (nonlinear_arith)
                requires
                    width <= 0xffff_ffffu32,
                    height <= 0xffff_ffffu32,
            ;
        }
        let n: u128 = (width as u128) * (height as u128) * 4 * (channel_bytes as u128);
        if data.len() as u128 != n {
            return None;
        }
        Some(Texture { width, height, channel_bytes, data })
    }

    /// The colour of texel `(u, v)`, coordinates wrapped to the image.
    pub fn sample(&self, u: u64, v: u64) -> (r: PixColor)
        requires
            self.wf(),
        ensures
            r == self.texel(u as int, v as int),
    {
        let w = self.width as u64;
        let h = self.height as u64;
        let cb = self.channel_bytes as usize;
        let row = h - 1 - v % h;
        let col = u % w;
        let len = self.data.len();
        proof {
            let n = self.width as int * self.height as int;
            assert(0 <= row * self.width + col <= n - 1) by (nonlinear_arith)
                requires
                    0 <= row < self.height,
                    0 <= col < self.width,
                    n == self.width as int * self.height as int,
            ;
            assert((row * self.width + col) * 4 * cb + 3 * cb <= n * 4 * cb) by (nonlinear_arith)
                requires
                    0 <= row * self.width + col <= n - 1,
                    1 <= cb <= 2,
            ;
            assert(row * self.width <= row * self.width + col);
            assert((row * self.width + col) <= (row * self.width + col) * 4 * cb) by (nonlinear_arith)
                requires
                    0 <= row * self.width + col,
                    1 <= cb,
            ;
            assert((row * self.width + col) * 4 <= (row * self.width + col) * 4 * cb) by (nonlinear_arith)
                requires
                    0 <= row * self.width + col,
                    1 <= cb,
            ;
        }
        let base = ((row as usize) * (self.width as usize) + (col as usize)) * 4 * cb;
        let r = self.data[base + cb - 1];
        let g = self.data[base + cb + cb - 1];
        let b = self.data[base + 2 * cb + cb - 1];
        PixColor(r, g, b, 255)
    }
}

} // verus!
