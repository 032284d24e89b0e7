use image::Pixel;
use vstd::prelude::*;

verus! {

/// Luma of an 8-bit sRGB color, as the image library computes it: the
/// weighted sum `0.2126·R + 0.7152·G + 0.0722·B`, truncated.
pub open spec fn luma(r: u8, g: u8, b: u8) -> u8 {
    ((2126 * r + 7152 * g + 722 * b) / 10000) as u8
}

/// Relies on image's `Pixel::to_luma` for `Rgba<u8>`, which takes
/// `(2126·r + 7152·g + 722·b) / 10000` and ignores alpha.
#[verifier::external_body]
fn rgba_to_luma(r: u8, g: u8, b: u8, a: u8) -> (l: u8)
    ensures
        l == luma(r, g, b),
{
    image::Rgba([r, g, b, a]).to_luma().0[0]
}

/// `rgba` holds exactly `width × height` quads, and where the source has no
/// alpha channel every quad is opaque.
pub open spec fn layout_ok(width: u32, height: u32, rgba: Seq<u8>, has_alpha: bool) -> bool {
    &&& rgba.len() == 4 * (width as nat * height as nat)
    &&& rgba.len() <= usize::MAX
    &&& !has_alpha ==> forall|i: int|
        0 <= i < width as nat * height as nat ==> #[trigger] rgba[4 * i + 3] == 255
}

/// A decoded image: `width × height` RGBA quads in row-major order, plus
/// what the decoder reported of the source's color type.
pub struct PixelBuffer {
    pub width: u32,
    pub height: u32,
    pub rgba: Vec<u8>,
    /// The source color type carries an alpha channel.
    pub has_alpha: bool,
    /// The source color type carries color (not only gray levels).
    pub has_color: bool,
    /// Bits per pixel of the source color type.
    pub bits_per_pixel: u16,
}

impl PixelBuffer {
    pub open spec fn num_pixels(&self) -> nat {
        self.width as nat * self.height as nat
    }

    pub open spec fn red(&self, i: int) -> u8 {
        self.rgba@[4 * i]
    }

    pub open spec fn green(&self, i: int) -> u8 {
        self.rgba@[4 * i + 1]
    }

    pub open spec fn blue(&self, i: int) -> u8 {
        self.rgba@[4 * i + 2]
    }

    pub open spec fn alpha(&self, i: int) -> u8 {
        self.rgba@[4 * i + 3]
    }

    pub open spec fn luma(&self, i: int) -> u8 {
        luma(self.red(i), self.green(i), self.blue(i))
    }

    /// Every pixel is fully opaque.
    pub open spec fn opaque(&self) -> bool {
        forall|i: int| 0 <= i < self.num_pixels() ==> #[trigger] self.alpha(i) == 255
    }

    /// Four bytes per pixel; a source without an alpha channel yields only
    /// opaque pixels.
    pub open spec fn wf(&self) -> bool {
        layout_ok(self.width, self.height, self.rgba@, self.has_alpha)
    }

    /// Builds a buffer, or `None` where the bytes do not hold exactly
    /// `width × height` quads, or a source without an alpha channel has a
    /// translucent pixel.
    pub fn new(
        width: u32,
        height: u32,
        rgba: Vec<u8>,
        has_alpha: bool,
        has_color: bool,
        bits_per_pixel: u16,
    ) -> (r: Option<PixelBuffer>)
        ensures
            r is Some <==> layout_ok(width, height, rgba@, has_alpha),
            r matches Some(b) ==> b.width == width && b.height == height && b.rgba@ == rgba@
                && b.has_alpha == has_alpha && b.has_color == has_color && b.bits_per_pixel
                == bits_per_pixel,
    {
        let w: u128 = width as u128;
        let h: u128 = height as u128;
        assert(w * h <= 0xffff_ffff * 0xffff_ffff) by (nonlinear_arith)
            requires
                w <= 0xffff_ffff,
                h <= 0xffff_ffff,
        ;
        let len: usize = rgba.len();
        if len as u128 != 4 * (w * h) {
            return None;
        }
        if !has_alpha {
            let n: usize = len / 4;
            let mut i: usize = 0;
            while i < n
                invariant
                    !has_alpha,
                    rgba@.len() == len,
                    len == 4 * (width as nat * height as nat),
                    n == width as nat * height as nat,
                    i <= n,
                    forall|j: int| 0 <= j < i ==> #[trigger] rgba@[4 * j + 3] == 255,
                decreases n - i,
            {
                if rgba[4 * i + 3] != 255 {
                    assert(rgba@[4 * (i as int) + 3] != 255);
                    return None;
                }
                i = i + 1;
            }
        }
        Some(PixelBuffer { width, height, rgba, has_alpha, has_color, bits_per_pixel })
    }

    /// Luma of pixel `i`.
    pub fn luma_at(&self, i: usize) -> (l: u8)
        requires
            self.wf(),
            i < self.num_pixels(),
        ensures
            l == self.luma(i as int),
    {
        let len: usize = self.rgba.len();
        assert(4 * i + 3 < len);
        rgba_to_luma(self.rgba[4 * i], self.rgba[4 * i + 1], self.rgba[4 * i + 2], self.rgba[4 * i + 3])
    }

    /// The number of pixels, `width × height`.
    pub fn pixel_count(&self) -> (n: usize)
        requires
            self.wf(),
        ensures
            n == self.num_pixels(),
            4 * n <= usize::MAX,
    {
        self.rgba.len() / 4
    }
}

} // verus!
