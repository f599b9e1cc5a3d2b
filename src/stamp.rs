use vstd::prelude::*;

use crate::bits::{bit_mask, color_at_index, packed_len, packs, quantized_all};
use crate::color::Color;
use crate::data::Data;
use crate::iter::Pixels;

verus! {

/// Rectangular, 1-bit, raster image.
///
/// A stamp holds its width, its height and a reference to a byte array in
/// which pixel `(x, y)` is bit `y * width + x`, packed most significant bit
/// first. Coordinate `(0, 0)` is the top-left corner.
#[derive(Debug, Clone, Copy)]
pub struct Stamp {
    width: usize,
    height: usize,
    data: Data,
}

impl Stamp {
    #[verifier::type_invariant]
    spec fn well_formed(self) -> bool {
        &&& self.width * self.height <= usize::MAX
        &&& self.data@.len() >= packed_len((self.width * self.height) as nat)
    }

    /// Number of pixel columns.
    pub closed spec fn spec_width(&self) -> usize {
        self.width
    }

    /// Number of pixel rows.
    pub closed spec fn spec_height(&self) -> usize {
        self.height
    }

    /// The packed pixel bytes.
    pub closed spec fn spec_bytes(&self) -> Seq<u8> {
        self.data@
    }

    /// Number of pixels.
    pub open spec fn spec_pixel_count(&self) -> nat {
        self.spec_width() as nat * self.spec_height() as nat
    }

    /// Whether `(x, y)` lies inside the image.
    pub open spec fn in_bounds(&self, x: int, y: int) -> bool {
        0 <= x < self.spec_width() && 0 <= y < self.spec_height()
    }

    /// Color of pixel `(x, y)`, read from bit `y * width + x` of the bytes.
    pub open spec fn color_at(&self, x: int, y: int) -> Color {
        color_at_index(self.spec_bytes(), y * self.spec_width() + x)
    }

    /// The color at `(x, y)` if it lies inside the image, else nothing.
    pub open spec fn checked_color_at(&self, x: int, y: int) -> Option<Color> {
        if self.in_bounds(x, y) {
            Some(self.color_at(x, y))
        } else {
            None
        }
    }

    /// Size of the stamp in pixels: width and height.
    pub fn size(&self) -> (r: [usize; 2])
        ensures
            r@ == seq![self.spec_width(), self.spec_height()],
    {
        let r = [self.width, self.height];
        assert(r@ =~= seq![self.width, self.height]);
        r
    }

    /// Width of the stamp in pixels.
    pub fn width(&self) -> (r: usize)
        ensures
            r == self.spec_width(),
    {
        self.width
    }

    /// Height of the stamp in pixels.
    pub fn height(&self) -> (r: usize)
        ensures
            r == self.spec_height(),
    {
        self.height
    }

    /// Number of pixels in the stamp.
    pub fn pixel_count(&self) -> (r: usize)
        ensures
            r == self.spec_pixel_count(),
    {
        proof {
            use_type_invariant(self);
        }
        self.width * self.height
    }

    /// Checks if a coordinate is within the bounds of the image.
    pub fn is_within_bounds(&self, x: usize, y: usize) -> (r: bool)
        ensures
            r == self.in_bounds(x as int, y as int),
    {
        x < self.width && y < self.height
    }

    /// Iterator over all pixels, `x` varying fastest, then `y`.
    pub fn pixels(&self) -> (it: Pixels<'_>)
        ensures
            it.source() == *self,
            it.position() == 0,
    {
        Pixels::new(self)
    }

    /// The color at `(x, y)`, which must be within bounds.
    pub fn get_color(&self, x: usize, y: usize) -> (c: Color)
        requires
            self.in_bounds(x as int, y as int),
        ensures
            c == self.color_at(x as int, y as int),
    {
        self.get_color_checked(x, y).expect("get_color: coordinate outside the stamp")
    }

    /// The color at `(x, y)`, or `None` if the coordinate is out of bounds.
    pub fn get_color_checked(&self, x: usize, y: usize) -> (c: Option<Color>)
        ensures
            c == self.checked_color_at(x as int, y as int),
    {
        if !self.is_within_bounds(x, y) {
            return None;
        }
        Some(self.get_color_unchecked(x, y))
    }

    /// The color at `(x, y)` without a bounds test; the caller guarantees
    /// that the coordinate is within bounds.
    pub fn get_color_unchecked(&self, x: usize, y: usize) -> (c: Color)
        requires
            self.in_bounds(x as int, y as int),
        ensures
            c == self.color_at(x as int, y as int),
    {
        proof {
            use_type_invariant(self);
            let w = self.width as int;
            let h = self.height as int;
            assert(y * w + x < w * h) by (nonlinear_arith)
                requires
                    0 <= x < w,
                    0 <= y < h,
            ;
        }
        let idx = y * self.width + x;
        let byte = self.data.get_unchecked(idx / 8);
        let mask = 0b1000_0000u8 >> ((idx % 8) as u8);
        assert(mask == bit_mask(idx as int));
        if byte & mask != 0 {
            Color::White
        } else {
            Color::Black
        }
    }

    /// Constructs a stamp over `data`, which holds the pixels bit-packed as
    /// described on [`Stamp`]: at least `ceil(width * height / 8)` bytes.
    /// Bits after the `width * height`-th are ignored.
    pub fn from_raw(width: usize, height: usize, data: &'static [u8]) -> (s: Stamp)
        requires
            width * height <= usize::MAX,
            data@.len() >= packed_len((width * height) as nat),
        ensures
            s.spec_width() == width,
            s.spec_height() == height,
            s.spec_bytes() == data@,
    {
        Stamp { width, height, data: Data::from_raw(data) }
    }
}

/// A source pixel that is pure opaque black or pure opaque white.
pub open spec fn is_bilevel(p: (u8, u8, u8, u8)) -> bool {
    p == (0u8, 0u8, 0u8, 255u8) || p == (255u8, 255u8, 255u8, 255u8)
}

/// The color a bilevel source pixel stands for.
pub open spec fn bilevel_color(p: (u8, u8, u8, u8)) -> Color {
    if p == (255u8, 255u8, 255u8, 255u8) {
        Color::White
    } else {
        Color::Black
    }
}

/// A coordinate is within bounds exactly when the checked lookup finds a color.
pub proof fn lemma_bounds_symmetry(s: Stamp, x: int, y: int)
    ensures
        s.in_bounds(x, y) <==> s.checked_color_at(x, y) is Some,
        !s.in_bounds(x, y) ==> s.checked_color_at(x, y) is None,
{
}

/// Packing an image made only of pure black and pure white opaque pixels,
/// then reading it through a stamp of the same size, gives back every
/// pixel's original color.
pub proof fn lemma_round_trip(pixels: Seq<(u8, u8, u8, u8)>, s: Stamp)
    requires
        forall|i: int| 0 <= i < pixels.len() ==> is_bilevel(#[trigger] pixels[i]),
        pixels.len() == s.spec_pixel_count(),
        packs(s.spec_bytes(), quantized_all(pixels)),
    ensures
        forall|x: int, y: int|
            s.in_bounds(x, y) ==> #[trigger] s.checked_color_at(x, y) == Some(
                bilevel_color(pixels[y * s.spec_width() + x]),
            ),
{
    let w = s.spec_width() as int;
    let h = s.spec_height() as int;
    assert forall|x: int, y: int| s.in_bounds(x, y) implies #[trigger] s.checked_color_at(x, y)
        == Some(bilevel_color(pixels[y * s.spec_width() + x])) by {
        let k = y * w + x;
        assert(0 <= k < w * h) by (nonlinear_arith)
            requires
                0 <= x < w,
                0 <= y < h,
                k == y * w + x,
        ;
        assert(is_bilevel(pixels[k]));
        assert(quantized_all(pixels)[k] == crate::color::quantized(
            pixels[k].0,
            pixels[k].1,
            pixels[k].2,
            pixels[k].3,
        ));
        assert(crate::bits::bit_at(s.spec_bytes(), k) == (quantized_all(pixels)[k] == Color::White));
    }
}

} // verus!
