use vstd::prelude::*;

use crate::bits::bit_at;
use crate::color::Color;
use crate::stamp::Stamp;

verus! {

/// Pixel `k` of a stamp in row-major order: `(k mod width, k / width, color)`.
pub open spec fn pixel_at(s: Stamp, k: int) -> (usize, usize, Color) {
    let x = k % (s.spec_width() as int);
    let y = k / (s.spec_width() as int);
    (x as usize, y as usize, s.color_at(x, y))
}

/// Iterator over the pixels of a [`Stamp`], row by row, left to right.
pub struct Pixels<'a> {
    stamp: &'a Stamp,
    index: usize,
}

impl<'a> Pixels<'a> {
    #[verifier::type_invariant]
    spec fn well_formed(self) -> bool {
        self.index <= self.stamp.spec_pixel_count()
    }

    /// The stamp being walked.
    pub closed spec fn source(&self) -> Stamp {
        *self.stamp
    }

    /// How many pixels have been produced so far.
    pub closed spec fn position(&self) -> nat {
        self.index as nat
    }

    pub(crate) fn new(stamp: &'a Stamp) -> (it: Pixels<'a>)
        ensures
            it.source() == *stamp,
            it.position() == 0,
    {
        Pixels { stamp, index: 0 }
    }

    /// Number of pixels still to come.
    pub fn len(&self) -> (r: usize)
        ensures
            r == self.source().spec_pixel_count() - self.position(),
    {
        proof {
            use_type_invariant(self);
        }
        self.stamp.pixel_count() - self.index
    }

    /// The next pixel `(x, y, color)`, or `None` once all `width * height`
    /// pixels have been produced; an exhausted iterator stays exhausted.
    pub fn next(&mut self) -> (r: Option<(usize, usize, Color)>)
        ensures
            final(self).source() == old(self).source(),
            old(self).position() < old(self).source().spec_pixel_count() ==> {
                &&& r == Some(pixel_at(old(self).source(), old(self).position() as int))
                &&& final(self).position() == old(self).position() + 1
            },
            old(self).position() >= old(self).source().spec_pixel_count() ==> {
                &&& r is None
                &&& final(self).position() == old(self).position()
            },
    {
        proof {
            use_type_invariant(&*self);
        }
        let count = self.stamp.pixel_count();
        if self.index >= count {
            return None;
        }
        let w = self.stamp.width();
        let h = self.stamp.height();
        let i = self.index;
        let x = i % w;
        let y = i / w;
        proof {
            let (wi, hi, ii) = (w as int, h as int, i as int);
            assert(wi > 0) by (nonlinear_arith)
                requires
                    0 <= ii < wi * hi,
                    wi >= 0,
                    hi >= 0,
            ;
            assert(0 <= y < hi) by (nonlinear_arith)
                requires
                    0 <= ii < wi * hi,
                    wi > 0,
                    y == ii / wi,
            ;
        }
        let c = self.stamp.get_color_unchecked(x, y);
        self.index = i + 1;
        Some((x, y, c))
    }
}

/// Pixels come in row-major order: of two pixels, the earlier one lies in an
/// earlier row, or in the same row further left; every produced coordinate is
/// within bounds.
pub proof fn lemma_pixel_order(s: Stamp, k1: int, k2: int)
    requires
        0 <= k1 < k2 < s.spec_pixel_count(),
    ensures
        s.in_bounds(pixel_at(s, k1).0 as int, pixel_at(s, k1).1 as int),
        s.in_bounds(pixel_at(s, k2).0 as int, pixel_at(s, k2).1 as int),
        pixel_at(s, k1).1 < pixel_at(s, k2).1 || (pixel_at(s, k1).1 == pixel_at(s, k2).1
            && pixel_at(s, k1).0 < pixel_at(s, k2).0),
{
    let w = s.spec_width() as int;
    let h = s.spec_height() as int;
    assert(w > 0) by (nonlinear_arith)
        requires
            0 <= k2 < w * h,
            w >= 0,
            h >= 0,
    ;
    lemma_row_major_index(w, h, k1);
    lemma_row_major_index(w, h, k2);
    let (x1, y1, x2, y2) = (k1 % w, k1 / w, k2 % w, k2 / w);
    assert(y1 < y2 || (y1 == y2 && x1 < x2)) by (nonlinear_arith)
        requires
            w > 0,
            k1 < k2,
            k1 == y1 * w + x1,
            k2 == y2 * w + x2,
            0 <= x1 < w,
            0 <= x2 < w,
    ;
}

/// Every in-bounds coordinate `(x, y)` is produced exactly at position
/// `y * width + x`, with its color.
pub proof fn lemma_pixel_index(s: Stamp, x: int, y: int)
    requires
        s.in_bounds(x, y),
    ensures
        0 <= y * s.spec_width() + x < s.spec_pixel_count(),
        pixel_at(s, y * s.spec_width() + x) == (x as usize, y as usize, s.color_at(x, y)),
{
    let w = s.spec_width() as int;
    let h = s.spec_height() as int;
    let k = y * w + x;
    assert(0 <= k < w * h) by (nonlinear_arith)
        requires
            0 <= x < w,
            0 <= y < h,
            k == y * w + x,
    ;
    vstd::arithmetic::div_mod::lemma_fundamental_div_mod_converse(k, w, y, x);
}

/// Two stamps of the same size whose bytes agree on every pixel bit, whatever
/// their trailing bits hold, answer every lookup alike and produce the same
/// pixels.
pub proof fn lemma_padding_ignored(a: Stamp, b: Stamp)
    requires
        a.spec_width() == b.spec_width(),
        a.spec_height() == b.spec_height(),
        forall|k: int|
            0 <= k < a.spec_pixel_count() ==> #[trigger] bit_at(a.spec_bytes(), k) == bit_at(
                b.spec_bytes(),
                k,
            ),
    ensures
        forall|x: int, y: int| #[trigger] a.checked_color_at(x, y) == b.checked_color_at(x, y),
        forall|k: int| 0 <= k < a.spec_pixel_count() ==> #[trigger] pixel_at(a, k) == pixel_at(b, k),
{
    let w = a.spec_width() as int;
    let h = a.spec_height() as int;
    assert forall|x: int, y: int| a.in_bounds(x, y) implies #[trigger] a.color_at(x, y) == b.color_at(x, y) by {
        let k = y * w + x;
        assert(0 <= k < w * h) by (nonlinear_arith)
            requires
                0 <= x < w,
                0 <= y < h,
                k == y * w + x,
        ;
        assert(bit_at(a.spec_bytes(), k) == bit_at(b.spec_bytes(), k));
    }
    assert forall|x: int, y: int| #[trigger] a.checked_color_at(x, y) == b.checked_color_at(x, y) by {
        if a.in_bounds(x, y) {
            assert(a.color_at(x, y) == b.color_at(x, y));
        }
    }
    assert forall|k: int| 0 <= k < a.spec_pixel_count() implies #[trigger] pixel_at(a, k) == pixel_at(b, k) by {
        assert(w > 0) by (nonlinear_arith)
            requires
                0 <= k < w * h,
                w >= 0,
                h >= 0,
        ;
        lemma_row_major_index(w, h, k);
        assert(a.color_at(k % w, k / w) == b.color_at(k % w, k / w));
    }
}

proof fn lemma_row_major_index(w: int, h: int, k: int)
    requires
        w > 0,
        0 <= k < w * h,
    ensures
        0 <= k % w < w,
        0 <= k / w < h,
        k == (k / w) * w + k % w,
{
    assert(0 <= k / w < h) by (nonlinear_arith)
        requires
            0 <= k < w * h,
            w > 0,
    ;
    vstd::arithmetic::div_mod::lemma_fundamental_div_mod(k, w);
}

} // verus!
