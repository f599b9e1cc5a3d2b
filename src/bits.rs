use vstd::prelude::*;

use crate::color::{quantize, quantized, Color};

verus! {

/// Number of bytes that hold `n` one-bit pixels: `ceil(n / 8)`.
pub open spec fn packed_len(n: nat) -> nat {
    (n + 7) / 8
}

/// Mask selecting the bit of pixel `k` within its byte; bits are packed
/// most-significant first.
pub open spec fn bit_mask(k: int) -> u8 {
    0x80u8 >> ((k % 8) as u8)
}

/// Whether pixel `k` is set in a packed byte sequence.
pub open spec fn bit_at(bytes: Seq<u8>, k: int) -> bool {
    bytes[k / 8] & bit_mask(k) != 0
}

/// A set bit is white, a clear bit black.
pub open spec fn color_of_bit(b: bool) -> Color {
    if b {
        Color::White
    } else {
        Color::Black
    }
}

/// Color of pixel `k` in a packed byte sequence.
pub open spec fn color_at_index(bytes: Seq<u8>, k: int) -> Color {
    color_of_bit(bit_at(bytes, k))
}

/// `bytes` is the canonical packing of `colors`: one bit per pixel, white set,
/// black clear, `ceil(len / 8)` bytes, and every trailing bit clear.
pub open spec fn packs(bytes: Seq<u8>, colors: Seq<Color>) -> bool {
    &&& bytes.len() == packed_len(colors.len())
    &&& forall|k: int| 0 <= k < colors.len() ==> #[trigger] bit_at(bytes, k) == (colors[k] == Color::White)
    &&& forall|k: int| colors.len() <= k < 8 * bytes.len() ==> !#[trigger] bit_at(bytes, k)
}

proof fn lemma_mask_set(b: u8, r: u8, s: u8)
    requires
        r < 8,
        s < 8,
    ensures
        ((b | (0x80u8 >> r)) & (0x80u8 >> s) != 0) == ((b & (0x80u8 >> s) != 0) || r == s),
        (0u8 & (0x80u8 >> s)) == 0,
{
    assert(((b | (0x80u8 >> r)) & (0x80u8 >> s) != 0) == ((b & (0x80u8 >> s) != 0) || r == s))
        by (bit_vector)
        requires
            r < 8,
            s < 8,
    ;
    assert((0u8 & (0x80u8 >> s)) == 0) by (bit_vector);
}

/// Packs colors, in order, into bytes, most significant bit first; the
/// unused low bits of the final byte are left clear.
pub fn pack_colors(colors: &Vec<Color>) -> (bytes: Vec<u8>)
    ensures
        packs(bytes@, colors@),
{
    let n = colors.len();
    let mut bytes: Vec<u8> = Vec::new();
    let mut k: usize = 0;
    while k < n
        invariant
            n == colors@.len(),
            k <= n,
            bytes@.len() == packed_len(k as nat),
            forall|j: int| 0 <= j < k ==> #[trigger] bit_at(bytes@, j) == (colors@[j] == Color::White),
            forall|j: int| k <= j < 8 * bytes@.len() ==> !#[trigger] bit_at(bytes@, j),
        decreases n - k,
    {
        let r: u8 = (k % 8) as u8;
        if r == 0 {
            let ghost prev = bytes@;
            bytes.push(0u8);
            proof {
                assert forall|j: int| 0 <= j < k implies #[trigger] bit_at(bytes@, j) == bit_at(prev, j) by {
                    assert(bytes@[j / 8] == prev[j / 8]);
                }
                assert forall|j: int| k <= j < 8 * bytes@.len() implies !#[trigger] bit_at(bytes@, j) by {
                    if j / 8 < prev.len() {
                        assert(bytes@[j / 8] == prev[j / 8]);
                    } else {
                        lemma_mask_set(0u8, 0u8, (j % 8) as u8);
                    }
                }
            }
        }
        if colors[k] == Color::White {
            let last = bytes.len() - 1;
            let ghost prev = bytes@;
            let updated = bytes[last] | (0x80u8 >> r);
            bytes.set(last, updated);
            proof {
                assert(k / 8 == last);
                assert forall|j: int| 0 <= j < 8 * bytes@.len() && j != k implies #[trigger] bit_at(bytes@, j) == bit_at(prev, j) by {
                    if j / 8 == last {
                        lemma_mask_set(prev[last as int], r, (j % 8) as u8);
                    } else {
                        assert(bytes@[j / 8] == prev[j / 8]);
                    }
                }
                lemma_mask_set(prev[last as int], r, r);
            }
        }
        k = k + 1;
    }
    bytes
}

/// Colors of a row-major sequence of `(r, g, b, a)` source pixels.
pub open spec fn quantized_all(pixels: Seq<(u8, u8, u8, u8)>) -> Seq<Color> {
    pixels.map_values(|p: (u8, u8, u8, u8)| quantized(p.0, p.1, p.2, p.3))
}

/// Quantises a `width` x `height` image, given as row-major `(r, g, b, a)`
/// pixels, and packs the result: the byte sequence a `Stamp` of that size reads.
pub fn pack_image(width: usize, height: usize, pixels: &Vec<(u8, u8, u8, u8)>) -> (bytes: Vec<u8>)
    requires
        pixels@.len() == width * height,
    ensures
        bytes@.len() == packed_len((width * height) as nat),
        packs(bytes@, quantized_all(pixels@)),
{
    let n = pixels.len();
    let mut colors: Vec<Color> = Vec::new();
    let mut i: usize = 0;
    while i < n
        invariant
            n == pixels@.len(),
            i <= n,
            colors@ == quantized_all(pixels@).take(i as int),
        decreases n - i,
    {
        let p = pixels[i];
        let c = quantize(p.0, p.1, p.2, p.3);
        colors.push(c);
        assert(colors@ =~= quantized_all(pixels@).take(i + 1));
        i = i + 1;
    }
    assert(colors@ =~= quantized_all(pixels@));
    pack_colors(&colors)
}

} // verus!
