use vstd::prelude::*;

verus! {

/// Color of a pixel.
#[derive(Debug, Clone, Copy, PartialEq, Eq, Structural)]
pub enum Color {
    /// Black (`#000000ff` or `rgba(0, 0, 0, 255)`)
    Black,
    /// White (`#ffffffff` or `rgba(255, 255, 255, 255)`)
    White,
}

/// The color a source pixel `(r, g, b, a)` is classified as: white when it
/// is not fully transparent and its mean channel value is at least 128.
pub open spec fn quantized(r: u8, g: u8, b: u8, a: u8) -> Color {
    if a > 0 && r + g + b >= 384 {
        Color::White
    } else {
        Color::Black
    }
}

/// Classifies a source pixel as black or white.
pub fn quantize(r: u8, g: u8, b: u8, a: u8) -> (c: Color)
    ensures
        c == quantized(r, g, b, a),
        c == Color::White <==> (a > 0 && (r as int + g as int + b as int) / 3 >= 128),
{
    let sum: u16 = r as u16 + g as u16 + b as u16;
    if a > 0 && sum / 3 >= 128 {
        Color::White
    } else {
        Color::Black
    }
}

} // verus!
