use stockbook::{pack_colors, pack_image, quantize, Color, Stamp};

const BLACK: (u8, u8, u8, u8) = (0, 0, 0, 255);
const WHITE: (u8, u8, u8, u8) = (255, 255, 255, 255);

const STAR_DATA: [u8; 18] = [
    0b00000110, 0b00000000, 0b01100000, 0b00001111, 0b00000000, 0b11110000, 0b11111111,
    0b11110111, 0b11111110, 0b00111111, 0b11000001, 0b11111000, 0b00111111, 0b11000011,
    0b10011100, 0b01110000, 0b11100110, 0b00000110,
];

const STAR_PIXELS: &[(usize, usize)] = &[
    (5, 0), (6, 0), (5, 1), (6, 1), (4, 2), (5, 2), (6, 2), (7, 2),
    (4, 3), (5, 3), (6, 3), (7, 3), (0, 4), (1, 4), (2, 4), (3, 4),
    (4, 4), (5, 4), (6, 4), (7, 4), (8, 4), (9, 4), (10, 4), (11, 4),
    (1, 5), (2, 5), (3, 5), (4, 5), (5, 5), (6, 5), (7, 5), (8, 5),
    (9, 5), (10, 5), (2, 6), (3, 6), (4, 6), (5, 6), (6, 6), (7, 6),
    (8, 6), (9, 6), (3, 7), (4, 7), (5, 7), (6, 7), (7, 7), (8, 7),
    (2, 8), (3, 8), (4, 8), (5, 8), (6, 8), (7, 8), (8, 8), (9, 8),
    (2, 9), (3, 9), (4, 9), (7, 9), (8, 9), (9, 9), (1, 10), (2, 10),
    (3, 10), (8, 10), (9, 10), (10, 10), (1, 11), (2, 11), (9, 11),
    (10, 11),
];

fn checkerboard() -> Stamp {
    Stamp::from_raw(3, 3, &[0b1010_1010, 0b1000_0000])
}

fn all_pixels(stamp: &Stamp) -> Vec<(usize, usize, Color)> {
    let mut it = stamp.pixels();
    let mut out = Vec::new();
    while let Some(p) = it.next() {
        out.push(p);
    }
    out
}

fn leak(bytes: Vec<u8>) -> &'static [u8] {
    Vec::leak(bytes)
}

#[test]
fn all_black_3x2() {
    let pixels = vec![BLACK; 6];
    let bytes = pack_image(3, 2, &pixels);
    assert_eq!(bytes, vec![0x00]);
    let stamp = Stamp::from_raw(3, 2, leak(bytes));
    assert_eq!(stamp.width(), 3);
    assert_eq!(stamp.height(), 2);
    assert_eq!(stamp.pixel_count(), 6);
    for y in 0..2 {
        for x in 0..3 {
            assert_eq!(stamp.get_color_checked(x, y), Some(Color::Black));
        }
    }
    assert_eq!(
        all_pixels(&stamp),
        vec![
            (0, 0, Color::Black),
            (1, 0, Color::Black),
            (2, 0, Color::Black),
            (0, 1, Color::Black),
            (1, 1, Color::Black),
            (2, 1, Color::Black),
        ]
    );
}

#[test]
fn checkerboard_3x3_packs_and_reads() {
    let pixels: Vec<(u8, u8, u8, u8)> = (0..9)
        .map(|k| if (k % 3 + k / 3) % 2 == 0 { WHITE } else { BLACK })
        .collect();
    assert_eq!(pack_image(3, 3, &pixels), vec![0b1010_1010, 0b1000_0000]);
    let stamp = checkerboard();
    assert_eq!(stamp.get_color(0, 0), Color::White);
    assert_eq!(stamp.get_color(1, 0), Color::Black);
    assert_eq!(stamp.get_color(0, 1), Color::Black);
    assert_eq!(stamp.get_color(2, 2), Color::White);
    assert_eq!(all_pixels(&stamp).last(), Some(&(2, 2, Color::White)));
}

#[test]
fn checkerboard_iterator_sequence() {
    let stamp = checkerboard();
    let mut it = stamp.pixels();
    assert_eq!(it.len(), 9);
    assert_eq!(it.next(), Some((0, 0, Color::White)));
    assert_eq!(it.next(), Some((1, 0, Color::Black)));
    assert_eq!(it.next(), Some((2, 0, Color::White)));
    assert_eq!(it.next(), Some((0, 1, Color::Black)));
    assert_eq!(it.len(), 5);
    for _ in 0..4 {
        it.next();
    }
    assert_eq!(it.next(), Some((2, 2, Color::White)));
    assert_eq!(it.len(), 0);
    assert_eq!(it.next(), None);
    assert_eq!(it.next(), None);
}

#[test]
fn star_12x12_white_pixels() {
    let stamp = Stamp::from_raw(12, 12, &STAR_DATA);
    let whites: Vec<(usize, usize)> = all_pixels(&stamp)
        .into_iter()
        .filter(|p| p.2 == Color::White)
        .map(|p| (p.0, p.1))
        .collect();
    assert_eq!(whites, STAR_PIXELS);
}

#[test]
fn star_round_trip_through_packer() {
    let pixels: Vec<(u8, u8, u8, u8)> = (0..144)
        .map(|k| if STAR_PIXELS.contains(&(k % 12, k / 12)) { WHITE } else { BLACK })
        .collect();
    let bytes = pack_image(12, 12, &pixels);
    assert_eq!(bytes, STAR_DATA.to_vec());
    let stamp = Stamp::from_raw(12, 12, leak(bytes));
    for y in 0..12 {
        for x in 0..12 {
            let expected = if pixels[y * 12 + x] == WHITE { Color::White } else { Color::Black };
            assert_eq!(stamp.get_color_checked(x, y), Some(expected));
        }
    }
}

#[test]
fn bounds_5x4() {
    let stamp = Stamp::from_raw(5, 4, &[0, 0, 0]);
    assert!(stamp.is_within_bounds(0, 0));
    assert!(stamp.is_within_bounds(4, 3));
    assert!(!stamp.is_within_bounds(5, 3));
    assert!(!stamp.is_within_bounds(4, 4));
    assert_eq!(stamp.get_color_checked(5, 3), None);
    assert_eq!(stamp.get_color_checked(4, 4), None);
    assert_eq!(stamp.get_color_checked(4, 3), Some(Color::Black));
}

#[test]
fn checked_lookup_matches_bounds() {
    let stamp = checkerboard();
    for y in 0..5 {
        for x in 0..5 {
            assert_eq!(stamp.is_within_bounds(x, y), stamp.get_color_checked(x, y).is_some());
        }
    }
    assert_eq!(stamp.get_color_checked(3, 0), None);
    assert_eq!(stamp.get_color_checked(0, 3), None);
}

#[test]
fn quantisation_boundary() {
    assert_eq!(quantize(127, 127, 127, 255), Color::Black);
    assert_eq!(quantize(128, 128, 128, 255), Color::White);
    assert_eq!(quantize(255, 255, 255, 0), Color::Black);
    assert_eq!(quantize(0, 0, 0, 255), Color::Black);
    assert_eq!(quantize(255, 255, 255, 1), Color::White);
    assert_eq!(quantize(255, 129, 0, 255), Color::White);
    assert_eq!(quantize(255, 128, 0, 255), Color::Black);
}

#[test]
fn padding_bits_ignored() {
    let zero = Stamp::from_raw(3, 3, &[0b1010_1010, 0b1000_0000]);
    let ones = Stamp::from_raw(3, 3, &[0b1010_1010, 0b1111_1111]);
    assert_eq!(zero.size(), ones.size());
    assert_eq!(zero.pixel_count(), ones.pixel_count());
    for y in 0..4 {
        for x in 0..4 {
            assert_eq!(zero.is_within_bounds(x, y), ones.is_within_bounds(x, y));
            assert_eq!(zero.get_color_checked(x, y), ones.get_color_checked(x, y));
        }
    }
    assert_eq!(all_pixels(&zero), all_pixels(&ones));
}

#[test]
fn bit_order_1x8() {
    assert_eq!(pack_image(1, 8, &vec![WHITE; 8]), vec![0xFF]);
    let mut first = vec![BLACK; 8];
    first[0] = WHITE;
    assert_eq!(pack_image(1, 8, &first), vec![0x80]);
    let mut last = vec![BLACK; 8];
    last[7] = WHITE;
    assert_eq!(pack_image(1, 8, &last), vec![0x01]);
}

#[test]
fn dimension_accessors() {
    let stamp = Stamp::from_raw(5, 4, &[0, 0, 0]);
    assert_eq!(stamp.size(), [5, 4]);
    assert_eq!(stamp.size(), [stamp.width(), stamp.height()]);
    assert_eq!(stamp.pixel_count(), stamp.width() * stamp.height());
    assert_eq!(stamp.pixel_count(), 20);
}

#[test]
fn packed_byte_count() {
    for (w, h, n) in [(0, 5, 0), (1, 1, 1), (2, 4, 1), (3, 3, 2), (5, 4, 3), (4, 4, 2), (7, 3, 3)] {
        let pixels = vec![WHITE; w * h];
        assert_eq!(pack_image(w, h, &pixels).len(), n);
    }
}

#[test]
fn zero_area_stamp() {
    let bytes = pack_image(0, 4, &Vec::new());
    assert!(bytes.is_empty());
    let stamp = Stamp::from_raw(0, 4, leak(bytes));
    assert_eq!(stamp.pixel_count(), 0);
    assert!(stamp.pixels().next().is_none());
    assert!(!stamp.is_within_bounds(0, 0));
}

#[test]
fn pack_colors_trailing_bits_clear() {
    let colors = vec![Color::White; 9];
    assert_eq!(pack_colors(&colors), vec![0xFF, 0x80]);
    assert_eq!(pack_colors(&vec![Color::Black, Color::White, Color::White]), vec![0b0110_0000]);
    assert!(pack_colors(&Vec::new()).is_empty());
}

#[test]
fn unchecked_lookup() {
    let stamp = checkerboard();
    assert_eq!(stamp.get_color_unchecked(0, 0), Color::White);
    assert_eq!(stamp.get_color_unchecked(1, 0), Color::Black);
    assert_eq!(stamp.get_color_unchecked(0, 1), Color::Black);
}

#[test]
fn round_trip_bilevel() {
    let (w, h) = (7usize, 5usize);
    let pixels: Vec<(u8, u8, u8, u8)> =
        (0..w * h).map(|k| if (k * 7 + 3) % 5 < 2 { WHITE } else { BLACK }).collect();
    let stamp = Stamp::from_raw(w, h, leak(pack_image(w, h, &pixels)));
    for y in 0..h {
        for x in 0..w {
            let expected = if pixels[y * w + x] == WHITE { Color::White } else { Color::Black };
            assert_eq!(stamp.get_color_checked(x, y), Some(expected));
        }
    }
}

#[test]
fn pixel_order_row_major() {
    let stamp = Stamp::from_raw(4, 3, &[0b1001_0110, 0b0011_0000]);
    let pixels = all_pixels(&stamp);
    assert_eq!(pixels.len(), 12);
    for (k, p) in pixels.iter().enumerate() {
        assert_eq!((p.0, p.1), (k % 4, k / 4));
        assert_eq!(p.2, stamp.get_color_unchecked(k % 4, k / 4));
    }
}
