use rfm::sixel::{palette_rgb, quantize, sixel_encode, Rgb, RgbImage};

#[test]
fn sixel_quantize_maps_extremes() {
    assert_eq!(quantize(&Rgb([0, 0, 0])), 0);
    assert_eq!(quantize(&Rgb([255, 255, 255])), 251);
    let red = quantize(&Rgb([255, 0, 0]));
    let green = quantize(&Rgb([0, 255, 0]));
    let blue = quantize(&Rgb([0, 0, 255]));
    assert_eq!(red, 210);
    assert_eq!(green, 36);
    assert_eq!(blue, 5);
    assert!(red != green && green != blue && red != blue);
}

#[test]
fn sixel_header_and_raster_attributes() {
    let rgb = RgbImage::from_pixel(4, 6, Rgb([0, 0, 0]));
    let out = sixel_encode(&rgb);
    assert!(
        out.starts_with(b"\x1bP0;1;0q\"1;1;4;6"),
        "header/raster attributes wrong: {:?}",
        String::from_utf8_lossy(&out)
    );
    assert!(out.ends_with(b"\x1b\\"), "missing ST terminator");
}

#[test]
fn sixel_encodes_known_image_deterministically() {
    let mut rgb = RgbImage::new(4, 6);
    for y in 0..6 {
        for x in 0..4 {
            let px = if x < 2 { [255, 0, 0] } else { [255, 255, 255] };
            rgb.put_pixel(x, y, Rgb(px));
        }
    }
    let out = sixel_encode(&rgb);
    assert_eq!(
        String::from_utf8_lossy(&out),
        "\x1bP0;1;0q\"1;1;4;6#210;2;100;0;0#251;2;100;100;100#210~~$#251??~~-\x1b\\"
    );
}

#[test]
fn sixel_rle_runs_and_literals() {
    let long = sixel_encode(&RgbImage::from_pixel(10, 6, Rgb([0, 0, 0])));
    let s = String::from_utf8_lossy(&long);
    assert!(s.contains("#0!10~"), "run of 10 must be RLE: {s}");
    let short = sixel_encode(&RgbImage::from_pixel(3, 6, Rgb([0, 0, 0])));
    let s = String::from_utf8_lossy(&short);
    assert!(s.contains("#0~~~"), "run of 3 must be literal: {s}");
    assert!(!s.contains('!'), "no RLE marker for short runs: {s}");
}

#[test]
fn sixel_palette_registers_only_used_colors() {
    let mut rgb = RgbImage::from_pixel(4, 6, Rgb([0, 0, 0]));
    rgb.put_pixel(0, 0, Rgb([255, 255, 255]));
    let out = sixel_encode(&rgb);
    let s = String::from_utf8_lossy(&out);
    let defs: Vec<usize> = s.match_indices(";2;").map(|(i, _)| i).collect();
    assert_eq!(defs.len(), 2, "exactly the two used registers: {s}");
    assert!(s.contains("#0;2;0;0;0"));
    assert!(s.contains("#251;2;100;100;100"));
    let p0 = s.find("#0;2;").unwrap();
    let p251 = s.find("#251;2;").unwrap();
    assert!(p0 < p251, "palette must be ascending");
}

#[test]
fn sixel_height_clamped_to_band_multiple() {
    let rgb = RgbImage::from_pixel(4, 8, Rgb([0, 0, 0]));
    let out = sixel_encode(&rgb);
    let s = String::from_utf8_lossy(&out);
    assert!(
        s.starts_with("\x1bP0;1;0q\"1;1;4;6"),
        "height not clamped: {s}"
    );
    assert_eq!(s.matches('-').count(), 1, "exactly one band: {s}");
    let tiny = sixel_encode(&RgbImage::from_pixel(4, 5, Rgb([0, 0, 0])));
    let s = String::from_utf8_lossy(&tiny);
    assert!(s.starts_with("\x1bP0;1;0q\"1;1;4;0"), "not truncated: {s}");
    assert_eq!(s.matches('-').count(), 0);
}

#[test]
fn palette_register_colors_span_zero_to_hundred() {
    assert_eq!(palette_rgb(0), (0, 0, 0));
    assert_eq!(palette_rgb(251), (100, 100, 100));
    assert_eq!(palette_rgb(36), (0, 100, 0));
    assert_eq!(palette_rgb(49), (20, 16, 20));
}

#[test]
fn trailing_empty_columns_of_a_color_are_dropped() {
    let mut rgb = RgbImage::from_pixel(5, 6, Rgb([0, 0, 0]));
    rgb.put_pixel(1, 2, Rgb([255, 255, 255]));
    assert_eq!(rgb.get_pixel(1, 2), Rgb([255, 255, 255]));
    let s = String::from_utf8_lossy(&sixel_encode(&rgb)).into_owned();
    // White paints only column 1, row 2 (bit 2 -> 0x3f + 4 = 'C').
    assert!(s.contains("$#251?C-"), "{s}");
    // Black paints every column, row 2 of column 1 missing (0x3f + 59 = 'z').
    assert!(s.contains("#0~z~~~$"), "{s}");
}

#[test]
fn two_bands_are_encoded_in_order() {
    let rgb = RgbImage::from_pixel(2, 12, Rgb([0, 0, 0]));
    let s = String::from_utf8_lossy(&sixel_encode(&rgb)).into_owned();
    assert_eq!(s, "\x1bP0;1;0q\"1;1;2;12#0;2;0;0;0#0~~-#0~~-\x1b\\");
}

/// Expands `!<n><ch>` runs and literal characters into column values.
fn rle_decode(s: &str) -> Vec<u8> {
    let b = s.as_bytes();
    let mut out = Vec::new();
    let mut i = 0;
    while i < b.len() {
        if b[i] == b'!' {
            let mut j = i + 1;
            while b[j].is_ascii_digit() {
                j += 1;
            }
            let n: usize = s[i + 1..j].parse().unwrap();
            out.extend(std::iter::repeat(b[j] - 0x3f).take(n));
            i = j + 1;
        } else {
            out.push(b[i] - 0x3f);
            i += 1;
        }
    }
    out
}

#[test]
fn sixel_rle_decodes_back_to_the_columns() {
    let mut rgb = RgbImage::from_pixel(12, 6, Rgb([0, 0, 0]));
    for x in 5..12 {
        for y in 0..6 {
            rgb.put_pixel(x, y, Rgb([255, 255, 255]));
        }
    }
    let out = sixel_encode(&rgb);
    let s = String::from_utf8_lossy(&out).into_owned();
    let black = s.split("#0").nth(2).unwrap().split(|c| c == '$' || c == '-').next().unwrap();
    assert_eq!(rle_decode(black), vec![63; 5]);
    let white = s.split("#251").nth(2).unwrap().split(|c| c == '$' || c == '-').next().unwrap();
    let mut expect = vec![0u8; 5];
    expect.extend(vec![63u8; 7]);
    assert_eq!(rle_decode(white), expect);
}
