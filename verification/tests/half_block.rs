use rfm::half_block::{half_block_cells, half_block_pixel_rows, preview_info_rows, thumbnail, ImagePreview};
use rfm::sixel::{Rgb, RgbImage};
use rfm::util::exact_width;

fn gradient(w: u32, h: u32) -> RgbImage {
    let mut img = RgbImage::new(w, h);
    for y in 0..h {
        for x in 0..w {
            img.put_pixel(x, y, Rgb([x as u8, y as u8, 7]));
        }
    }
    img
}

#[test]
fn pixel_rows_are_two_per_row_or_two_thirds_with_info() {
    assert_eq!(half_block_pixel_rows(30, false), 60);
    assert_eq!(half_block_pixel_rows(30, true), 40);
    assert_eq!(half_block_pixel_rows(10, true), 13);
}

#[test]
fn cells_pair_the_lower_and_upper_pixel() {
    let img = gradient(2, 3);
    let cells = half_block_cells(&img, 3);
    assert_eq!(cells.len(), 2);
    assert_eq!(cells[0].len(), 3);
    assert_eq!(cells[0][0], Some((Rgb([0, 1, 7]), Rgb([0, 0, 7]))));
    assert_eq!(cells[0][1], Some((Rgb([1, 1, 7]), Rgb([1, 0, 7]))));
    assert_eq!(cells[0][2], None);
    assert_eq!(cells[1], vec![None, None, None]);
}

#[test]
fn info_rows_follow_the_image_then_blank() {
    let info = vec!["abc".to_string(), "defgh".to_string()];
    let rows = preview_info_rows(&info, 2, 5, 4);
    assert_eq!(
        rows,
        vec![Some(exact_width("abc", 4)), Some(exact_width("defgh", 4)), None]
    );
    assert!(preview_info_rows(&info, 6, 5, 4).is_empty());
}

#[test]
fn thumbnail_fits_the_box_and_keeps_a_flat_colour() {
    let img = RgbImage::from_pixel(8, 4, Rgb([200, 10, 30]));
    let t = thumbnail(&img, 4, 4);
    assert_eq!((t.width(), t.height()), (4, 2));
    for y in 0..2 {
        for x in 0..4 {
            assert_eq!(t.get_pixel(x, y), Rgb([200, 10, 30]));
        }
    }
}

#[test]
fn raw_bytes_round_trip() {
    let img = gradient(3, 2);
    let raw = img.to_raw();
    assert_eq!(raw.len(), 18);
    assert_eq!(&raw[3..6], &[1, 0, 7]);
    let back = RgbImage::from_raw(3, 2, &raw);
    assert_eq!(back.get_pixel(2, 1), Rgb([2, 1, 7]));
}

#[test]
fn resize_is_cached_across_equal_dimensions() {
    let mut p = ImagePreview::new(RgbImage::new(64, 64));
    p.resize(20, 30);
    let a = p.current().map(|t| (t.width(), t.height()));
    p.resize(20, 30);
    let b = p.current().map(|t| (t.width(), t.height()));
    assert_eq!(p.resize_count(), 1, "second call must hit the cache");
    assert_eq!(a, b);
}

#[test]
fn resize_recomputes_when_dimensions_change() {
    let mut p = ImagePreview::new(RgbImage::new(64, 64));
    p.resize(20, 30);
    p.resize(21, 30);
    assert_eq!(p.resize_count(), 2);
}

#[test]
fn resized_rgb_pixel_keying_reuses_cache() {
    let mut p = ImagePreview::new(RgbImage::new(64, 64));
    p.resize(240, 320);
    p.resize(240, 320);
    assert_eq!(p.resize_count(), 1, "same pixel box must hit the cache");
    p.resize(256, 320);
    assert_eq!(p.resize_count(), 2);
}

#[test]
fn half_block_frame_draws_the_image_then_the_info() {
    let red = Rgb([255, 0, 0]);
    let mut p = ImagePreview::new(RgbImage::from_pixel(4, 4, red));
    let f = p.half_block_frame(4, 2, &Vec::new());
    assert_eq!(f.cells.len(), 2);
    assert!(f.cells.iter().all(|row| row.len() == 4 && row.iter().all(|c| *c == Some((red, red)))));
    assert!(f.info.is_empty());
    let f = p.half_block_frame(4, 3, &vec!["x".to_string()]);
    assert_eq!(f.cells.len(), 2);
    assert_eq!(f.info, vec![Some(exact_width("x", 4))]);
    assert_eq!(p.resize_count(), 1);
}
