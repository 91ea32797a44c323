//! The dependency-free image preview: the picture is scaled down to fit
//! the panel and drawn with the `▄` glyph, two pixels per cell (the lower
//! one as foreground, the upper one as background), with the info lines
//! below it. What each cell and info row shows is decided here; printing
//! it is the application's.

use vstd::prelude::*;
use crate::sixel::{raw_pixel, Rgb, RgbImage};
use crate::util::{exact_width, exact_width_of};

verus! {

/// What `image::DynamicImage::thumbnail` makes of a `width` x `height`
/// RGB raster with channel bytes `raw`, asked to fit `nwidth` x `nheight`:
/// its width, height and channel bytes, row by row.
pub uninterp spec fn thumbnail_of(width: u32, height: u32, raw: Seq<u8>, nwidth: u32, nheight: u32) -> (
    u32,
    u32,
    Seq<u8>,
);

/// Scales a raster down with `image::DynamicImage::thumbnail` (aspect
/// ratio kept, fitting `nwidth` x `nheight`), then reads it back with
/// `into_rgb8` and `into_raw`. The result is named, not computed here: it
/// depends on the arguments alone. The buffer `thumbnail` allocates holds
/// three bytes per pixel; the output never exceeds the requested box by
/// more than one pixel each way, so the allocation fits under `requires`.
#[verifier::external_body]
fn thumbnail_raw(width: u32, height: u32, raw: Vec<u8>, nwidth: u32, nheight: u32) -> (r: (u32, u32, Vec<u8>))
    requires
        raw@.len() == 3 * width * height,
        3 * (nwidth + 1) * (nheight + 1) <= usize::MAX,
    ensures
        (r.0, r.1, r.2@) == thumbnail_of(width, height, raw@, nwidth, nheight),
        r.2@.len() == 3 * r.0 * r.1,
{
    let buf = image::RgbImage::from_raw(width, height, raw).unwrap();
    let out = image::DynamicImage::ImageRgb8(buf).thumbnail(nwidth, nheight).into_rgb8();
    (out.width(), out.height(), out.into_raw())
}

/// `t` is the thumbnail of `src` fitting `w` x `h`: its size and pixels
/// are those [`thumbnail_of`] names.
pub open spec fn is_thumbnail(t: RgbImage, src: RgbImage, w: u32, h: u32) -> bool {
    let n = thumbnail_of(src.spec_width() as u32, src.spec_height() as u32, src.spec_raw(), w, h);
    &&& t.wf()
    &&& t.spec_width() == n.0
    &&& t.spec_height() == n.1
    &&& forall|x: int, y: int|
        0 <= x < n.0 && 0 <= y < n.1 ==> #[trigger] t.spec_pixel(x, y) == raw_pixel(n.2, n.0 as int, x, y)
}

/// The requested box fits the thumbnail buffer in memory.
pub open spec fn box_fits(w: u32, h: u32) -> bool {
    3 * (w + 1) * (h + 1) <= usize::MAX
}

/// `src` scaled down to fit `w` x `h`; see [`thumbnail_of`].
pub fn thumbnail(src: &RgbImage, w: u32, h: u32) -> (r: RgbImage)
    requires
        src.wf(),
        box_fits(w, h),
    ensures
        is_thumbnail(r, *src, w, h),
{
    proof {
        src.lemma_raw_len();
    }
    let raw = src.to_raw();
    let (tw, th, tr) = thumbnail_raw(src.width(), src.height(), raw, w, h);
    RgbImage::from_raw(tw, th, &tr)
}

/// How many pixel rows the half-block image may use in a panel `height`
/// rows high: two per row, or two thirds of that when info lines follow.
pub fn half_block_pixel_rows(height: u16, has_info: bool) -> (r: u32)
    requires
        has_info ==> 4 * height <= u16::MAX,
        !has_info ==> 2 * height <= u16::MAX,
    ensures
        r == (if has_info {
            4 * height / 3
        } else {
            2 * height
        }),
{
    if has_info {
        (4 * height / 3) as u32
    } else {
        (2 * height) as u32
    }
}

/// The cell in column `x` of cell row `y` of `img`: the lower pixel and the
/// upper pixel of the pair, or blank where the pair is not wholly inside
/// the image.
pub open spec fn cell_of(img: RgbImage, x: int, y: int) -> Option<(Rgb, Rgb)> {
    if x < img.spec_width() && 2 * y + 1 < img.spec_height() {
        Some((img.spec_pixel(x, 2 * y + 1), img.spec_pixel(x, 2 * y)))
    } else {
        None
    }
}

/// The cells drawing `img` `width` cells wide: one row per pair of pixel
/// rows.
pub fn half_block_cells(img: &RgbImage, width: u16) -> (r: Vec<Vec<Option<(Rgb, Rgb)>>>)
    requires
        img.wf(),
    ensures
        r@.len() == (img.spec_height() + 1) / 2,
        forall|y: int| 0 <= y < r@.len() ==> (#[trigger] r@[y])@.len() == width,
        forall|y: int, x: int| 0 <= y < r@.len() && 0 <= x < width ==> #[trigger] r@[y]@[x] == cell_of(*img, x, y),
{
    let h = img.height();
    let w = img.width();
    let n: u32 = h / 2 + h % 2;
    let mut rows: Vec<Vec<Option<(Rgb, Rgb)>>> = Vec::new();
    let mut y: u32 = 0;
    while y < n
        invariant
            n == (img.spec_height() + 1) / 2,
            h == img.spec_height(),
            w == img.spec_width(),
            img.wf(),
            y <= n,
            rows@.len() == y,
            forall|j: int| 0 <= j < y ==> (#[trigger] rows@[j])@.len() == width,
            forall|j: int, i: int| 0 <= j < y && 0 <= i < width ==> #[trigger] rows@[j]@[i] == cell_of(*img, i, j),
        decreases n - y,
    {
        let mut row: Vec<Option<(Rgb, Rgb)>> = Vec::new();
        let mut x: u16 = 0;
        while x < width
            invariant
                h == img.spec_height(),
                w == img.spec_width(),
                img.wf(),
                y < n,
                n == (img.spec_height() + 1) / 2,
                x <= width,
                row@.len() == x,
                forall|i: int| 0 <= i < x ==> #[trigger] row@[i] == cell_of(*img, i, y as int),
            decreases width - x,
        {
            let lower_in = (x as u32) < w && y < h / 2;
            proof {
                assert((y < h / 2) == (2 * y + 1 < h));
            }
            if lower_in {
                let lo = img.get_pixel(x as u32, 2 * y + 1);
                let hi = img.get_pixel(x as u32, 2 * y);
                row.push(Some((lo, hi)));
            } else {
                row.push(None);
            }
            x = x + 1;
        }
        rows.push(row);
        y = y + 1;
    }
    rows
}

/// Info row `i` below an image of `image_rows` rows in a panel `height`
/// rows high and `width` wide: line `i`, fitted to the width, while there
/// are lines; blank after.
pub open spec fn info_rows_of(info: Seq<Seq<char>>, image_rows: u16, height: u16, width: u16) -> Seq<
    Option<Seq<char>>,
> {
    let n = if height >= image_rows {
        height - image_rows
    } else {
        0
    };
    Seq::new(
        n as nat,
        |i: int|
            if i < info.len() {
                Some(exact_width_of(info[i], width as int))
            } else {
                None
            },
    )
}

/// The rows below the image: each info line fitted to the width, then
/// blanks, down to the bottom of the panel; see [`info_rows_of`].
pub fn preview_info_rows(info: &Vec<String>, image_rows: u16, height: u16, width: u16) -> (r: Vec<Option<String>>)
    ensures
        r@.len() == info_rows_of(info@.map_values(|s: String| s@), image_rows, height, width).len(),
        forall|i: int|
            0 <= i < r@.len() ==> opt_view(#[trigger] r@[i]) == info_rows_of(
                info@.map_values(|s: String| s@),
                image_rows,
                height,
                width,
            )[i],
{
    let n: u16 = if height >= image_rows {
        height - image_rows
    } else {
        0
    };
    let mut out: Vec<Option<String>> = Vec::new();
    let mut i: u16 = 0;
    while i < n
        invariant
            i <= n,
            n == (if height >= image_rows {
                height - image_rows
            } else {
                0
            }),
            out@.len() == i,
            forall|j: int|
                0 <= j < i ==> opt_view(#[trigger] out@[j]) == (if j < info@.len() {
                    Some(exact_width_of(info@[j]@, width as int))
                } else {
                    None
                }),
        decreases n - i,
    {
        if (i as usize) < info.len() {
            out.push(Some(exact_width(info[i as usize].as_str(), width as usize)));
        } else {
            out.push(None);
        }
        i = i + 1;
    }
    out
}

pub open spec fn opt_view(o: Option<String>) -> Option<Seq<char>> {
    match o {
        Some(s) => Some(s@),
        None => None,
    }
}

/// A preview's source image with its last thumbnail, which is rebuilt
/// only when the requested size changes; `count` says how often one was
/// built.
pub struct ImagePreview {
    src: RgbImage,
    cache: Option<(u32, u32, RgbImage)>,
    count: u32,
}

/// What one half-block frame shows: the image cells, row by row, then
/// the rows below it (an info line, or blank).
pub struct HalfBlockFrame {
    pub cells: Vec<Vec<Option<(Rgb, Rgb)>>>,
    pub info: Vec<Option<String>>,
}

impl ImagePreview {
    pub closed spec fn spec_src(&self) -> RgbImage {
        self.src
    }

    /// The size the thumbnail was last built for, and the thumbnail.
    pub closed spec fn spec_cache(&self) -> Option<(u32, u32, RgbImage)> {
        self.cache
    }

    pub closed spec fn spec_count(&self) -> u32 {
        self.count
    }

    /// The source is a raster, and the thumbnail is the source's for its
    /// size.
    pub open spec fn wf(&self) -> bool {
        &&& self.spec_src().wf()
        &&& self.spec_cache() matches Some((w, h, t)) ==> is_thumbnail(t, self.spec_src(), w, h)
    }

    /// A preview of `src`; nothing built yet.
    pub fn new(src: RgbImage) -> (r: Self)
        requires
            src.wf(),
        ensures
            r.wf(),
            r.spec_src() == src,
            r.spec_cache() is None,
            r.spec_count() == 0,
    {
        ImagePreview { src, cache: None, count: 0 }
    }

    /// How many thumbnails were built.
    pub fn resize_count(&self) -> (r: u32)
        ensures
            r == self.spec_count(),
    {
        self.count
    }

    /// The thumbnail built last, if any.
    pub fn current(&self) -> (r: Option<&RgbImage>)
        ensures
            match self.spec_cache() {
                Some((_, _, t)) => r == Some(&t),
                None => r is None,
            },
    {
        match &self.cache {
            Some((_, _, t)) => Some(t),
            None => None,
        }
    }

    /// Makes the thumbnail the one for `w` x `h`: kept when it already is,
    /// built (and counted) otherwise.
    pub fn resize(&mut self, w: u32, h: u32)
        requires
            old(self).wf(),
            box_fits(w, h),
            !(old(self).spec_cache() matches Some((cw, ch, _)) && cw == w && ch == h) ==> old(self).spec_count()
                < u32::MAX,
        ensures
            final(self).wf(),
            final(self).spec_src() == old(self).spec_src(),
            final(self).spec_cache() matches Some((cw, ch, _)) && cw == w && ch == h,
            old(self).spec_cache() matches Some((cw, ch, _)) && cw == w && ch == h ==> final(self).spec_cache()
                == old(self).spec_cache() && final(self).spec_count() == old(self).spec_count(),
            !(old(self).spec_cache() matches Some((cw, ch, _)) && cw == w && ch == h) ==> final(self).spec_count()
                == old(self).spec_count() + 1,
    {
        let hit = match &self.cache {
            Some((cw, ch, _)) => *cw == w && *ch == h,
            None => false,
        };
        if !hit {
            let t = thumbnail(&self.src, w, h);
            self.cache = Some((w, h, t));
            self.count = self.count + 1;
        }
    }

    /// The half-block frame of a panel `width` cells wide and `height`
    /// rows high with `info` lines: the thumbnail for `width` x
    /// [`half_block_pixel_rows`] (rebuilt only for a new size), its cells,
    /// and below them the info lines, fitted to the width, then blanks.
    pub fn half_block_frame(&mut self, width: u16, height: u16, info: &Vec<String>) -> (r: HalfBlockFrame)
        requires
            old(self).wf(),
            info@.len() > 0 ==> 4 * height <= u16::MAX,
            info@.len() == 0 ==> 2 * height <= u16::MAX,
            box_fits(width as u32, (if info@.len() > 0 { 4 * height / 3 } else { 2 * height }) as u32),
            !(old(self).spec_cache() matches Some((cw, ch, _)) && cw == width && ch == (if info@.len() > 0 {
                4 * height / 3
            } else {
                2 * height
            })) ==> old(self).spec_count() < u32::MAX,
        ensures
            final(self).wf(),
            final(self).spec_src() == old(self).spec_src(),
            final(self).spec_cache() matches Some((cw, ch, t)) && {
                &&& cw == width
                &&& ch == (if info@.len() > 0 { 4 * height / 3 } else { 2 * height })
                &&& r.cells@.len() == (t.spec_height() + 1) / 2
                &&& forall|y: int| 0 <= y < r.cells@.len() ==> (#[trigger] r.cells@[y])@.len() == width
                &&& forall|y: int, x: int|
                    0 <= y < r.cells@.len() && 0 <= x < width ==> #[trigger] r.cells@[y]@[x] == cell_of(t, x, y)
                &&& {
                    let rows = info_rows_of(
                        info@.map_values(|s: String| s@),
                        (if r.cells@.len() <= u16::MAX { r.cells@.len() as int } else { u16::MAX as int }) as u16,
                        height,
                        width,
                    );
                    &&& r.info@.len() == rows.len()
                    &&& forall|i: int| 0 <= i < r.info@.len() ==> opt_view(#[trigger] r.info@[i]) == rows[i]
                }
            },
    {
        let th = half_block_pixel_rows(height, info.len() > 0);
        self.resize(width as u32, th);
        let cells = match &self.cache {
            Some((_, _, t)) => half_block_cells(t, width),
            None => Vec::new(),
        };
        let image_rows: u16 = if cells.len() <= u16::MAX as usize {
            cells.len() as u16
        } else {
            u16::MAX
        };
        let rows = preview_info_rows(info, image_rows, height, width);
        HalfBlockFrame { cells, info: rows }
    }
}

} // verus!
