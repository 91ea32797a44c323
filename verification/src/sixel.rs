//! Hand-rolled sixel encoder: a pure function from an RGB raster to the DCS
//! byte stream, with no I/O and no state.
//!
//! Palette: a fixed 6x7x6 colour cube (252 registers, under the 256 limit),
//! `idx = r6*42 + g7*6 + b6` with `r6 = r*6/256` and so on. Registers are
//! defined only for the indices actually used, in ascending order.
//!
//! The raster height is truncated down to a multiple of 6 (a sixel band is
//! six pixel rows), so the final band cannot bleed past the pane the caller
//! fitted the raster to.

use vstd::prelude::*;

verus! {

/// Number of palette registers in the fixed 6x7x6 cube.
pub const PALETTE_SIZE: usize = 252;

/// One RGB pixel.
#[derive(Debug, Clone, Copy, PartialEq, Eq)]
pub struct Rgb(pub [u8; 3]);

/// An RGB raster, row by row.
pub struct RgbImage {
    width: u32,
    height: u32,
    rows: Vec<Vec<Rgb>>,
}

impl RgbImage {
    pub closed spec fn spec_width(&self) -> int {
        self.width as int
    }

    pub closed spec fn spec_height(&self) -> int {
        self.height as int
    }

    /// The pixel in column `x` of row `y`.
    pub closed spec fn spec_pixel(&self, x: int, y: int) -> Rgb {
        self.rows@[y]@[x]
    }

    /// One row per line of the raster, each as wide as the raster.
    pub closed spec fn wf(&self) -> bool {
        &&& self.rows@.len() == self.height
        &&& forall|y: int| 0 <= y < self.height ==> (#[trigger] self.rows@[y])@.len() == self.width
    }

    /// A `width` x `height` raster filled with `px`.
    pub fn from_pixel(width: u32, height: u32, px: Rgb) -> (r: Self)
        ensures
            r.wf(),
            r.spec_width() == width,
            r.spec_height() == height,
            forall|x: int, y: int|
                0 <= x < width && 0 <= y < height ==> #[trigger] r.spec_pixel(x, y) == px,
    {
        let mut rows: Vec<Vec<Rgb>> = Vec::new();
        let mut y: u32 = 0;
        while y < height
            invariant
                y <= height,
                rows@.len() == y,
                forall|j: int| 0 <= j < y ==> (#[trigger] rows@[j])@.len() == width,
                forall|j: int, i: int| 0 <= j < y && 0 <= i < width ==> #[trigger] rows@[j]@[i] == px,
            decreases height - y,
        {
            let mut row: Vec<Rgb> = Vec::new();
            let mut x: u32 = 0;
            while x < width
                invariant
                    x <= width,
                    row@.len() == x,
                    forall|i: int| 0 <= i < x ==> #[trigger] row@[i] == px,
                decreases width - x,
            {
                row.push(px);
                x = x + 1;
            }
            rows.push(row);
            y = y + 1;
        }
        RgbImage { width, height, rows }
    }

    /// A black `width` x `height` raster.
    pub fn new(width: u32, height: u32) -> (r: Self)
        ensures
            r.wf(),
            r.spec_width() == width,
            r.spec_height() == height,
            forall|x: int, y: int|
                0 <= x < width && 0 <= y < height ==> #[trigger] r.spec_pixel(x, y) == Rgb([0u8, 0u8, 0u8]),
    {
        Self::from_pixel(width, height, Rgb([0, 0, 0]))
    }

    pub fn width(&self) -> (r: u32)
        ensures
            r == self.spec_width(),
    {
        self.width
    }

    pub fn height(&self) -> (r: u32)
        ensures
            r == self.spec_height(),
    {
        self.height
    }

    /// The pixel at column `x`, row `y`.
    pub fn get_pixel(&self, x: u32, y: u32) -> (r: Rgb)
        requires
            self.wf(),
            x < self.spec_width(),
            y < self.spec_height(),
        ensures
            r == self.spec_pixel(x as int, y as int),
    {
        self.rows[y as usize][x as usize]
    }

    /// Sets the pixel at column `x`, row `y`; the others keep their colour.
    pub fn put_pixel(&mut self, x: u32, y: u32, px: Rgb)
        requires
            old(self).wf(),
            x < old(self).spec_width(),
            y < old(self).spec_height(),
        ensures
            final(self).wf(),
            final(self).spec_width() == old(self).spec_width(),
            final(self).spec_height() == old(self).spec_height(),
            forall|i: int, j: int|
                0 <= i < old(self).spec_width() && 0 <= j < old(self).spec_height() ==> #[trigger] final(self).spec_pixel(i, j)
                    == if i == x && j == y {
                    px
                } else {
                    old(self).spec_pixel(i, j)
                },
    {
        let yy = y as usize;
        let mut row: Vec<Rgb> = Vec::new();
        std::mem::swap(&mut row, &mut self.rows[yy]);
        row.set(x as usize, px);
        self.rows.set(yy, row);
    }
}

/// The three channel bytes of a pixel.
pub open spec fn px_bytes(p: Rgb) -> Seq<u8> {
    seq![p.0[0], p.0[1], p.0[2]]
}

/// The pixels of a row as channel bytes, left to right.
pub open spec fn row_bytes(r: Seq<Rgb>) -> Seq<u8>
    decreases r.len(),
{
    if r.len() == 0 {
        Seq::empty()
    } else {
        row_bytes(r.drop_last()) + px_bytes(r.last())
    }
}

/// The rows as channel bytes, top to bottom.
pub open spec fn rows_bytes(rows: Seq<Vec<Rgb>>) -> Seq<u8>
    decreases rows.len(),
{
    if rows.len() == 0 {
        Seq::empty()
    } else {
        rows_bytes(rows.drop_last()) + row_bytes(rows.last()@)
    }
}

/// The pixel at column `x`, row `y` of channel bytes laid out row by row,
/// `w` pixels to a row.
pub open spec fn raw_pixel(raw: Seq<u8>, w: int, x: int, y: int) -> Rgb {
    let k = 3 * (y * w + x);
    Rgb([raw[k], raw[k + 1], raw[k + 2]])
}

proof fn lemma_row_bytes_len(r: Seq<Rgb>)
    ensures
        row_bytes(r).len() == 3 * r.len(),
    decreases r.len(),
{
    if r.len() > 0 {
        lemma_row_bytes_len(r.drop_last());
    }
}

proof fn lemma_rows_bytes_len(rows: Seq<Vec<Rgb>>, w: int)
    requires
        forall|y: int| 0 <= y < rows.len() ==> (#[trigger] rows[y])@.len() == w,
    ensures
        rows_bytes(rows).len() == 3 * w * rows.len(),
    decreases rows.len(),
{
    if rows.len() > 0 {
        lemma_rows_bytes_len(rows.drop_last(), w);
        lemma_row_bytes_len(rows.last()@);
        let n = rows.len() - 1;
        assert(3 * w * (n + 1) == 3 * w * n + 3 * w) by (nonlinear_arith);
    }
}

impl RgbImage {
    /// The channel bytes, row by row.
    pub closed spec fn spec_raw(&self) -> Seq<u8> {
        rows_bytes(self.rows@)
    }

    /// A well-formed raster has three bytes per pixel.
    pub proof fn lemma_raw_len(&self)
        requires
            self.wf(),
        ensures
            self.spec_raw().len() == 3 * self.spec_width() * self.spec_height(),
    {
        lemma_rows_bytes_len(self.rows@, self.spec_width());
    }

    /// The channel bytes, row by row, three to a pixel.
    pub fn to_raw(&self) -> (r: Vec<u8>)
        requires
            self.wf(),
        ensures
            r@ == self.spec_raw(),
    {
        let mut out: Vec<u8> = Vec::new();
        let mut y: usize = 0;
        while y < self.rows.len()
            invariant
                y <= self.rows@.len(),
                out@ == rows_bytes(self.rows@.take(y as int)),
            decreases self.rows@.len() - y,
        {
            let row = &self.rows[y];
            let ghost done = out@;
            let mut x: usize = 0;
            while x < row.len()
                invariant
                    x <= row@.len(),
                    out@ == done + row_bytes(row@.take(x as int)),
                decreases row@.len() - x,
            {
                let p = row[x];
                out.push(p.0[0]);
                out.push(p.0[1]);
                out.push(p.0[2]);
                x = x + 1;
                assert(row@.take(x as int).drop_last() =~= row@.take(x - 1));
                assert(out@ =~= done + row_bytes(row@.take(x as int)));
            }
            assert(row@.take(x as int) =~= row@);
            y = y + 1;
            assert(self.rows@.take(y as int).drop_last() =~= self.rows@.take(y - 1));
        }
        assert(self.rows@.take(y as int) =~= self.rows@);
        out
    }

    /// The raster of `width` x `height` pixels whose channel bytes, row by
    /// row, are `raw`.
    pub fn from_raw(width: u32, height: u32, raw: &Vec<u8>) -> (r: Self)
        requires
            raw@.len() == 3 * width * height,
        ensures
            r.wf(),
            r.spec_width() == width,
            r.spec_height() == height,
            forall|x: int, y: int|
                0 <= x < width && 0 <= y < height ==> #[trigger] r.spec_pixel(x, y) == raw_pixel(
                    raw@,
                    width as int,
                    x,
                    y,
                ),
    {
        let n = raw.len();
        let mut rows: Vec<Vec<Rgb>> = Vec::new();
        let mut y: u32 = 0;
        let mut k: usize = 0;
        while y < height
            invariant
                y <= height,
                raw@.len() == 3 * width * height,
                n == raw@.len(),
                k == 3 * (y * width),
                rows@.len() == y,
                forall|j: int| 0 <= j < y ==> (#[trigger] rows@[j])@.len() == width,
                forall|i: int, j: int|
                    0 <= i < width && 0 <= j < y ==> #[trigger] rows@[j]@[i] == raw_pixel(raw@, width as int, i, j),
            decreases height - y,
        {
            let mut row: Vec<Rgb> = Vec::new();
            let mut x: u32 = 0;
            while x < width
                invariant
                    x <= width,
                    y < height,
                    raw@.len() == 3 * width * height,
                    n == raw@.len(),
                    k == 3 * (y * width + x),
                    row@.len() == x,
                    forall|i: int| 0 <= i < x ==> #[trigger] row@[i] == raw_pixel(raw@, width as int, i, y as int),
                decreases width - x,
            {
                assert(y * width + x < width * height) by (nonlinear_arith)
                    requires
                        x < width,
                        y < height,
                ;
                assert(k + 2 < raw@.len()) by (nonlinear_arith)
                    requires
                        k == 3 * (y * width + x),
                        y * width + x < width * height,
                        raw@.len() == 3 * width * height,
                ;
                row.push(Rgb([raw[k], raw[k + 1], raw[k + 2]]));
                k = k + 3;
                x = x + 1;
            }
            rows.push(row);
            y = y + 1;
            assert(k == 3 * (y * width)) by (nonlinear_arith)
                requires
                    k == 3 * ((y - 1) * width + width),
            ;
        }
        RgbImage { width, height, rows }
    }
}

/// The cube index of a pixel: `r6*42 + g7*6 + b6`.
pub open spec fn cube_index(px: Rgb) -> int {
    (px.0@[0] * 6 / 256) * 42 + (px.0@[1] * 7 / 256) * 6 + px.0@[2] * 6 / 256
}

/// Maps an RGB pixel onto the fixed 6x7x6 cube.
pub fn quantize(px: &Rgb) -> (r: u8)
    ensures
        r == cube_index(*px),
        r < PALETTE_SIZE,
{
    let r6 = px.0[0] as u32 * 6 / 256;
    let g7 = px.0[1] as u32 * 7 / 256;
    let b6 = px.0[2] as u32 * 6 / 256;
    assert(r6 <= 5 && g7 <= 6 && b6 <= 5);
    (r6 * 42 + g7 * 6 + b6) as u8
}

/// The register colour of a palette index, on the 0 to 100 scale that
/// sixel colour definitions use.
pub open spec fn register_rgb(idx: int) -> (int, int, int) {
    ((idx / 42) * 100 / 5, ((idx % 42) / 6) * 100 / 6, (idx % 6) * 100 / 5)
}

/// The register colour for a palette index (`#i;2;R;G;B`).
pub fn palette_rgb(idx: u8) -> (r: (u8, u8, u8))
    ensures
        r.0 == register_rgb(idx as int).0,
        r.1 == register_rgb(idx as int).1,
        r.2 == register_rgb(idx as int).2,
{
    let r6 = (idx as u32) / 42;
    let g7 = (idx as u32 % 42) / 6;
    let b6 = idx as u32 % 6;
    assert(r6 <= 6 && g7 <= 6 && b6 <= 5);
    ((r6 * 100 / 5) as u8, (g7 * 100 / 6) as u8, (b6 * 100 / 5) as u8)
}

/// The decimal digits of `n`, in ASCII.
pub open spec fn dec(n: nat) -> Seq<u8>
    decreases n,
{
    if n < 10 {
        seq![(48 + n) as u8]
    } else {
        dec(n / 10).push((48 + n % 10) as u8)
    }
}

/// Appends the decimal digits of `n`.
fn push_dec(out: &mut Vec<u8>, n: usize)
    ensures
        final(out)@ == old(out)@ + dec(n as nat),
    decreases n,
{
    if n >= 10 {
        push_dec(out, n / 10);
    }
    out.push(48 + (n % 10) as u8);
    proof {
        if n >= 10 {
            assert(out@ =~= old(out)@ + dec(n as nat));
        } else {
            assert(out@ =~= old(out)@ + dec(n as nat));
        }
    }
}

/// How many consecutive entries of `s`, from index `i` on, equal `v`.
pub open spec fn run_from(s: Seq<u8>, i: int, v: u8) -> nat
    decreases s.len() - i,
{
    if 0 <= i < s.len() && s[i] == v {
        1 + run_from(s, i + 1, v)
    } else {
        0
    }
}

/// A run starting at `i` never reaches past the end of `s`, and has at
/// least one column when `s[i]` is `v`.
pub proof fn lemma_run_from_bound(s: Seq<u8>, i: int, v: u8)
    requires
        0 <= i,
    ensures
        run_from(s, i, v) <= s.len() - i || run_from(s, i, v) == 0,
        i < s.len() && s[i] == v ==> run_from(s, i, v) >= 1,
    decreases s.len() - i,
{
    if 0 <= i < s.len() && s[i] == v {
        lemma_run_from_bound(s, i + 1, v);
    }
}

/// The sixel characters of a run of `n` columns with bit pattern `v`:
/// `!<n><ch>` for runs over 3, the character repeated otherwise.
pub open spec fn rle_chunk(n: nat, v: u8) -> Seq<u8> {
    let ch = (0x3f + v) as u8;
    if n > 3 {
        seq![0x21u8] + dec(n) + seq![ch]
    } else {
        Seq::new(n, |k: int| ch)
    }
}

/// The run-length encoded sixel characters of the columns `s[i..]`.
pub open spec fn rle_from(s: Seq<u8>, i: int) -> Seq<u8>
    decreases s.len() - i,
{
    if i < 0 || i >= s.len() {
        Seq::empty()
    } else {
        let n = run_from(s, i, s[i]);
        proof {
            lemma_run_from_bound(s, i, s[i]);
        }
        rle_chunk(n, s[i]) + rle_from(s, i + n)
    }
}

/// `b` is an ASCII digit.
pub open spec fn is_dec_digit(b: u8) -> bool {
    0x30 <= b <= 0x39
}

/// How many ASCII digits `b` has from index `i` on.
pub open spec fn digit_run(b: Seq<u8>, i: int) -> nat
    decreases b.len() - i,
{
    if 0 <= i < b.len() && is_dec_digit(b[i]) {
        1 + digit_run(b, i + 1)
    } else {
        0
    }
}

/// The value of the decimal digits `d`.
pub open spec fn dec_value(d: Seq<u8>) -> nat
    decreases d.len(),
{
    if d.len() == 0 {
        0
    } else {
        dec_value(d.drop_last()) * 10 + (d.last() - 48) as nat
    }
}

/// The columns that run-length encoded sixel characters stand for: `!<n>`
/// followed by a character repeats its column `n` times, any other
/// character is one column (the character less `0x3F`).
pub open spec fn rle_decode(b: Seq<u8>) -> Seq<u8>
    decreases b.len(),
{
    if b.len() == 0 {
        Seq::empty()
    } else if b[0] == 0x21 {
        let k = digit_run(b, 1) as int;
        if 1 + k >= b.len() {
            Seq::empty()
        } else {
            proof {
                lemma_digit_run_bound(b, 1);
            }
            Seq::new(dec_value(b.subrange(1, 1 + k)), |j: int| (b[1 + k] - 0x3f) as u8) + rle_decode(
                b.subrange(2 + k, b.len() as int),
            )
        }
    } else {
        seq![(b[0] - 0x3f) as u8] + rle_decode(b.drop_first())
    }
}

/// A run of digits from `i` stays inside `b`.
pub proof fn lemma_digit_run_bound(b: Seq<u8>, i: int)
    requires
        0 <= i,
    ensures
        digit_run(b, i) <= if i <= b.len() { b.len() - i } else { 0 },
    decreases b.len() - i,
{
    if 0 <= i < b.len() && is_dec_digit(b[i]) {
        lemma_digit_run_bound(b, i + 1);
    }
}

proof fn lemma_dec_digits(n: nat)
    ensures
        dec(n).len() >= 1,
        forall|j: int| 0 <= j < dec(n).len() ==> is_dec_digit(#[trigger] dec(n)[j]),
        dec_value(dec(n)) == n,
    decreases n,
{
    if n >= 10 {
        lemma_dec_digits(n / 10);
        let d = dec(n);
        assert(d.drop_last() =~= dec(n / 10));
        assert forall|j: int| 0 <= j < d.len() implies is_dec_digit(#[trigger] d[j]) by {
            if j < d.len() - 1 {
                assert(d[j] == dec(n / 10)[j]);
            }
        }
    } else {
        assert(dec_value(dec(n).drop_last()) == 0) by {
            assert(dec(n).drop_last() =~= Seq::<u8>::empty());
        }
    }
}

/// A digit run over `d` placed at `i` in `b`, followed by a non-digit.
proof fn lemma_digit_run_of(b: Seq<u8>, i: int, m: int)
    requires
        0 <= i,
        0 <= m,
        i + m < b.len(),
        forall|j: int| i <= j < i + m ==> is_dec_digit(#[trigger] b[j]),
        !is_dec_digit(b[i + m]),
    ensures
        digit_run(b, i) == m,
    decreases m,
{
    if m > 0 {
        lemma_digit_run_of(b, i + 1, m - 1);
    }
}

/// Literal characters decode one column each.
proof fn lemma_decode_literal(n: nat, v: u8, rest: Seq<u8>)
    requires
        v < 64,
    ensures
        rle_decode(Seq::new(n, |k: int| (0x3f + v) as u8) + rest) == Seq::new(n, |k: int| v) + rle_decode(rest),
    decreases n,
{
    let lit = Seq::new(n, |k: int| (0x3f + v) as u8);
    if n > 0 {
        let b = lit + rest;
        let lit2 = Seq::new((n - 1) as nat, |k: int| (0x3f + v) as u8);
        assert(b.drop_first() =~= lit2 + rest);
        lemma_decode_literal((n - 1) as nat, v, rest);
        assert(Seq::new(n, |k: int| v) =~= seq![v] + Seq::new((n - 1) as nat, |k: int| v));
    } else {
        assert(lit + rest =~= rest);
        assert(Seq::new(n, |k: int| v) =~= Seq::<u8>::empty());
    }
}

/// The columns of a run are all equal to its first.
proof fn lemma_run_is_uniform(s: Seq<u8>, i: int, v: u8)
    requires
        0 <= i,
    ensures
        forall|j: int| i <= j < i + run_from(s, i, v) ==> #[trigger] s[j] == v,
    decreases s.len() - i,
{
    if 0 <= i < s.len() && s[i] == v {
        lemma_run_is_uniform(s, i + 1, v);
    }
}

proof fn lemma_rle_round_trip_from(s: Seq<u8>, i: int)
    requires
        0 <= i <= s.len(),
        forall|j: int| 0 <= j < s.len() ==> #[trigger] s[j] < 64,
    ensures
        rle_decode(rle_from(s, i)) == s.subrange(i, s.len() as int),
    decreases s.len() - i,
{
    if i == s.len() {
        assert(s.subrange(i, s.len() as int) =~= Seq::<u8>::empty());
    } else {
        let v = s[i];
        let n = run_from(s, i, v);
        lemma_run_from_bound(s, i, v);
        lemma_run_is_uniform(s, i, v);
        lemma_rle_round_trip_from(s, i + n);
        let rest = rle_from(s, i + n);
        assert(rle_from(s, i) == rle_chunk(n, v) + rest);
        let ch = (0x3f + v) as u8;
        if n > 3 {
            let d = dec(n);
            lemma_dec_digits(n);
            let b = seq![0x21u8] + d + seq![ch] + rest;
            assert(rle_chunk(n, v) + rest =~= b);
            assert forall|j: int| 1 <= j < 1 + d.len() implies is_dec_digit(#[trigger] b[j]) by {
                assert(b[j] == d[j - 1]);
            }
            assert(b[1 + d.len() as int] == ch);
            lemma_digit_run_of(b, 1, d.len() as int);
            assert(b.subrange(1, 1 + d.len() as int) =~= d);
            assert(b.subrange(2 + d.len() as int, b.len() as int) =~= rest);
            assert(Seq::new(n, |j: int| (b[1 + d.len() as int] - 0x3f) as u8) =~= s.subrange(i, i + n));
        } else {
            lemma_decode_literal(n, v, rest);
            assert(Seq::new(n, |k: int| v) =~= s.subrange(i, i + n));
        }
        assert(s.subrange(i, s.len() as int) =~= s.subrange(i, i + n) + s.subrange(i + n, s.len() as int));
    }
}

/// The run-length encoding is lossless: decoding the characters emitted
/// for a row of columns gives the row back.
pub proof fn law_rle_round_trip(cols: Seq<u8>)
    requires
        forall|j: int| 0 <= j < cols.len() ==> #[trigger] cols[j] < 64,
    ensures
        rle_decode(rle_from(cols, 0)) == cols,
{
    lemma_rle_round_trip_from(cols, 0);
    assert(cols.subrange(0, cols.len() as int) =~= cols);
}

/// Emits column sixel characters (`0x3F + bits`), run-length encoding runs
/// longer than 3 as `!<n><ch>` and writing shorter ones literally.
fn emit_rle(out: &mut Vec<u8>, cols: &[u8])
    requires
        forall|i: int| 0 <= i < cols@.len() ==> #[trigger] cols@[i] < 64,
    ensures
        final(out)@ == old(out)@ + rle_from(cols@, 0),
{
    let len = cols.len();
    let mut i: usize = 0;
    while i < len
        invariant
            len == cols@.len(),
            i <= len,
            forall|j: int| 0 <= j < cols@.len() ==> #[trigger] cols@[j] < 64,
            out@ + rle_from(cols@, i as int) == old(out)@ + rle_from(cols@, 0),
        decreases len - i,
    {
        let v = cols[i];
        let ch: u8 = 0x3f + v;
        let mut n: usize = 1;
        while i + n < len && cols[i + n] == v
            invariant
                len == cols@.len(),
                i < len,
                1 <= n <= len - i,
                v == cols@[i as int],
                run_from(cols@, i as int, v) == n + run_from(cols@, i + n, v),
            decreases len - i - n,
        {
            n = n + 1;
        }
        assert(run_from(cols@, i + n, v) == 0);
        let ghost before = out@;
        if n > 3 {
            out.push(0x21);
            push_dec(out, n);
            out.push(ch);
        } else {
            let mut k: usize = 0;
            while k < n
                invariant
                    k <= n,
                    out@ == before + Seq::new(k as nat, |j: int| ch),
                decreases n - k,
            {
                out.push(ch);
                k = k + 1;
                assert(out@ =~= before + Seq::new(k as nat, |j: int| ch));
            }
        }
        assert(out@ =~= before + rle_chunk(n as nat, v));
        assert(rle_from(cols@, i as int) == rle_chunk(n as nat, v) + rle_from(cols@, i + n));
        assert(out@ + rle_from(cols@, i + n) =~= before + rle_from(cols@, i as int));
        i = i + n;
    }
}

/// The quantized raster: the first `h` rows, each a row of cube indices.
pub open spec fn quantized(img: RgbImage, h: int) -> Seq<Seq<u8>> {
    Seq::new(
        h as nat,
        |y: int| Seq::new(img.spec_width() as nat, |x: int| cube_index(img.spec_pixel(x, y)) as u8),
    )
}

/// The rows of `g` as sequences.
pub open spec fn grid_view(g: Seq<Vec<u8>>) -> Seq<Seq<u8>> {
    g.map_values(|r: Vec<u8>| r@)
}

/// `row` holds the index `c`.
pub open spec fn row_has(row: Seq<u8>, c: int) -> bool
    decreases row.len(),
{
    row.len() > 0 && (row.last() == c || row_has(row.drop_last(), c))
}

/// Some row of `g` holds the index `c`.
pub open spec fn grid_has(g: Seq<Seq<u8>>, c: int) -> bool
    decreases g.len(),
{
    g.len() > 0 && (row_has(g.last(), c) || grid_has(g.drop_last(), c))
}

/// Quantizes the first `h` rows of `img`.
fn quantize_rows(img: &RgbImage, h: u32) -> (q: Vec<Vec<u8>>)
    requires
        img.wf(),
        h <= img.spec_height(),
    ensures
        grid_view(q@) == quantized(*img, h as int),
        q@.len() == h,
        forall|y: int| 0 <= y < h ==> (#[trigger] q@[y])@.len() == img.spec_width(),
        forall|y: int, x: int|
            0 <= y < h && 0 <= x < img.spec_width() ==> #[trigger] q@[y]@[x] < PALETTE_SIZE,
{
    let w = img.width;
    let mut q: Vec<Vec<u8>> = Vec::new();
    let mut y: u32 = 0;
    while y < h
        invariant
            img.wf(),
            w == img.spec_width(),
            h <= img.spec_height(),
            y <= h,
            q@.len() == y,
            forall|j: int|
                0 <= j < y ==> (#[trigger] q@[j])@ == Seq::new(
                    w as nat,
                    |x: int| cube_index(img.spec_pixel(x, j)) as u8,
                ),
            forall|j: int, x: int| 0 <= j < y && 0 <= x < w ==> #[trigger] q@[j]@[x] < PALETTE_SIZE,
        decreases h - y,
    {
        let mut row: Vec<u8> = Vec::new();
        let mut x: u32 = 0;
        while x < w
            invariant
                img.wf(),
                w == img.spec_width(),
                y < h <= img.spec_height(),
                x <= w,
                row@ == Seq::new(x as nat, |i: int| cube_index(img.spec_pixel(i, y as int)) as u8),
                forall|i: int| 0 <= i < x ==> #[trigger] row@[i] < PALETTE_SIZE,
            decreases w - x,
        {
            let px = img.get_pixel(x, y);
            let c = quantize(&px);
            row.push(c);
            x = x + 1;
            assert(row@ =~= Seq::new(x as nat, |i: int| cube_index(img.spec_pixel(i, y as int)) as u8));
        }
        q.push(row);
        y = y + 1;
    }
    assert(grid_view(q@) =~= quantized(*img, h as int));
    q
}

/// Which of the palette indices occur in rows `from..to` of `g`.
fn used_colors(g: &Vec<Vec<u8>>, from: usize, to: usize) -> (used: Vec<bool>)
    requires
        from <= to <= g@.len(),
        forall|y: int, x: int|
            from <= y < to && 0 <= x < g@[y]@.len() ==> #[trigger] g@[y]@[x] < PALETTE_SIZE,
    ensures
        used@.len() == PALETTE_SIZE,
        forall|c: int|
            0 <= c < PALETTE_SIZE ==> #[trigger] used@[c] == grid_has(
                grid_view(g@).subrange(from as int, to as int),
                c,
            ),
{
    let ghost gv = grid_view(g@);
    let mut used: Vec<bool> = Vec::new();
    let mut c: usize = 0;
    while c < PALETTE_SIZE
        invariant
            c <= PALETTE_SIZE,
            used@ == Seq::new(c as nat, |i: int| false),
        decreases PALETTE_SIZE - c,
    {
        used.push(false);
        c = c + 1;
    }
    let mut y: usize = from;
    while y < to
        invariant
            from <= y <= to <= g@.len(),
            gv == grid_view(g@),
            forall|yy: int, x: int|
                from <= yy < to && 0 <= x < g@[yy]@.len() ==> #[trigger] g@[yy]@[x] < PALETTE_SIZE,
            used@.len() == PALETTE_SIZE,
            forall|k: int|
                0 <= k < PALETTE_SIZE ==> #[trigger] used@[k] == grid_has(
                    gv.subrange(from as int, y as int),
                    k,
                ),
        decreases to - y,
    {
        let n = g[y].len();
        let ghost row = gv[y as int];
        let mut x: usize = 0;
        while x < n
            invariant
                from <= y < to <= g@.len(),
                gv == grid_view(g@),
                row == gv[y as int],
                n == row.len(),
                forall|yy: int, xx: int|
                    from <= yy < to && 0 <= xx < g@[yy]@.len() ==> #[trigger] g@[yy]@[xx] < PALETTE_SIZE,
                x <= n,
                used@.len() == PALETTE_SIZE,
                forall|k: int|
                    0 <= k < PALETTE_SIZE ==> #[trigger] used@[k] == (grid_has(
                        gv.subrange(from as int, y as int),
                        k,
                    ) || row_has(row.take(x as int), k)),
            decreases n - x,
        {
            let v = g[y][x];
            used.set(v as usize, true);
            assert(row.take(x + 1).drop_last() =~= row.take(x as int));
            x = x + 1;
        }
        assert(row.take(n as int) =~= row);
        assert(gv.subrange(from as int, y + 1).drop_last() =~= gv.subrange(from as int, y as int));
        y = y + 1;
    }
    used
}

/// The register definition `#c;2;R;G;B` of palette index `c`.
pub open spec fn palette_entry(c: int) -> Seq<u8> {
    let rgb = register_rgb(c);
    seq![0x23u8] + dec(c as nat) + seq![0x3bu8, 0x32u8, 0x3bu8] + dec(rgb.0 as nat) + seq![0x3bu8] + dec(
        rgb.1 as nat,
    ) + seq![0x3bu8] + dec(rgb.2 as nat)
}

/// The register definitions, ascending, of the indices below `k` that
/// occur in `g`.
pub open spec fn palette_upto(g: Seq<Seq<u8>>, k: int) -> Seq<u8>
    decreases k,
{
    if k <= 0 {
        Seq::empty()
    } else {
        palette_upto(g, k - 1) + if grid_has(g, k - 1) {
            palette_entry(k - 1)
        } else {
            Seq::empty()
        }
    }
}

/// Appends the register definitions of the used palette indices.
fn push_palette(out: &mut Vec<u8>, used: &Vec<bool>, Ghost(g): Ghost<Seq<Seq<u8>>>)
    requires
        used@.len() == PALETTE_SIZE,
        forall|c: int| 0 <= c < PALETTE_SIZE ==> #[trigger] used@[c] == grid_has(g, c),
    ensures
        final(out)@ == old(out)@ + palette_upto(g, PALETTE_SIZE as int),
{
    let mut c: usize = 0;
    while c < PALETTE_SIZE
        invariant
            c <= PALETTE_SIZE,
            used@.len() == PALETTE_SIZE,
            forall|k: int| 0 <= k < PALETTE_SIZE ==> #[trigger] used@[k] == grid_has(g, k),
            out@ == old(out)@ + palette_upto(g, c as int),
        decreases PALETTE_SIZE - c,
    {
        let ghost before = out@;
        if used[c] {
            let (r, gr, b) = palette_rgb(c as u8);
            out.push(0x23);
            push_dec(out, c);
            out.push(0x3b);
            out.push(0x32);
            out.push(0x3b);
            push_dec(out, r as usize);
            out.push(0x3b);
            push_dec(out, gr as usize);
            out.push(0x3b);
            push_dec(out, b as usize);
            assert(out@ =~= before + palette_entry(c as int));
        } else {
            assert(out@ =~= before + Seq::<u8>::empty());
        }
        assert(out@ =~= old(out)@ + palette_upto(g, c + 1));
        c = c + 1;
    }
}

/// The bit of row `dy` in a sixel column: `1 << dy`.
pub open spec fn bit(dy: int) -> int
    decreases dy,
{
    if dy <= 0 {
        1
    } else {
        2 * bit(dy - 1)
    }
}

/// The bit pattern of column `x` for palette index `c` over the first `k`
/// rows of a band (bit 0 is the top row).
pub open spec fn column_bits(band: Seq<Seq<u8>>, x: int, c: int, k: int) -> int
    decreases k,
{
    if k <= 0 {
        0
    } else {
        column_bits(band, x, c, k - 1) + if band[k - 1][x] == c {
            bit(k - 1)
        } else {
            0
        }
    }
}

/// The column patterns of palette index `c` across a band `w` columns wide.
pub open spec fn color_columns(band: Seq<Seq<u8>>, w: int, c: int) -> Seq<u8> {
    Seq::new(w as nat, |x: int| column_bits(band, x, c, 6) as u8)
}

proof fn lemma_column_bits_bound(band: Seq<Seq<u8>>, x: int, c: int, k: int)
    requires
        0 <= k,
    ensures
        0 <= column_bits(band, x, c, k) < bit(k),
    decreases k,
{
    if k > 0 {
        lemma_column_bits_bound(band, x, c, k - 1);
    }
}

/// The column patterns of palette index `color` in the band of rows
/// `y0..y0 + 6`.
fn column_pattern(g: &Vec<Vec<u8>>, y0: usize, w: usize, color: usize) -> (cols: Vec<u8>)
    requires
        y0 + 6 <= g@.len(),
        forall|dy: int| 0 <= dy < 6 ==> (#[trigger] g@[y0 + dy])@.len() == w,
    ensures
        cols@ == color_columns(grid_view(g@).subrange(y0 as int, y0 + 6), w as int, color as int),
        forall|i: int| 0 <= i < cols@.len() ==> #[trigger] cols@[i] < 64,
{
    let ghost band = grid_view(g@).subrange(y0 as int, y0 + 6);
    proof {
        reveal_with_fuel(bit, 7);
    }
    let mut cols: Vec<u8> = Vec::new();
    let mut x: usize = 0;
    while x < w
        invariant
            y0 + 6 <= g@.len(),
            forall|dy: int| 0 <= dy < 6 ==> (#[trigger] g@[y0 + dy])@.len() == w,
            band == grid_view(g@).subrange(y0 as int, y0 + 6),
            bit(0) == 1 && bit(1) == 2 && bit(2) == 4 && bit(3) == 8 && bit(4) == 16 && bit(5) == 32 && bit(6) == 64,
            x <= w,
            cols@ == Seq::new(x as nat, |i: int| column_bits(band, i, color as int, 6) as u8),
            forall|i: int| 0 <= i < cols@.len() ==> #[trigger] cols@[i] < 64,
        decreases w - x,
    {
        let mut bits: u8 = 0;
        let mut b: u8 = 1;
        let mut dy: usize = 0;
        while dy < 6
            invariant
                y0 + 6 <= g.len(),
                forall|d: int| 0 <= d < 6 ==> (#[trigger] g@[y0 + d])@.len() == w,
                band == grid_view(g@).subrange(y0 as int, y0 + 6),
                x < w,
                dy <= 6,
                b == bit(dy as int),
                bits == column_bits(band, x as int, color as int, dy as int),
                bit(0) == 1 && bit(1) == 2 && bit(2) == 4 && bit(3) == 8 && bit(4) == 16 && bit(5) == 32 && bit(6) == 64,
            decreases 6 - dy,
        {
            proof {
                lemma_column_bits_bound(band, x as int, color as int, dy as int);
            }
            assert(band[dy as int][x as int] == g@[y0 + dy]@[x as int]);
            if g[y0 + dy][x] as usize == color {
                bits = bits + b;
            }
            b = b * 2;
            dy = dy + 1;
        }
        proof {
            lemma_column_bits_bound(band, x as int, color as int, 6);
        }
        cols.push(bits);
        x = x + 1;
        assert(cols@ =~= Seq::new(x as nat, |i: int| column_bits(band, i, color as int, 6) as u8));
    }
    cols
}

/// Length of `cols` without its trailing empty columns.
pub open spec fn painted_len(cols: Seq<u8>) -> int
    decreases cols.len(),
{
    if cols.len() == 0 {
        0
    } else if cols.last() != 0 {
        cols.len() as int
    } else {
        painted_len(cols.drop_last())
    }
}

/// Length of `cols` once the trailing empty columns, which paint nothing,
/// are dropped.
fn painted(cols: &Vec<u8>) -> (r: usize)
    ensures
        r == painted_len(cols@),
        r <= cols@.len(),
{
    let mut j: usize = cols.len();
    assert(cols@.take(j as int) =~= cols@);
    while j > 0 && cols[j - 1] == 0
        invariant
            j <= cols@.len(),
            painted_len(cols@) == painted_len(cols@.take(j as int)),
        decreases j,
    {
        assert(cols@.take(j as int).drop_last() =~= cols@.take(j - 1));
        j = j - 1;
    }
    j
}

/// The colour section of palette index `c` in a band: `#c` and the
/// run-length encoded columns, trailing empty columns dropped.
pub open spec fn color_entry(band: Seq<Seq<u8>>, w: int, c: int) -> Seq<u8> {
    let cols = color_columns(band, w, c);
    seq![0x23u8] + dec(c as nat) + rle_from(cols.take(painted_len(cols)), 0)
}

/// The colour sections, ascending and separated by `$`, of the indices
/// below `k` that occur in the band.
pub open spec fn band_body(band: Seq<Seq<u8>>, w: int, k: int) -> Seq<u8>
    decreases k,
{
    if k <= 0 {
        Seq::empty()
    } else {
        let prev = band_body(band, w, k - 1);
        if grid_has(band, k - 1) {
            prev + (if prev.len() > 0 {
                seq![0x24u8]
            } else {
                Seq::empty()
            }) + color_entry(band, w, k - 1)
        } else {
            prev
        }
    }
}

/// The first `nb` bands of six rows of `g`, each closed by `-`.
pub open spec fn bands_upto(g: Seq<Seq<u8>>, w: int, nb: int) -> Seq<u8>
    decreases nb,
{
    if nb <= 0 {
        Seq::empty()
    } else {
        bands_upto(g, w, nb - 1) + band_body(g.subrange(6 * (nb - 1), 6 * nb), w, PALETTE_SIZE as int)
            + seq![0x2du8]
    }
}

/// `ESC P 0;1;0 q` and the raster attributes `"1;1;<w>;<h>`.
pub open spec fn sixel_header(w: int, h: int) -> Seq<u8> {
    seq![0x1bu8, 0x50u8, 0x30u8, 0x3bu8, 0x31u8, 0x3bu8, 0x30u8, 0x71u8, 0x22u8, 0x31u8, 0x3bu8, 0x31u8, 0x3bu8]
        + dec(w as nat) + seq![0x3bu8] + dec(h as nat)
}

/// The height actually encoded: the raster's, cut down to whole bands.
pub open spec fn band_height(img: RgbImage) -> int {
    img.spec_height() - img.spec_height() % 6
}

/// The complete sixel sequence of `img`: header, the used palette registers
/// ascending, the bands, and the `ESC \` terminator.
pub open spec fn sixel_bytes(img: RgbImage) -> Seq<u8> {
    let h = band_height(img);
    let g = quantized(img, h);
    sixel_header(img.spec_width(), h) + palette_upto(g, PALETTE_SIZE as int) + bands_upto(
        g,
        img.spec_width(),
        h / 6,
    ) + seq![0x1bu8, 0x5cu8]
}

/// Every encoding starts with the DCS introducer and the raster attributes
/// and ends with the string terminator `ESC \`; the raster it declares is
/// cut down to whole bands of six rows.
#[verifier::spinoff_prover]
#[verifier::rlimit(40)]
pub proof fn law_sixel_framing(img: RgbImage)
    ensures
        sixel_bytes(img).subrange(0, 13) == seq![
            0x1bu8,
            0x50u8,
            0x30u8,
            0x3bu8,
            0x31u8,
            0x3bu8,
            0x30u8,
            0x71u8,
            0x22u8,
            0x31u8,
            0x3bu8,
            0x31u8,
            0x3bu8,
        ],
        sixel_bytes(img).subrange(sixel_bytes(img).len() - 2, sixel_bytes(img).len() as int) == seq![
            0x1bu8,
            0x5cu8,
        ],
        band_height(img) % 6 == 0,
        0 <= band_height(img) <= img.spec_height(),
        img.spec_height() - band_height(img) < 6,
{
    let b = sixel_bytes(img);
    let h = band_height(img);
    let head = sixel_header(img.spec_width(), h);
    let g = quantized(img, h);
    let rest = palette_upto(g, PALETTE_SIZE as int) + bands_upto(g, img.spec_width(), h / 6);
    assert(b =~= head + rest + seq![0x1bu8, 0x5cu8]);
    assert(b.subrange(0, 13) =~= head.subrange(0, 13));
    assert(b.subrange(b.len() - 2, b.len() as int) =~= seq![0x1bu8, 0x5cu8]);
}

/// Appends the band of rows `y0..y0 + 6` and its `-` terminator.
fn push_band(out: &mut Vec<u8>, g: &Vec<Vec<u8>>, y0: usize, w: usize)
    requires
        y0 + 6 <= g.len(),
        forall|dy: int| 0 <= dy < 6 ==> (#[trigger] g@[y0 + dy])@.len() == w,
        forall|y: int, x: int|
            y0 <= y < y0 + 6 && 0 <= x < g@[y]@.len() ==> #[trigger] g@[y]@[x] < PALETTE_SIZE,
    ensures
        final(out)@ == old(out)@ + band_body(grid_view(g@).subrange(y0 as int, y0 + 6), w as int, PALETTE_SIZE as int)
            + seq![0x2du8],
{
    let ghost band = grid_view(g@).subrange(y0 as int, y0 + 6);
    let band_used = used_colors(g, y0, y0 + 6);
    let mut first = true;
    let mut color: usize = 0;
    while color < PALETTE_SIZE
        invariant
            y0 + 6 <= g.len(),
            forall|dy: int| 0 <= dy < 6 ==> (#[trigger] g@[y0 + dy])@.len() == w,
            band == grid_view(g@).subrange(y0 as int, y0 + 6),
            band_used@.len() == PALETTE_SIZE,
            forall|c: int| 0 <= c < PALETTE_SIZE ==> #[trigger] band_used@[c] == grid_has(band, c),
            color <= PALETTE_SIZE,
            out@ == old(out)@ + band_body(band, w as int, color as int),
            first <==> band_body(band, w as int, color as int).len() == 0,
        decreases PALETTE_SIZE - color,
    {
        let ghost before = out@;
        let ghost prev = band_body(band, w as int, color as int);
        if band_used[color] {
            if !first {
                out.push(0x24);
            }
            let ghost sep = out@;
            first = false;
            out.push(0x23);
            push_dec(out, color);
            let mut cols = column_pattern(g, y0, w, color);
            let last = painted(&cols);
            let ghost full = cols@;
            cols.truncate(last);
            assert(cols@ =~= full.take(last as int));
            emit_rle(out, cols.as_slice());
            assert(out@ =~= sep + color_entry(band, w as int, color as int));
            assert(out@ =~= old(out)@ + band_body(band, w as int, color + 1));
        }
        color = color + 1;
    }
    out.push(0x2d);
    assert(out@ =~= old(out)@ + band_body(band, w as int, PALETTE_SIZE as int) + seq![0x2du8]);
}

/// Encodes `rgb` as a complete sixel sequence: `ESC P 0;1;0 q` (zero bits
/// leave the background untouched), the raster attributes `"1;1;<w>;<h>`,
/// the used palette registers ascending, then bands of six rows (per colour
/// `#idx` and the column sixels with `!<n>` runs over 3, `$` between
/// colours, `-` after each band) and the `ESC \` terminator.
pub fn sixel_encode(rgb: &RgbImage) -> (out: Vec<u8>)
    requires
        rgb.wf(),
    ensures
        out@ == sixel_bytes(*rgb),
{
    let w = rgb.width();
    let h = rgb.height() - rgb.height() % 6;
    let mut out: Vec<u8> = Vec::new();
    out.push(0x1b);
    out.push(0x50);
    out.push(0x30);
    out.push(0x3b);
    out.push(0x31);
    out.push(0x3b);
    out.push(0x30);
    out.push(0x71);
    out.push(0x22);
    out.push(0x31);
    out.push(0x3b);
    out.push(0x31);
    out.push(0x3b);
    push_dec(&mut out, w as usize);
    out.push(0x3b);
    push_dec(&mut out, h as usize);
    assert(out@ =~= sixel_header(w as int, h as int));

    let q = quantize_rows(rgb, h);
    let ghost g = grid_view(q@);
    let used = used_colors(&q, 0, h as usize);
    assert(g.subrange(0, h as int) =~= g);
    push_palette(&mut out, &used, Ghost(g));
    let ghost head = out@;

    let nb = h / 6;
    let mut band: u32 = 0;
    while band < nb
        invariant
            nb == h / 6,
            h % 6 == 0,
            q.len() == h,
            forall|y: int| 0 <= y < h ==> (#[trigger] q@[y])@.len() == rgb.spec_width(),
            g == grid_view(q@),
            g == quantized(*rgb, h as int),
            w == rgb.spec_width(),
            forall|y: int, x: int|
                0 <= y < h && 0 <= x < rgb.spec_width() ==> #[trigger] q@[y]@[x] < PALETTE_SIZE,
            band <= nb,
            out@ == head + bands_upto(g, w as int, band as int),
        decreases nb - band,
    {
        let y0 = (band as usize) * 6;
        push_band(&mut out, &q, y0, w as usize);
        band = band + 1;
        assert(out@ =~= head + bands_upto(g, w as int, band as int));
    }
    out.push(0x1b);
    out.push(0x5c);
    assert(out@ =~= sixel_bytes(*rgb));
    out
}

} // verus!
