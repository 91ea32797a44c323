//! Pure pieces of the file preview: the graphics row budget, the cell
//! geometry a protocol can draw with, line scrubbing for untrusted text,
//! the thumbnail location and the PDF render switch.

use vstd::prelude::*;
use crate::graphics::{CellGeometry, GraphicsProtocol};
use crate::text::{chars_of, str_eq, string_of};

verus! {

/// Longest PDF-sourced line kept, in characters.
pub const PDF_LINE_MAX: usize = 1024;

/// Cell rows the image may occupy in a graphics-protocol draw: the full
/// height when there are no info lines, else two thirds of it, mirroring the
/// half-block branch's pixel budget (2 pixels per cell row).
pub fn image_rows(height: u16, has_info: bool) -> (r: u16)
    requires
        has_info ==> 2 * height <= u16::MAX,
    ensures
        r == (if has_info {
            2 * height / 3
        } else {
            height as int
        }),
{
    if has_info {
        2 * height / 3
    } else {
        height
    }
}

/// Cell size assumed when the terminal never reported its pixel geometry:
/// kitty scales the raster into the cell rectangle, so placement stays
/// exact even if the guess is off.
pub fn assumed_cell() -> (r: CellGeometry)
    ensures
        r.cell_w == 8,
        r.cell_h == 16,
{
    CellGeometry { cell_w: 8, cell_h: 16 }
}

/// The cell geometry a protocol can draw with, given what the terminal
/// reported, or `None` when it cannot draw: kitty tolerates a missing
/// report (assumed cell), a sixel raster is placed verbatim and needs the
/// real cell size, and half-block is no graphics emitter.
pub fn geometry_for(proto: GraphicsProtocol, reported: Option<CellGeometry>) -> (r: Option<CellGeometry>)
    ensures
        proto == GraphicsProtocol::Kitty ==> r == (match reported {
            Some(g) => Some(g),
            None => Some(CellGeometry { cell_w: 8, cell_h: 16 }),
        }),
        proto == GraphicsProtocol::Sixel ==> r == reported,
        proto == GraphicsProtocol::HalfBlock ==> r is None,
{
    match proto {
        GraphicsProtocol::Kitty => match reported {
            Some(g) => Some(g),
            None => Some(assumed_cell()),
        },
        GraphicsProtocol::Sixel => reported,
        GraphicsProtocol::HalfBlock => None,
    }
}

/// `s` without its carriage returns and line feeds.
pub open spec fn scrubbed(s: Seq<char>) -> Seq<char>
    decreases s.len(),
{
    if s.len() == 0 {
        Seq::empty()
    } else if s.last() == '\r' || s.last() == '\n' {
        scrubbed(s.drop_last())
    } else {
        scrubbed(s.drop_last()).push(s.last())
    }
}

/// Removes `\r` and `\n`: untrusted strings (archive member names, audio
/// tags, certificate fields) must not break the one-entry-one-line layout
/// of the preview pane.
pub fn scrub_line(line: String) -> (r: String)
    ensures
        r@ == scrubbed(line@),
{
    let cs = chars_of(line.as_str());
    let mut out: Vec<char> = Vec::new();
    let mut i: usize = 0;
    while i < cs.len()
        invariant
            cs@ == line@,
            i <= cs@.len(),
            out@ == scrubbed(line@.take(i as int)),
        decreases cs@.len() - i,
    {
        let c = cs[i];
        assert(line@.take(i + 1).drop_last() =~= line@.take(i as int));
        if c != '\r' && c != '\n' {
            out.push(c);
        }
        i = i + 1;
    }
    assert(line@.take(i as int) =~= line@);
    string_of(out.as_slice())
}

/// A scrubbed line holds no carriage return and no line feed, so every
/// entry of a line-based preview stays on one line; nothing else is lost.
pub proof fn law_scrubbed_lines_stay_single(s: Seq<char>)
    ensures
        forall|i: int| 0 <= i < scrubbed(s).len() ==> #[trigger] scrubbed(s)[i] != '\r' && scrubbed(s)[i] != '\n',
        scrubbed(s).len() <= s.len(),
        (forall|i: int| 0 <= i < s.len() ==> #[trigger] s[i] != '\r' && s[i] != '\n') ==> scrubbed(s) == s,
    decreases s.len(),
{
    if s.len() > 0 {
        law_scrubbed_lines_stay_single(s.drop_last());
        let t = s.drop_last();
        if forall|i: int| 0 <= i < s.len() ==> #[trigger] s[i] != '\r' && s[i] != '\n' {
            assert forall|i: int| 0 <= i < t.len() implies #[trigger] t[i] != '\r' && t[i] != '\n' by {
                assert(t[i] == s[i]);
            }
            assert(scrubbed(s) =~= s);
        }
    } else {
        assert(scrubbed(s) =~= s);
    }
}

/// Scrubs and length-caps one PDF-sourced line: at most [`PDF_LINE_MAX`]
/// characters are kept.
pub fn pdf_line(line: &str) -> (r: String)
    ensures
        r@ == (if scrubbed(line@).len() > PDF_LINE_MAX {
            scrubbed(line@).take(PDF_LINE_MAX as int)
        } else {
            scrubbed(line@)
        }),
{
    let s = scrub_line(crate::text::owned(line));
    let cs = chars_of(s.as_str());
    if cs.len() > PDF_LINE_MAX {
        let mut out: Vec<char> = Vec::new();
        let mut i: usize = 0;
        while i < PDF_LINE_MAX
            invariant
                cs@ == s@,
                cs@.len() > PDF_LINE_MAX,
                i <= PDF_LINE_MAX,
                out@ == s@.take(i as int),
            decreases PDF_LINE_MAX - i,
        {
            out.push(cs[i]);
            i = i + 1;
            assert(out@ =~= s@.take(i as int));
        }
        string_of(out.as_slice())
    } else {
        s
    }
}

/// Where video thumbnails go: the cache directory when there is one; the
/// temporary fallback (computed only then) when the cache is enabled but
/// unavailable; nowhere when the user opted out, so that nothing about
/// their files is written to disk.
pub fn video_thumbnail_dir_from<F: FnOnce() -> String>(cache_dir: Option<String>, enabled: bool, fallback: F) -> (r:
    Option<String>)
    requires
        cache_dir is None && enabled ==> call_requires(fallback, ()),
    ensures
        cache_dir is Some ==> r == cache_dir,
        cache_dir is None && enabled ==> (r matches Some(d) && call_ensures(fallback, (), d)),
        cache_dir is None && !enabled ==> r is None,
{
    match cache_dir {
        Some(dir) => Some(dir),
        None => {
            if enabled {
                Some(fallback())
            } else {
                None
            }
        },
    }
}

/// The `pdf_render` configuration switch: unset until the application sets
/// it once at startup; unset counts as off.
pub struct PdfRenderSwitch {
    value: Option<bool>,
}

impl PdfRenderSwitch {
    pub closed spec fn spec_value(&self) -> Option<bool> {
        self.value
    }

    /// The switch before it is set.
    pub fn unset() -> (r: Self)
        ensures
            r.spec_value() is None,
    {
        PdfRenderSwitch { value: None }
    }

    /// Sets the switch; only the first setting counts.
    pub fn set_pdf_render(&mut self, enabled: bool)
        ensures
            final(self).spec_value() == (match old(self).spec_value() {
                Some(v) => Some(v),
                None => Some(enabled),
            }),
    {
        if self.value.is_none() {
            self.value = Some(enabled);
        }
    }

    /// Whether the optional PDF image tier is on.
    pub fn pdf_render_enabled(&self) -> (r: bool)
        ensures
            r == (self.spec_value() == Some(true)),
    {
        match self.value {
            Some(v) => v,
            None => false,
        }
    }
}

impl Default for PdfRenderSwitch {
    /// Unset: off.
    fn default() -> (r: Self)
        ensures
            r.spec_value() is None,
    {
        PdfRenderSwitch::unset()
    }
}

/// The value of little-endian bytes.
pub open spec fn le_value(b: Seq<u8>) -> nat
    decreases b.len(),
{
    if b.len() == 0 {
        0
    } else {
        b[0] as nat + 256 * le_value(b.drop_first())
    }
}

/// `256` to the power `n`.
pub open spec fn pow256(n: nat) -> nat
    decreases n,
{
    if n == 0 {
        1
    } else {
        256 * pow256((n - 1) as nat)
    }
}

proof fn lemma_le_value_bound(b: Seq<u8>)
    ensures
        le_value(b) < pow256(b.len()),
    decreases b.len(),
{
    if b.len() > 0 {
        let r = b.drop_first();
        lemma_le_value_bound(r);
        let x = le_value(r);
        let p = pow256(r.len());
        let d = b[0];
        assert(d + 256 * x < 256 * p) by (nonlinear_arith)
            requires
                x < p,
                d < 256,
        ;
    }
}

/// The signature a 7z archive starts with.
pub open spec fn sevenz_magic() -> Seq<u8> {
    seq![0x37u8, 0x7au8, 0xbcu8, 0xafu8, 0x27u8, 0x1cu8]
}

/// Largest next-header size trusted before the archive is opened.
pub const SEVENZ_HEADER_MAX: u64 = 1048576;

/// Why a 7z start header is not trusted.
#[derive(Debug, Clone, Copy, PartialEq, Eq)]
pub enum SevenzHeaderError {
    /// The file does not start with the 7z signature.
    NotSevenz,
    /// The next header declares this implausible size.
    ImplausibleSize(u64),
    /// The next header lies outside the file.
    OutsideFile,
}

/// The verdict on the first 32 bytes of a file of `len` bytes claiming to
/// be a 7z archive: the signature must match, the next header (offset at
/// bytes 12..20, size at 20..28, both little-endian, counted from the end
/// of these 32 bytes) may be at most [`SEVENZ_HEADER_MAX`] bytes and must
/// end inside the file.
pub open spec fn sevenz_verdict(start: Seq<u8>, len: u64) -> Result<(), SevenzHeaderError> {
    let offset = le_value(start.subrange(12, 20));
    let size = le_value(start.subrange(20, 28));
    if start.subrange(0, 6) != sevenz_magic() {
        Err(SevenzHeaderError::NotSevenz)
    } else if size > SEVENZ_HEADER_MAX {
        Err(SevenzHeaderError::ImplausibleSize(size as u64))
    } else if offset + size + 32 > len {
        Err(SevenzHeaderError::OutsideFile)
    } else {
        Ok(())
    }
}

/// The little-endian `u64` at `b[at..at + 8]`.
fn le_u64(b: &[u8], at: usize) -> (r: u64)
    requires
        at + 8 <= b@.len(),
    ensures
        r == le_value(b@.subrange(at as int, at + 8)),
{
    let mut acc: u64 = 0;
    let mut i: usize = 8;
    proof {
        assert(b@.subrange(at + 8, at + 8) =~= Seq::<u8>::empty());
        assert(pow256(0) == 1);
        assert(pow256(1) == 256);
        assert(pow256(2) == 65536);
        assert(pow256(3) == 16777216);
        assert(pow256(4) == 4294967296);
        assert(pow256(5) == 1099511627776);
        assert(pow256(6) == 281474976710656);
        assert(pow256(7) == 72057594037927936);
        assert(pow256(8) == 18446744073709551616);
    }
    let n = b.len();
    while i > 0
        invariant
            at + 8 <= b@.len(),
            n == b@.len(),
            i <= 8,
            acc == le_value(b@.subrange(at + i, at + 8)),
            pow256(8) == 18446744073709551616,
        decreases i,
    {
        i -= 1;
        let ghost t = b@.subrange(at + i, at + 8);
        proof {
            assert(t.drop_first() =~= b@.subrange(at + i + 1, at + 8));
            lemma_le_value_bound(t);
            lemma_pow256_mono(t.len(), 8);
        }
        acc = b[at + i] as u64 + 256 * acc;
    }
    acc
}

proof fn lemma_pow256_mono(m: nat, n: nat)
    requires
        m <= n,
    ensures
        pow256(m) <= pow256(n),
    decreases n,
{
    if m < n {
        lemma_pow256_mono(m, (n - 1) as nat);
    }
}

/// Checks the start header of a claimed 7z archive (see
/// [`sevenz_verdict`]) before the archive is handed to a parser that would
/// allocate the declared next-header size up front.
pub fn sevenz_start_header_check(start: &[u8], len: u64) -> (r: Result<(), SevenzHeaderError>)
    requires
        start@.len() == 32,
    ensures
        r == sevenz_verdict(start@, len),
{
    let magic: [u8; 6] = [0x37, 0x7a, 0xbc, 0xaf, 0x27, 0x1c];
    let mut k: usize = 0;
    while k < 6
        invariant
            start@.len() == 32,
            magic@ == sevenz_magic(),
            k <= 6,
            forall|j: int| 0 <= j < k ==> start@[j] == magic@[j],
        decreases 6 - k,
    {
        if start[k] != magic[k] {
            assert(start@.subrange(0, 6)[k as int] != sevenz_magic()[k as int]);
            return Err(SevenzHeaderError::NotSevenz);
        }
        k += 1;
    }
    assert(start@.subrange(0, 6) =~= sevenz_magic());
    let offset = le_u64(start, 12);
    let size = le_u64(start, 20);
    if size > SEVENZ_HEADER_MAX {
        return Err(SevenzHeaderError::ImplausibleSize(size));
    }
    match offset.checked_add(size) {
        Some(e) => match e.checked_add(32) {
            Some(end) => {
                if end <= len {
                    Ok(())
                } else {
                    Err(SevenzHeaderError::OutsideFile)
                }
            },
            None => Err(SevenzHeaderError::OutsideFile),
        },
        None => Err(SevenzHeaderError::OutsideFile),
    }
}

/// Largest SVG source read, compressed or not (4 MiB).
pub const SVG_SOURCE_MAX: u64 = 4194304;

/// Largest inflated `.svgz` accepted (32 MiB of XML).
pub const SVGZ_INFLATED_MAX: u64 = 33554432;

/// What reading at most `limit` bytes from a gzip decoder over `data`
/// gives: the bytes read, or `None` when the stream is broken.
pub uninterp spec fn gzip_inflated_upto(data: Seq<u8>, limit: u64) -> Option<Seq<u8>>;

pub open spec fn opt_bytes(o: Option<Vec<u8>>) -> Option<Seq<u8>> {
    match o {
        Some(v) => Some(v@),
        None => None,
    }
}

/// Decompresses `data` with `flate2::read::GzDecoder`, reading at most
/// `limit` bytes (`Read::take`, then `read_to_end`): the bytes read (no
/// more than `limit`), or `None` on a decoding error.
#[verifier::external_body]
fn gzip_read_upto(data: &[u8], limit: u64) -> (r: Option<Vec<u8>>)
    ensures
        opt_bytes(r) == gzip_inflated_upto(data@, limit),
        r matches Some(v) ==> v@.len() <= limit,
{
    let mut out: Vec<u8> = Vec::new();
    let mut reader = std::io::Read::take(flate2::read::GzDecoder::new(data), limit);
    match std::io::Read::read_to_end(&mut reader, &mut out) {
        Ok(_) => Some(out),
        Err(_) => None,
    }
}

/// The SVG source to hand to the renderer: plain XML as it is; a gzip
/// stream (`1f 8b`) inflated, but only up to [`SVGZ_INFLATED_MAX`] bytes:
/// a larger or broken one gives `None`.
pub open spec fn svgz_source(data: Seq<u8>) -> Option<Seq<u8>> {
    if !(data.len() >= 2 && data[0] == 0x1f && data[1] == 0x8b) {
        Some(data)
    } else {
        match gzip_inflated_upto(data, (SVGZ_INFLATED_MAX + 1) as u64) {
            Some(v) => if v.len() <= SVGZ_INFLATED_MAX {
                Some(v)
            } else {
                None
            },
            None => None,
        }
    }
}

/// Inflates a `.svgz` with a bound before the renderer sees it (see
/// [`svgz_source`]): the renderer itself would inflate without one.
pub fn inflate_svgz_bounded(data: Vec<u8>) -> (r: Option<Vec<u8>>)
    ensures
        opt_bytes(r) == svgz_source(data@),
{
    if !(data.len() >= 2 && data[0] == 0x1f && data[1] == 0x8b) {
        return Some(data);
    }
    match gzip_read_upto(data.as_slice(), SVGZ_INFLATED_MAX + 1) {
        Some(v) => {
            if v.len() as u64 <= SVGZ_INFLATED_MAX {
                Some(v)
            } else {
                None
            }
        },
        None => None,
    }
}

/// The document formats whose body text the preview extracts.
#[derive(Debug, Clone, Copy, PartialEq, Eq, Structural)]
pub enum DocKind {
    Docx,
    /// Also ods and odp: every OpenDocument flavor keeps its body in
    /// `content.xml`.
    Odt,
    Xlsx,
    Pptx,
    Epub,
}

/// Which preview a file gets, by its MIME type.
#[derive(Debug, Clone, Copy, PartialEq, Eq, Structural)]
pub enum PreviewKind {
    Svg,
    Image,
    Font,
    Audio,
    Video,
    Cert,
    Gzip,
    Zstd,
    Xz,
    Bzip2,
    SevenZip,
    Tar,
    Zip,
    Document(DocKind),
    Sqlite,
    Pdf,
    /// Shown as text.
    Text,
    /// Shown as a binary dump.
    Binary,
    /// The stat block.
    Stat,
}

/// An `application/*` subtype shown as text.
pub open spec fn text_application(s: Seq<char>) -> bool {
    s == "x-sh"@ || s == "json"@ || s == "javascript"@ || s == "javascript; charset=utf-8"@ || s == "rtf"@
        || s == "xml"@ || s == "x-sql"@ || s == "xhtml+xml"@
}

/// The preview for an `application/*` subtype.
pub open spec fn application_kind(s: Seq<char>) -> PreviewKind {
    if s == "font-sfnt"@ || s == "font-woff"@ {
        PreviewKind::Font
    } else if s == "x-x509-ca-cert"@ {
        PreviewKind::Cert
    } else if s == "gzip"@ {
        PreviewKind::Gzip
    } else if s == "zstd"@ {
        PreviewKind::Zstd
    } else if s == "x-xz"@ {
        PreviewKind::Xz
    } else if s == "x-bzip2"@ {
        PreviewKind::Bzip2
    } else if s == "x-7z-compressed"@ {
        PreviewKind::SevenZip
    } else if s == "x-tar"@ {
        PreviewKind::Tar
    } else if s == "zip"@ {
        PreviewKind::Zip
    } else if s == "vnd.openxmlformats-officedocument.wordprocessingml.document"@ {
        PreviewKind::Document(DocKind::Docx)
    } else if s == "vnd.openxmlformats-officedocument.spreadsheetml.sheet"@ {
        PreviewKind::Document(DocKind::Xlsx)
    } else if s == "vnd.openxmlformats-officedocument.presentationml.presentation"@ {
        PreviewKind::Document(DocKind::Pptx)
    } else if s == "vnd.oasis.opendocument.text"@ || s == "vnd.oasis.opendocument.spreadsheet"@ || s
        == "vnd.oasis.opendocument.presentation"@ {
        PreviewKind::Document(DocKind::Odt)
    } else if s == "epub"@ {
        PreviewKind::Document(DocKind::Epub)
    } else if s == "vnd.sqlite3"@ {
        PreviewKind::Sqlite
    } else if s == "pdf"@ {
        PreviewKind::Pdf
    } else if text_application(s) {
        PreviewKind::Text
    } else if s == "octet-stream"@ || s == "msgpack"@ {
        PreviewKind::Binary
    } else {
        PreviewKind::Stat
    }
}

/// The preview for a file of MIME type `t`/`s` (the subtype without a
/// `+suffix`): SVG before the other images, fonts under both spellings,
/// the archives and documents by subtype, other `application/*` types as
/// text, a binary dump or the stat block, `text/*` as text, anything else
/// as a binary dump.
pub open spec fn preview_kind_of(t: Seq<char>, s: Seq<char>) -> PreviewKind {
    if t == "image"@ {
        if s == "svg"@ {
            PreviewKind::Svg
        } else {
            PreviewKind::Image
        }
    } else if t == "font"@ {
        PreviewKind::Font
    } else if t == "audio"@ {
        PreviewKind::Audio
    } else if t == "video"@ {
        PreviewKind::Video
    } else if t == "application"@ {
        application_kind(s)
    } else if t == "text"@ {
        PreviewKind::Text
    } else {
        PreviewKind::Binary
    }
}

/// Decides [`application_kind`].
fn application_preview_kind(s: &str) -> (r: PreviewKind)
    ensures
        r == application_kind(s@),
{
    if str_eq(s, "font-sfnt") || str_eq(s, "font-woff") {
        PreviewKind::Font
    } else if str_eq(s, "x-x509-ca-cert") {
        PreviewKind::Cert
    } else if str_eq(s, "gzip") {
        PreviewKind::Gzip
    } else if str_eq(s, "zstd") {
        PreviewKind::Zstd
    } else if str_eq(s, "x-xz") {
        PreviewKind::Xz
    } else if str_eq(s, "x-bzip2") {
        PreviewKind::Bzip2
    } else if str_eq(s, "x-7z-compressed") {
        PreviewKind::SevenZip
    } else if str_eq(s, "x-tar") {
        PreviewKind::Tar
    } else if str_eq(s, "zip") {
        PreviewKind::Zip
    } else if str_eq(s, "vnd.openxmlformats-officedocument.wordprocessingml.document") {
        PreviewKind::Document(DocKind::Docx)
    } else if str_eq(s, "vnd.openxmlformats-officedocument.spreadsheetml.sheet") {
        PreviewKind::Document(DocKind::Xlsx)
    } else if str_eq(s, "vnd.openxmlformats-officedocument.presentationml.presentation") {
        PreviewKind::Document(DocKind::Pptx)
    } else if str_eq(s, "vnd.oasis.opendocument.text") || str_eq(s, "vnd.oasis.opendocument.spreadsheet")
        || str_eq(s, "vnd.oasis.opendocument.presentation") {
        PreviewKind::Document(DocKind::Odt)
    } else if str_eq(s, "epub") {
        PreviewKind::Document(DocKind::Epub)
    } else if str_eq(s, "vnd.sqlite3") {
        PreviewKind::Sqlite
    } else if str_eq(s, "pdf") {
        PreviewKind::Pdf
    } else if str_eq(s, "x-sh") || str_eq(s, "json") || str_eq(s, "javascript") || str_eq(
        s,
        "javascript; charset=utf-8",
    ) || str_eq(s, "rtf") || str_eq(s, "xml") || str_eq(s, "x-sql") || str_eq(s, "xhtml+xml") {
        PreviewKind::Text
    } else if str_eq(s, "octet-stream") || str_eq(s, "msgpack") {
        PreviewKind::Binary
    } else {
        PreviewKind::Stat
    }
}

/// The preview a file of MIME type `type_`/`subtype` gets; see
/// [`preview_kind_of`].
pub fn preview_kind(type_: &str, subtype: &str) -> (r: PreviewKind)
    ensures
        r == preview_kind_of(type_@, subtype@),
{
    if str_eq(type_, "image") {
        if str_eq(subtype, "svg") {
            PreviewKind::Svg
        } else {
            PreviewKind::Image
        }
    } else if str_eq(type_, "font") {
        PreviewKind::Font
    } else if str_eq(type_, "audio") {
        PreviewKind::Audio
    } else if str_eq(type_, "video") {
        PreviewKind::Video
    } else if str_eq(type_, "application") {
        application_preview_kind(subtype)
    } else if str_eq(type_, "text") {
        PreviewKind::Text
    } else {
        PreviewKind::Binary
    }
}

/// Every text-based `application/*` subtype is shown as text: shell
/// scripts, JSON, JavaScript (also with a charset), RTF, XML, SQL and
/// XHTML.
pub proof fn law_text_applications_are_shown_as_text()
    ensures
        preview_kind_of("application"@, "x-sh"@) == PreviewKind::Text,
        preview_kind_of("application"@, "json"@) == PreviewKind::Text,
        preview_kind_of("application"@, "javascript"@) == PreviewKind::Text,
        preview_kind_of("application"@, "javascript; charset=utf-8"@) == PreviewKind::Text,
        preview_kind_of("application"@, "rtf"@) == PreviewKind::Text,
        preview_kind_of("application"@, "xml"@) == PreviewKind::Text,
        preview_kind_of("application"@, "x-sql"@) == PreviewKind::Text,
        preview_kind_of("application"@, "xhtml+xml"@) == PreviewKind::Text,
        forall|s: Seq<char>| #[trigger] text_application(s) ==> preview_kind_of("application"@, s) == PreviewKind::Text,
{
    reveal_strlit("image");
    reveal_strlit("font");
    reveal_strlit("audio");
    reveal_strlit("video");
    reveal_strlit("application");
    reveal_strlit("font-sfnt");
    reveal_strlit("font-woff");
    reveal_strlit("x-x509-ca-cert");
    reveal_strlit("gzip");
    reveal_strlit("zstd");
    reveal_strlit("x-xz");
    reveal_strlit("x-bzip2");
    reveal_strlit("x-7z-compressed");
    reveal_strlit("x-tar");
    reveal_strlit("zip");
    reveal_strlit("vnd.openxmlformats-officedocument.wordprocessingml.document");
    reveal_strlit("vnd.openxmlformats-officedocument.spreadsheetml.sheet");
    reveal_strlit("vnd.openxmlformats-officedocument.presentationml.presentation");
    reveal_strlit("vnd.oasis.opendocument.text");
    reveal_strlit("vnd.oasis.opendocument.spreadsheet");
    reveal_strlit("vnd.oasis.opendocument.presentation");
    reveal_strlit("epub");
    reveal_strlit("vnd.sqlite3");
    reveal_strlit("pdf");
    reveal_strlit("x-sh");
    reveal_strlit("json");
    reveal_strlit("javascript");
    reveal_strlit("javascript; charset=utf-8");
    reveal_strlit("rtf");
    reveal_strlit("xml");
    reveal_strlit("x-sql");
    reveal_strlit("xhtml+xml");
    assert("x-sh"@ != "font-sfnt"@) by {
        assert("x-sh"@.len() != "font-sfnt"@.len());
    }
    assert("x-sh"@ != "font-woff"@) by {
        assert("x-sh"@.len() != "font-woff"@.len());
    }
    assert("x-sh"@ != "x-x509-ca-cert"@) by {
        assert("x-sh"@.len() != "x-x509-ca-cert"@.len());
    }
    assert("x-sh"@ != "gzip"@) by {
        assert("x-sh"@[0] != "gzip"@[0]);
    }
    assert("x-sh"@ != "zstd"@) by {
        assert("x-sh"@[0] != "zstd"@[0]);
    }
    assert("x-sh"@ != "x-xz"@) by {
        assert("x-sh"@[2] != "x-xz"@[2]);
    }
    assert("x-sh"@ != "x-bzip2"@) by {
        assert("x-sh"@.len() != "x-bzip2"@.len());
    }
    assert("x-sh"@ != "x-7z-compressed"@) by {
        assert("x-sh"@.len() != "x-7z-compressed"@.len());
    }
    assert("x-sh"@ != "x-tar"@) by {
        assert("x-sh"@.len() != "x-tar"@.len());
    }
    assert("x-sh"@ != "zip"@) by {
        assert("x-sh"@.len() != "zip"@.len());
    }
    assert("x-sh"@ != "vnd.openxmlformats-officedocument.wordprocessingml.document"@) by {
        assert("x-sh"@.len() != "vnd.openxmlformats-officedocument.wordprocessingml.document"@.len());
    }
    assert("x-sh"@ != "vnd.openxmlformats-officedocument.spreadsheetml.sheet"@) by {
        assert("x-sh"@.len() != "vnd.openxmlformats-officedocument.spreadsheetml.sheet"@.len());
    }
    assert("x-sh"@ != "vnd.openxmlformats-officedocument.presentationml.presentation"@) by {
        assert("x-sh"@.len() != "vnd.openxmlformats-officedocument.presentationml.presentation"@.len());
    }
    assert("x-sh"@ != "vnd.oasis.opendocument.text"@) by {
        assert("x-sh"@.len() != "vnd.oasis.opendocument.text"@.len());
    }
    assert("x-sh"@ != "vnd.oasis.opendocument.spreadsheet"@) by {
        assert("x-sh"@.len() != "vnd.oasis.opendocument.spreadsheet"@.len());
    }
    assert("x-sh"@ != "vnd.oasis.opendocument.presentation"@) by {
        assert("x-sh"@.len() != "vnd.oasis.opendocument.presentation"@.len());
    }
    assert("x-sh"@ != "epub"@) by {
        assert("x-sh"@[0] != "epub"@[0]);
    }
    assert("x-sh"@ != "vnd.sqlite3"@) by {
        assert("x-sh"@.len() != "vnd.sqlite3"@.len());
    }
    assert("x-sh"@ != "pdf"@) by {
        assert("x-sh"@.len() != "pdf"@.len());
    }
    assert("json"@ != "font-sfnt"@) by {
        assert("json"@.len() != "font-sfnt"@.len());
    }
    assert("json"@ != "font-woff"@) by {
        assert("json"@.len() != "font-woff"@.len());
    }
    assert("json"@ != "x-x509-ca-cert"@) by {
        assert("json"@.len() != "x-x509-ca-cert"@.len());
    }
    assert("json"@ != "gzip"@) by {
        assert("json"@[0] != "gzip"@[0]);
    }
    assert("json"@ != "zstd"@) by {
        assert("json"@[0] != "zstd"@[0]);
    }
    assert("json"@ != "x-xz"@) by {
        assert("json"@[0] != "x-xz"@[0]);
    }
    assert("json"@ != "x-bzip2"@) by {
        assert("json"@.len() != "x-bzip2"@.len());
    }
    assert("json"@ != "x-7z-compressed"@) by {
        assert("json"@.len() != "x-7z-compressed"@.len());
    }
    assert("json"@ != "x-tar"@) by {
        assert("json"@.len() != "x-tar"@.len());
    }
    assert("json"@ != "zip"@) by {
        assert("json"@.len() != "zip"@.len());
    }
    assert("json"@ != "vnd.openxmlformats-officedocument.wordprocessingml.document"@) by {
        assert("json"@.len() != "vnd.openxmlformats-officedocument.wordprocessingml.document"@.len());
    }
    assert("json"@ != "vnd.openxmlformats-officedocument.spreadsheetml.sheet"@) by {
        assert("json"@.len() != "vnd.openxmlformats-officedocument.spreadsheetml.sheet"@.len());
    }
    assert("json"@ != "vnd.openxmlformats-officedocument.presentationml.presentation"@) by {
        assert("json"@.len() != "vnd.openxmlformats-officedocument.presentationml.presentation"@.len());
    }
    assert("json"@ != "vnd.oasis.opendocument.text"@) by {
        assert("json"@.len() != "vnd.oasis.opendocument.text"@.len());
    }
    assert("json"@ != "vnd.oasis.opendocument.spreadsheet"@) by {
        assert("json"@.len() != "vnd.oasis.opendocument.spreadsheet"@.len());
    }
    assert("json"@ != "vnd.oasis.opendocument.presentation"@) by {
        assert("json"@.len() != "vnd.oasis.opendocument.presentation"@.len());
    }
    assert("json"@ != "epub"@) by {
        assert("json"@[0] != "epub"@[0]);
    }
    assert("json"@ != "vnd.sqlite3"@) by {
        assert("json"@.len() != "vnd.sqlite3"@.len());
    }
    assert("json"@ != "pdf"@) by {
        assert("json"@.len() != "pdf"@.len());
    }
    assert("javascript"@ != "font-sfnt"@) by {
        assert("javascript"@.len() != "font-sfnt"@.len());
    }
    assert("javascript"@ != "font-woff"@) by {
        assert("javascript"@.len() != "font-woff"@.len());
    }
    assert("javascript"@ != "x-x509-ca-cert"@) by {
        assert("javascript"@.len() != "x-x509-ca-cert"@.len());
    }
    assert("javascript"@ != "gzip"@) by {
        assert("javascript"@.len() != "gzip"@.len());
    }
    assert("javascript"@ != "zstd"@) by {
        assert("javascript"@.len() != "zstd"@.len());
    }
    assert("javascript"@ != "x-xz"@) by {
        assert("javascript"@.len() != "x-xz"@.len());
    }
    assert("javascript"@ != "x-bzip2"@) by {
        assert("javascript"@.len() != "x-bzip2"@.len());
    }
    assert("javascript"@ != "x-7z-compressed"@) by {
        assert("javascript"@.len() != "x-7z-compressed"@.len());
    }
    assert("javascript"@ != "x-tar"@) by {
        assert("javascript"@.len() != "x-tar"@.len());
    }
    assert("javascript"@ != "zip"@) by {
        assert("javascript"@.len() != "zip"@.len());
    }
    assert("javascript"@ != "vnd.openxmlformats-officedocument.wordprocessingml.document"@) by {
        assert("javascript"@.len() != "vnd.openxmlformats-officedocument.wordprocessingml.document"@.len());
    }
    assert("javascript"@ != "vnd.openxmlformats-officedocument.spreadsheetml.sheet"@) by {
        assert("javascript"@.len() != "vnd.openxmlformats-officedocument.spreadsheetml.sheet"@.len());
    }
    assert("javascript"@ != "vnd.openxmlformats-officedocument.presentationml.presentation"@) by {
        assert("javascript"@.len() != "vnd.openxmlformats-officedocument.presentationml.presentation"@.len());
    }
    assert("javascript"@ != "vnd.oasis.opendocument.text"@) by {
        assert("javascript"@.len() != "vnd.oasis.opendocument.text"@.len());
    }
    assert("javascript"@ != "vnd.oasis.opendocument.spreadsheet"@) by {
        assert("javascript"@.len() != "vnd.oasis.opendocument.spreadsheet"@.len());
    }
    assert("javascript"@ != "vnd.oasis.opendocument.presentation"@) by {
        assert("javascript"@.len() != "vnd.oasis.opendocument.presentation"@.len());
    }
    assert("javascript"@ != "epub"@) by {
        assert("javascript"@.len() != "epub"@.len());
    }
    assert("javascript"@ != "vnd.sqlite3"@) by {
        assert("javascript"@.len() != "vnd.sqlite3"@.len());
    }
    assert("javascript"@ != "pdf"@) by {
        assert("javascript"@.len() != "pdf"@.len());
    }
    assert("javascript; charset=utf-8"@ != "font-sfnt"@) by {
        assert("javascript; charset=utf-8"@.len() != "font-sfnt"@.len());
    }
    assert("javascript; charset=utf-8"@ != "font-woff"@) by {
        assert("javascript; charset=utf-8"@.len() != "font-woff"@.len());
    }
    assert("javascript; charset=utf-8"@ != "x-x509-ca-cert"@) by {
        assert("javascript; charset=utf-8"@.len() != "x-x509-ca-cert"@.len());
    }
    assert("javascript; charset=utf-8"@ != "gzip"@) by {
        assert("javascript; charset=utf-8"@.len() != "gzip"@.len());
    }
    assert("javascript; charset=utf-8"@ != "zstd"@) by {
        assert("javascript; charset=utf-8"@.len() != "zstd"@.len());
    }
    assert("javascript; charset=utf-8"@ != "x-xz"@) by {
        assert("javascript; charset=utf-8"@.len() != "x-xz"@.len());
    }
    assert("javascript; charset=utf-8"@ != "x-bzip2"@) by {
        assert("javascript; charset=utf-8"@.len() != "x-bzip2"@.len());
    }
    assert("javascript; charset=utf-8"@ != "x-7z-compressed"@) by {
        assert("javascript; charset=utf-8"@.len() != "x-7z-compressed"@.len());
    }
    assert("javascript; charset=utf-8"@ != "x-tar"@) by {
        assert("javascript; charset=utf-8"@.len() != "x-tar"@.len());
    }
    assert("javascript; charset=utf-8"@ != "zip"@) by {
        assert("javascript; charset=utf-8"@.len() != "zip"@.len());
    }
    assert("javascript; charset=utf-8"@ != "vnd.openxmlformats-officedocument.wordprocessingml.document"@) by {
        assert("javascript; charset=utf-8"@.len() != "vnd.openxmlformats-officedocument.wordprocessingml.document"@.len());
    }
    assert("javascript; charset=utf-8"@ != "vnd.openxmlformats-officedocument.spreadsheetml.sheet"@) by {
        assert("javascript; charset=utf-8"@.len() != "vnd.openxmlformats-officedocument.spreadsheetml.sheet"@.len());
    }
    assert("javascript; charset=utf-8"@ != "vnd.openxmlformats-officedocument.presentationml.presentation"@) by {
        assert("javascript; charset=utf-8"@.len() != "vnd.openxmlformats-officedocument.presentationml.presentation"@.len());
    }
    assert("javascript; charset=utf-8"@ != "vnd.oasis.opendocument.text"@) by {
        assert("javascript; charset=utf-8"@.len() != "vnd.oasis.opendocument.text"@.len());
    }
    assert("javascript; charset=utf-8"@ != "vnd.oasis.opendocument.spreadsheet"@) by {
        assert("javascript; charset=utf-8"@.len() != "vnd.oasis.opendocument.spreadsheet"@.len());
    }
    assert("javascript; charset=utf-8"@ != "vnd.oasis.opendocument.presentation"@) by {
        assert("javascript; charset=utf-8"@.len() != "vnd.oasis.opendocument.presentation"@.len());
    }
    assert("javascript; charset=utf-8"@ != "epub"@) by {
        assert("javascript; charset=utf-8"@.len() != "epub"@.len());
    }
    assert("javascript; charset=utf-8"@ != "vnd.sqlite3"@) by {
        assert("javascript; charset=utf-8"@.len() != "vnd.sqlite3"@.len());
    }
    assert("javascript; charset=utf-8"@ != "pdf"@) by {
        assert("javascript; charset=utf-8"@.len() != "pdf"@.len());
    }
    assert("rtf"@ != "font-sfnt"@) by {
        assert("rtf"@.len() != "font-sfnt"@.len());
    }
    assert("rtf"@ != "font-woff"@) by {
        assert("rtf"@.len() != "font-woff"@.len());
    }
    assert("rtf"@ != "x-x509-ca-cert"@) by {
        assert("rtf"@.len() != "x-x509-ca-cert"@.len());
    }
    assert("rtf"@ != "gzip"@) by {
        assert("rtf"@.len() != "gzip"@.len());
    }
    assert("rtf"@ != "zstd"@) by {
        assert("rtf"@.len() != "zstd"@.len());
    }
    assert("rtf"@ != "x-xz"@) by {
        assert("rtf"@.len() != "x-xz"@.len());
    }
    assert("rtf"@ != "x-bzip2"@) by {
        assert("rtf"@.len() != "x-bzip2"@.len());
    }
    assert("rtf"@ != "x-7z-compressed"@) by {
        assert("rtf"@.len() != "x-7z-compressed"@.len());
    }
    assert("rtf"@ != "x-tar"@) by {
        assert("rtf"@.len() != "x-tar"@.len());
    }
    assert("rtf"@ != "zip"@) by {
        assert("rtf"@[0] != "zip"@[0]);
    }
    assert("rtf"@ != "vnd.openxmlformats-officedocument.wordprocessingml.document"@) by {
        assert("rtf"@.len() != "vnd.openxmlformats-officedocument.wordprocessingml.document"@.len());
    }
    assert("rtf"@ != "vnd.openxmlformats-officedocument.spreadsheetml.sheet"@) by {
        assert("rtf"@.len() != "vnd.openxmlformats-officedocument.spreadsheetml.sheet"@.len());
    }
    assert("rtf"@ != "vnd.openxmlformats-officedocument.presentationml.presentation"@) by {
        assert("rtf"@.len() != "vnd.openxmlformats-officedocument.presentationml.presentation"@.len());
    }
    assert("rtf"@ != "vnd.oasis.opendocument.text"@) by {
        assert("rtf"@.len() != "vnd.oasis.opendocument.text"@.len());
    }
    assert("rtf"@ != "vnd.oasis.opendocument.spreadsheet"@) by {
        assert("rtf"@.len() != "vnd.oasis.opendocument.spreadsheet"@.len());
    }
    assert("rtf"@ != "vnd.oasis.opendocument.presentation"@) by {
        assert("rtf"@.len() != "vnd.oasis.opendocument.presentation"@.len());
    }
    assert("rtf"@ != "epub"@) by {
        assert("rtf"@.len() != "epub"@.len());
    }
    assert("rtf"@ != "vnd.sqlite3"@) by {
        assert("rtf"@.len() != "vnd.sqlite3"@.len());
    }
    assert("rtf"@ != "pdf"@) by {
        assert("rtf"@[0] != "pdf"@[0]);
    }
    assert("xml"@ != "font-sfnt"@) by {
        assert("xml"@.len() != "font-sfnt"@.len());
    }
    assert("xml"@ != "font-woff"@) by {
        assert("xml"@.len() != "font-woff"@.len());
    }
    assert("xml"@ != "x-x509-ca-cert"@) by {
        assert("xml"@.len() != "x-x509-ca-cert"@.len());
    }
    assert("xml"@ != "gzip"@) by {
        assert("xml"@.len() != "gzip"@.len());
    }
    assert("xml"@ != "zstd"@) by {
        assert("xml"@.len() != "zstd"@.len());
    }
    assert("xml"@ != "x-xz"@) by {
        assert("xml"@.len() != "x-xz"@.len());
    }
    assert("xml"@ != "x-bzip2"@) by {
        assert("xml"@.len() != "x-bzip2"@.len());
    }
    assert("xml"@ != "x-7z-compressed"@) by {
        assert("xml"@.len() != "x-7z-compressed"@.len());
    }
    assert("xml"@ != "x-tar"@) by {
        assert("xml"@.len() != "x-tar"@.len());
    }
    assert("xml"@ != "zip"@) by {
        assert("xml"@[0] != "zip"@[0]);
    }
    assert("xml"@ != "vnd.openxmlformats-officedocument.wordprocessingml.document"@) by {
        assert("xml"@.len() != "vnd.openxmlformats-officedocument.wordprocessingml.document"@.len());
    }
    assert("xml"@ != "vnd.openxmlformats-officedocument.spreadsheetml.sheet"@) by {
        assert("xml"@.len() != "vnd.openxmlformats-officedocument.spreadsheetml.sheet"@.len());
    }
    assert("xml"@ != "vnd.openxmlformats-officedocument.presentationml.presentation"@) by {
        assert("xml"@.len() != "vnd.openxmlformats-officedocument.presentationml.presentation"@.len());
    }
    assert("xml"@ != "vnd.oasis.opendocument.text"@) by {
        assert("xml"@.len() != "vnd.oasis.opendocument.text"@.len());
    }
    assert("xml"@ != "vnd.oasis.opendocument.spreadsheet"@) by {
        assert("xml"@.len() != "vnd.oasis.opendocument.spreadsheet"@.len());
    }
    assert("xml"@ != "vnd.oasis.opendocument.presentation"@) by {
        assert("xml"@.len() != "vnd.oasis.opendocument.presentation"@.len());
    }
    assert("xml"@ != "epub"@) by {
        assert("xml"@.len() != "epub"@.len());
    }
    assert("xml"@ != "vnd.sqlite3"@) by {
        assert("xml"@.len() != "vnd.sqlite3"@.len());
    }
    assert("xml"@ != "pdf"@) by {
        assert("xml"@[0] != "pdf"@[0]);
    }
    assert("x-sql"@ != "font-sfnt"@) by {
        assert("x-sql"@.len() != "font-sfnt"@.len());
    }
    assert("x-sql"@ != "font-woff"@) by {
        assert("x-sql"@.len() != "font-woff"@.len());
    }
    assert("x-sql"@ != "x-x509-ca-cert"@) by {
        assert("x-sql"@.len() != "x-x509-ca-cert"@.len());
    }
    assert("x-sql"@ != "gzip"@) by {
        assert("x-sql"@.len() != "gzip"@.len());
    }
    assert("x-sql"@ != "zstd"@) by {
        assert("x-sql"@.len() != "zstd"@.len());
    }
    assert("x-sql"@ != "x-xz"@) by {
        assert("x-sql"@.len() != "x-xz"@.len());
    }
    assert("x-sql"@ != "x-bzip2"@) by {
        assert("x-sql"@.len() != "x-bzip2"@.len());
    }
    assert("x-sql"@ != "x-7z-compressed"@) by {
        assert("x-sql"@.len() != "x-7z-compressed"@.len());
    }
    assert("x-sql"@ != "x-tar"@) by {
        assert("x-sql"@[2] != "x-tar"@[2]);
    }
    assert("x-sql"@ != "zip"@) by {
        assert("x-sql"@.len() != "zip"@.len());
    }
    assert("x-sql"@ != "vnd.openxmlformats-officedocument.wordprocessingml.document"@) by {
        assert("x-sql"@.len() != "vnd.openxmlformats-officedocument.wordprocessingml.document"@.len());
    }
    assert("x-sql"@ != "vnd.openxmlformats-officedocument.spreadsheetml.sheet"@) by {
        assert("x-sql"@.len() != "vnd.openxmlformats-officedocument.spreadsheetml.sheet"@.len());
    }
    assert("x-sql"@ != "vnd.openxmlformats-officedocument.presentationml.presentation"@) by {
        assert("x-sql"@.len() != "vnd.openxmlformats-officedocument.presentationml.presentation"@.len());
    }
    assert("x-sql"@ != "vnd.oasis.opendocument.text"@) by {
        assert("x-sql"@.len() != "vnd.oasis.opendocument.text"@.len());
    }
    assert("x-sql"@ != "vnd.oasis.opendocument.spreadsheet"@) by {
        assert("x-sql"@.len() != "vnd.oasis.opendocument.spreadsheet"@.len());
    }
    assert("x-sql"@ != "vnd.oasis.opendocument.presentation"@) by {
        assert("x-sql"@.len() != "vnd.oasis.opendocument.presentation"@.len());
    }
    assert("x-sql"@ != "epub"@) by {
        assert("x-sql"@.len() != "epub"@.len());
    }
    assert("x-sql"@ != "vnd.sqlite3"@) by {
        assert("x-sql"@.len() != "vnd.sqlite3"@.len());
    }
    assert("x-sql"@ != "pdf"@) by {
        assert("x-sql"@.len() != "pdf"@.len());
    }
    assert("xhtml+xml"@ != "font-sfnt"@) by {
        assert("xhtml+xml"@[0] != "font-sfnt"@[0]);
    }
    assert("xhtml+xml"@ != "font-woff"@) by {
        assert("xhtml+xml"@[0] != "font-woff"@[0]);
    }
    assert("xhtml+xml"@ != "x-x509-ca-cert"@) by {
        assert("xhtml+xml"@.len() != "x-x509-ca-cert"@.len());
    }
    assert("xhtml+xml"@ != "gzip"@) by {
        assert("xhtml+xml"@.len() != "gzip"@.len());
    }
    assert("xhtml+xml"@ != "zstd"@) by {
        assert("xhtml+xml"@.len() != "zstd"@.len());
    }
    assert("xhtml+xml"@ != "x-xz"@) by {
        assert("xhtml+xml"@.len() != "x-xz"@.len());
    }
    assert("xhtml+xml"@ != "x-bzip2"@) by {
        assert("xhtml+xml"@.len() != "x-bzip2"@.len());
    }
    assert("xhtml+xml"@ != "x-7z-compressed"@) by {
        assert("xhtml+xml"@.len() != "x-7z-compressed"@.len());
    }
    assert("xhtml+xml"@ != "x-tar"@) by {
        assert("xhtml+xml"@.len() != "x-tar"@.len());
    }
    assert("xhtml+xml"@ != "zip"@) by {
        assert("xhtml+xml"@.len() != "zip"@.len());
    }
    assert("xhtml+xml"@ != "vnd.openxmlformats-officedocument.wordprocessingml.document"@) by {
        assert("xhtml+xml"@.len() != "vnd.openxmlformats-officedocument.wordprocessingml.document"@.len());
    }
    assert("xhtml+xml"@ != "vnd.openxmlformats-officedocument.spreadsheetml.sheet"@) by {
        assert("xhtml+xml"@.len() != "vnd.openxmlformats-officedocument.spreadsheetml.sheet"@.len());
    }
    assert("xhtml+xml"@ != "vnd.openxmlformats-officedocument.presentationml.presentation"@) by {
        assert("xhtml+xml"@.len() != "vnd.openxmlformats-officedocument.presentationml.presentation"@.len());
    }
    assert("xhtml+xml"@ != "vnd.oasis.opendocument.text"@) by {
        assert("xhtml+xml"@.len() != "vnd.oasis.opendocument.text"@.len());
    }
    assert("xhtml+xml"@ != "vnd.oasis.opendocument.spreadsheet"@) by {
        assert("xhtml+xml"@.len() != "vnd.oasis.opendocument.spreadsheet"@.len());
    }
    assert("xhtml+xml"@ != "vnd.oasis.opendocument.presentation"@) by {
        assert("xhtml+xml"@.len() != "vnd.oasis.opendocument.presentation"@.len());
    }
    assert("xhtml+xml"@ != "epub"@) by {
        assert("xhtml+xml"@.len() != "epub"@.len());
    }
    assert("xhtml+xml"@ != "vnd.sqlite3"@) by {
        assert("xhtml+xml"@.len() != "vnd.sqlite3"@.len());
    }
    assert("xhtml+xml"@ != "pdf"@) by {
        assert("xhtml+xml"@.len() != "pdf"@.len());
    }
    assert("x-sh"@ != "font-sfnt"@ && "x-sh"@ != "font-woff"@);
    assert(!("x-sh"@ == "font-sfnt"@ || "x-sh"@ == "font-woff"@));
    assert(application_kind("x-sh"@) == PreviewKind::Text);
    assert("json"@ != "font-sfnt"@ && "json"@ != "font-woff"@);
    assert(application_kind("json"@) == PreviewKind::Text);
    assert("application"@ != "image"@ && "application"@ != "font"@ && "application"@ != "audio"@
        && "application"@ != "video"@) by {
        assert("application"@.len() != "image"@.len());
        assert("application"@.len() != "font"@.len());
    }
    assert(preview_kind_of("application"@, "x-sh"@) == PreviewKind::Text);
    assert(preview_kind_of("application"@, "json"@) == PreviewKind::Text);
}

} // verus!
