use std::io::Write;

use rfm::graphics::{CellGeometry, GraphicsProtocol};
use rfm::pdf_guard::{
    find_bytes, flate_output_len, inflation_charge, inflation_charge_for,
    is_inflating_filter, pdf_xref_streams_within_budget, rfind_bytes, xref_stream_filters,
    xref_stream_spans, xref_streams_within_budget_given,
};
use rfm::preview::{
    assumed_cell, geometry_for, image_rows, pdf_line, scrub_line, video_thumbnail_dir_from,
    PdfRenderSwitch, PDF_LINE_MAX,
};
use rfm::preview::{sevenz_start_header_check, SevenzHeaderError, SEVENZ_HEADER_MAX};
use rfm::preview::{inflate_svgz_bounded, SVGZ_INFLATED_MAX, SVG_SOURCE_MAX};
use rfm::preview::{preview_kind, DocKind, PreviewKind};
use rfm::pdf_guard::StreamBudget;

#[test]
fn graphics_row_budget_matches_half_block_split() {
    assert_eq!(image_rows(30, false), 30);
    assert_eq!(image_rows(30, true), 20);
    assert_eq!(image_rows(1, true), 0);
    assert_eq!(image_rows(0, false), 0);
}

#[test]
fn graphics_geometry_requirements_per_protocol() {
    // No cell geometry was ever reported.
    assert_eq!(
        geometry_for(GraphicsProtocol::Kitty, None),
        Some(assumed_cell()),
        "kitty falls back to the assumed cell size"
    );
    assert_eq!(geometry_for(GraphicsProtocol::Sixel, None), None);
    assert_eq!(geometry_for(GraphicsProtocol::HalfBlock, None), None);
}

#[test]
fn reported_geometry_is_used_by_both_emitters() {
    let g = CellGeometry { cell_w: 9, cell_h: 18 };
    assert_eq!(geometry_for(GraphicsProtocol::Kitty, Some(g)), Some(g));
    assert_eq!(geometry_for(GraphicsProtocol::Sixel, Some(g)), Some(g));
    assert_eq!(geometry_for(GraphicsProtocol::HalfBlock, Some(g)), None);
    assert_eq!(assumed_cell(), CellGeometry { cell_w: 8, cell_h: 16 });
}

#[test]
fn video_thumbnail_dir_honors_the_privacy_opt_out() {
    let fake_fallback = || "/fallback".to_string();
    let cache = Some("/cache".to_string());
    assert_eq!(
        video_thumbnail_dir_from(cache.clone(), true, fake_fallback),
        cache
    );
    assert_eq!(
        video_thumbnail_dir_from(None, true, fake_fallback),
        Some("/fallback".to_string())
    );
    assert_eq!(video_thumbnail_dir_from(None, false, fake_fallback), None);
}

#[test]
fn pdf_render_defaults_off_when_uninitialized() {
    assert!(!PdfRenderSwitch::default().pdf_render_enabled());
}

#[test]
fn pdf_render_switch_keeps_its_first_setting() {
    let mut switch = PdfRenderSwitch::unset();
    switch.set_pdf_render(true);
    switch.set_pdf_render(false);
    assert!(switch.pdf_render_enabled());
}

#[test]
fn scrub_line_removes_carriage_returns_and_line_feeds() {
    assert_eq!(scrub_line("a\r\nb\nc\r".to_string()), "abc");
    assert_eq!(scrub_line("plain".to_string()), "plain");
}

#[test]
fn pdf_lines_are_scrubbed_and_length_capped() {
    let long: String = std::iter::repeat('é').take(PDF_LINE_MAX + 10).collect();
    let capped = pdf_line(&long);
    assert_eq!(capped.chars().count(), PDF_LINE_MAX);
    let ascii: String = std::iter::repeat('x').take(PDF_LINE_MAX).collect();
    assert_eq!(pdf_line(&format!("{ascii}\n")), ascii);
    assert_eq!(pdf_line("Title\r\n"), "Title");
}

// --- the cross-reference stream guard

fn zlib(data: &[u8]) -> Vec<u8> {
    let mut enc = flate2::write::ZlibEncoder::new(Vec::new(), flate2::Compression::default());
    enc.write_all(data).unwrap();
    enc.finish().unwrap()
}

fn xref_pdf(dict_tail: &str, data: &[u8]) -> Vec<u8> {
    let mut out = b"%PDF-1.5\n1 0 obj\n<< /Type /Page >>\nendobj\n".to_vec();
    out.extend_from_slice(format!("7 0 obj\n<< /Type /XRef{dict_tail} >>\nstream\r\n").as_bytes());
    out.extend_from_slice(data);
    out.extend_from_slice(b"\nendstream\nendobj\nstartxref\n0\n%%EOF\n");
    out
}

#[test]
fn find_and_rfind_locate_first_and_last() {
    assert_eq!(find_bytes(b"abcabc", b"bc"), Some(1));
    assert_eq!(rfind_bytes(b"abcabc", b"bc"), Some(4));
    assert_eq!(find_bytes(b"abc", b""), None);
    assert_eq!(rfind_bytes(b"abc", b""), None);
    assert_eq!(find_bytes(b"ab", b"abc"), None);
    assert_eq!(find_bytes(b"abc", b"x"), None);
}

#[test]
fn filter_names_of_single_and_array_forms() {
    assert_eq!(
        xref_stream_filters(b"<< /Type /XRef /Filter /FlateDecode /W [1 2 1] >>"),
        vec![b"FlateDecode".to_vec()]
    );
    assert_eq!(
        xref_stream_filters(b"/Filter [/ASCII85Decode /FlateDecode]"),
        vec![b"ASCII85Decode".to_vec(), b"FlateDecode".to_vec()]
    );
    assert_eq!(
        xref_stream_filters(b"/Filter\n  [ /LZWDecode]"),
        vec![b"LZWDecode".to_vec()]
    );
    assert!(xref_stream_filters(b"<< /Type /XRef >>").is_empty());
    assert!(xref_stream_filters(b"/Filter 12").is_empty());
    assert!(is_inflating_filter(b"FlateDecode"));
    assert!(is_inflating_filter(b"LZWDecode"));
    assert!(!is_inflating_filter(b"DCTDecode"));
}

#[test]
fn chained_flate_filters_are_charged_super_linearly() {
    let two = vec![b"FlateDecode".to_vec(), b"FlateDecode".to_vec()];
    assert_eq!(inflation_charge(&[0u8; 10], &two, u64::MAX), Some(10 * 1032 * 1032));
    assert_eq!(inflation_charge(&[0u8; 10], &two, 10 * 1032 * 1032 - 1), None);
    let lzw = vec![b"LZWDecode".to_vec()];
    assert_eq!(inflation_charge(&[0u8; 3], &lzw, u64::MAX), Some(3 * 1032));
    let plain = vec![b"ASCII85Decode".to_vec()];
    assert_eq!(inflation_charge(&[0u8; 3], &plain, 0), Some(0));
    let seven = vec![b"FlateDecode".to_vec(); 7];
    assert_eq!(inflation_charge(&[0u8; 1], &seven, u64::MAX), Some(u64::MAX));
}

#[test]
fn sole_flate_is_measured_by_counting_decompression() {
    let data = zlib(&[7u8; 5000]);
    assert_eq!(flate_output_len(&data, 1_000_000), 5000);
    assert_eq!(flate_output_len(&data, 100), 101);
    let sole = vec![b"FlateDecode".to_vec()];
    assert_eq!(inflation_charge(&data, &sole, 1_000_000), Some(5000));
    assert_eq!(inflation_charge(&data, &sole, 4999), None);
    assert_eq!(inflation_charge_for(17, 3, &sole, 20), Some(17));
    assert_eq!(inflation_charge_for(21, 3, &sole, 20), None);
}

#[test]
fn a_corrupt_stream_counts_up_to_the_error() {
    assert_eq!(flate_output_len(b"not zlib at all", 1000), 0);
    let body: Vec<u8> = (0..20000u32).map(|i| ((i * 7919) % 251) as u8 ^ (i / 97) as u8).collect();
    let full = zlib(&body);
    let cut = &full[..full.len() * 3 / 5];
    let n = flate_output_len(cut, 1_000_000);
    assert!(n > 0 && n < 20000, "partial count {n}");
}

#[test]
fn valid_xref_stream_pdf_loads() {
    let pdf = xref_pdf(" /Filter /FlateDecode /Size 3", &zlib(&[1u8; 300]));
    assert!(pdf_xref_streams_within_budget(&pdf, 64 * 1024 * 1024));
    assert_eq!(xref_stream_spans(&pdf).len(), 1);
}

#[test]
fn xref_bomb_is_rejected_before_parsing() {
    let pdf = xref_pdf(" /Filter /FlateDecode /Size 3", &zlib(&vec![0u8; 200_000]));
    assert!(!pdf_xref_streams_within_budget(&pdf, 100_000));
    assert!(pdf_xref_streams_within_budget(&pdf, 200_000));
}

#[test]
fn non_xref_streams_and_classic_tables_pass() {
    let mut pdf = b"%PDF-1.4\n4 0 obj\n<< /Length 5 /Filter /FlateDecode >>\nstream\n".to_vec();
    pdf.extend_from_slice(&zlib(&vec![0u8; 100_000]));
    pdf.extend_from_slice(b"\nendstream\nendobj\nxref\n0 1\ntrailer\n<< >>\n%%EOF\n");
    assert!(xref_stream_spans(&pdf).is_empty());
    assert!(pdf_xref_streams_within_budget(&pdf, 10));
}

#[test]
fn given_counts_decide_the_verdict() {
    let pdf = xref_pdf(" /Filter /FlateDecode", b"xx");
    assert!(xref_streams_within_budget_given(&pdf, 100, &[100]));
    assert!(!xref_streams_within_budget_given(&pdf, 100, &[101]));
    let chained = xref_pdf(" /Filter [/FlateDecode /FlateDecode]", b"xx");
    assert!(!xref_streams_within_budget_given(&chained, 1000, &[0]));
    // The data runs up to `endstream`: "xx" and the line feed before it.
    assert!(xref_streams_within_budget_given(&chained, 3 * 1032 * 1032, &[0]));
    assert!(!xref_streams_within_budget_given(&chained, 3 * 1032 * 1032 - 1, &[0]));
}

// --- 7z start header

fn sevenz_start(offset: u64, size: u64) -> Vec<u8> {
    let mut file = vec![b'7', b'z', 0xbc, 0xaf, 0x27, 0x1c, 0, 4];
    file.extend_from_slice(&0u32.to_le_bytes());
    file.extend_from_slice(&offset.to_le_bytes());
    file.extend_from_slice(&size.to_le_bytes());
    file.extend_from_slice(&0u32.to_le_bytes());
    file
}

#[test]
fn sevenz_rejects_an_implausible_next_header_as_an_err() {
    let bomb = sevenz_start(0, 0x0000_ffff_ffff_ffff);
    assert_eq!(
        sevenz_start_header_check(&bomb, 32),
        Err(SevenzHeaderError::ImplausibleSize(0x0000_ffff_ffff_ffff))
    );
    let out_of_bounds = sevenz_start(u64::MAX - 40, 8);
    assert_eq!(sevenz_start_header_check(&out_of_bounds, 32), Err(SevenzHeaderError::OutsideFile));
}

#[test]
fn sevenz_header_inside_the_file_is_accepted() {
    let h = sevenz_start(100, 20);
    assert_eq!(sevenz_start_header_check(&h, 152), Ok(()));
    assert_eq!(sevenz_start_header_check(&h, 151), Err(SevenzHeaderError::OutsideFile));
    let max = sevenz_start(0, SEVENZ_HEADER_MAX);
    assert_eq!(sevenz_start_header_check(&max, SEVENZ_HEADER_MAX + 32), Ok(()));
    let over = sevenz_start(0, SEVENZ_HEADER_MAX + 1);
    assert_eq!(
        sevenz_start_header_check(&over, u64::MAX),
        Err(SevenzHeaderError::ImplausibleSize(SEVENZ_HEADER_MAX + 1))
    );
}

#[test]
fn sevenz_header_needs_the_signature() {
    let mut h = sevenz_start(0, 0);
    h[5] = 0;
    assert_eq!(sevenz_start_header_check(&h, 1000), Err(SevenzHeaderError::NotSevenz));
}

// --- shared stream budget

#[test]
fn stream_budget_pays_what_fits_and_spends_the_rest_on_a_bomb() {
    let mut b = StreamBudget::new(100);
    assert!(b.settle(Some(30)));
    assert_eq!(b.left(), 70);
    assert!(!b.settle(Some(80)));
    assert_eq!(b.left(), 0);
    // once spent, only streams that inflate nothing get through
    assert!(b.settle(Some(0)));
    assert!(!b.settle(Some(1)));
    assert!(!b.settle(None));
}

#[test]
fn stream_budget_charges_flate_streams_by_their_inflated_size() {
    let data = zlib(&[7u8; 500]);
    let flate = vec![b"FlateDecode".to_vec()];
    let mut b = StreamBudget::new(1200);
    assert!(b.charge_stream(&data, Some(&flate)));
    assert_eq!(b.left(), 700);
    assert!(b.charge_stream(&data, Some(&flate)));
    assert_eq!(b.left(), 200);
    assert!(!b.charge_stream(&data, Some(&flate)));
    assert_eq!(b.left(), 0);
    // a stream without a readable filter entry inflates nothing
    assert!(b.charge_stream(b"plain", None));
    assert_eq!(b.left(), 0);
}

// --- bounded svgz inflation

const TEST_SVG: &[u8] = br#"<svg xmlns="http://www.w3.org/2000/svg" width="100" height="50"><rect x="25" y="0" width="50" height="50" fill="red"/></svg>"#;

/// gzip `data` in memory.
fn gzipped(data: &[u8]) -> Vec<u8> {
    let mut enc = flate2::write::GzEncoder::new(Vec::new(), flate2::Compression::fast());
    enc.write_all(data).unwrap();
    enc.finish().unwrap()
}

#[test]
fn svgz_bomb_is_rejected_by_the_inflate_bound() {
    let bomb = gzipped(&vec![b' '; (SVGZ_INFLATED_MAX + 1024) as usize]);
    assert!(
        bomb.len() < SVG_SOURCE_MAX as usize,
        "the bomb must pass the source-read cap to prove the inflate bound"
    );
    assert!(inflate_svgz_bounded(bomb).is_none());
    assert_eq!(inflate_svgz_bounded(TEST_SVG.to_vec()).as_deref(), Some(TEST_SVG));
    assert_eq!(inflate_svgz_bounded(gzipped(TEST_SVG)).as_deref(), Some(TEST_SVG));
}

#[test]
fn svgz_at_the_bound_is_kept_and_broken_gzip_is_refused() {
    let exact = gzipped(&vec![b'x'; SVGZ_INFLATED_MAX as usize]);
    assert_eq!(inflate_svgz_bounded(exact).map(|v| v.len()), Some(SVGZ_INFLATED_MAX as usize));
    assert!(inflate_svgz_bounded(vec![0x1f, 0x8b, 0, 0, 0]).is_none());
    assert_eq!(inflate_svgz_bounded(vec![0x1f]), Some(vec![0x1f]));
}

#[test]
fn preview_kind_routes_images_fonts_and_media() {
    assert_eq!(preview_kind("image", "svg"), PreviewKind::Svg);
    assert_eq!(preview_kind("image", "png"), PreviewKind::Image);
    assert_eq!(preview_kind("font", "ttf"), PreviewKind::Font);
    assert_eq!(preview_kind("font", "woff2"), PreviewKind::Font);
    assert_eq!(preview_kind("application", "font-sfnt"), PreviewKind::Font);
    assert_eq!(preview_kind("application", "font-woff"), PreviewKind::Font);
    assert_eq!(preview_kind("audio", "mpeg"), PreviewKind::Audio);
    assert_eq!(preview_kind("video", "mp4"), PreviewKind::Video);
}

#[test]
fn preview_kind_routes_archives_and_documents() {
    assert_eq!(preview_kind("application", "gzip"), PreviewKind::Gzip);
    assert_eq!(preview_kind("application", "zstd"), PreviewKind::Zstd);
    assert_eq!(preview_kind("application", "x-xz"), PreviewKind::Xz);
    assert_eq!(preview_kind("application", "x-bzip2"), PreviewKind::Bzip2);
    assert_eq!(preview_kind("application", "x-7z-compressed"), PreviewKind::SevenZip);
    assert_eq!(preview_kind("application", "x-tar"), PreviewKind::Tar);
    assert_eq!(preview_kind("application", "zip"), PreviewKind::Zip);
    assert_eq!(
        preview_kind("application", "vnd.openxmlformats-officedocument.wordprocessingml.document"),
        PreviewKind::Document(DocKind::Docx)
    );
    assert_eq!(
        preview_kind("application", "vnd.openxmlformats-officedocument.spreadsheetml.sheet"),
        PreviewKind::Document(DocKind::Xlsx)
    );
    assert_eq!(
        preview_kind("application", "vnd.openxmlformats-officedocument.presentationml.presentation"),
        PreviewKind::Document(DocKind::Pptx)
    );
    for s in ["vnd.oasis.opendocument.text", "vnd.oasis.opendocument.spreadsheet", "vnd.oasis.opendocument.presentation"] {
        assert_eq!(preview_kind("application", s), PreviewKind::Document(DocKind::Odt));
    }
    assert_eq!(preview_kind("application", "epub"), PreviewKind::Document(DocKind::Epub));
    assert_eq!(preview_kind("application", "vnd.sqlite3"), PreviewKind::Sqlite);
    assert_eq!(preview_kind("application", "pdf"), PreviewKind::Pdf);
    assert_eq!(preview_kind("application", "x-x509-ca-cert"), PreviewKind::Cert);
}

#[test]
fn preview_kind_falls_back_by_type() {
    assert_eq!(preview_kind("application", "json"), PreviewKind::Text);
    assert_eq!(preview_kind("application", "javascript; charset=utf-8"), PreviewKind::Text);
    assert_eq!(preview_kind("application", "octet-stream"), PreviewKind::Binary);
    assert_eq!(preview_kind("application", "msgpack"), PreviewKind::Binary);
    assert_eq!(preview_kind("application", "x-executable"), PreviewKind::Stat);
    assert_eq!(preview_kind("text", "plain"), PreviewKind::Text);
    assert_eq!(preview_kind("chemical", "x-pdb"), PreviewKind::Binary);
}
