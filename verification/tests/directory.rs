use rfm::directory::{is_executable_mode, is_hidden_name, listing_rows, marked_items, marked_or_selected, DirContent, DirElem, DirPanel, ListRow};
use rfm::highlight::{entry_layout, highlight_byte_range, search_highlight};

fn panel(entries: &[(&str, bool)]) -> DirPanel {
    let elems: Vec<DirElem> = entries
        .iter()
        .map(|(p, d)| DirElem::new(p, *d))
        .collect();
    DirPanel::new(DirContent::Listed(elems), "/d".to_string(), 0)
}

fn names(p: &DirPanel) -> Vec<String> {
    p.elements().iter().map(|e| e.name().clone()).collect()
}

#[test]
fn directories_come_first_then_names_case_insensitively() {
    let p = panel(&[
        ("/d/b.txt", false),
        ("/d/Zoo", true),
        ("/d/A.txt", false),
        ("/d/apple", true),
    ]);
    assert_eq!(names(&p), vec!["apple", "Zoo", "A.txt", "b.txt"]);
}

#[test]
fn hidden_names_are_recognized() {
    assert!(is_hidden_name(".bashrc"));
    assert!(is_hidden_name("__pycache__"));
    assert!(is_hidden_name("notes.txt.swp"));
    assert!(!is_hidden_name("notes.txt"));
}

#[test]
fn moving_skips_hidden_entries_and_stops_at_the_ends() {
    let mut p = panel(&[("/d/a", false), ("/d/.h", false), ("/d/b", false)]);
    assert_eq!(p.selected_path(), Some("/d/a"));
    assert!(p.down(1));
    assert_eq!(p.selected_path(), Some("/d/b"));
    assert!(!p.down(1));
    assert_eq!(p.selected_path(), Some("/d/b"));
    assert!(p.up(5));
    assert_eq!(p.selected_path(), Some("/d/a"));
    assert_eq!(p.index_vs_total(), (1, 2));
}

#[test]
fn showing_hidden_entries_keeps_the_selection() {
    let mut p = panel(&[("/d/a", false), ("/d/.h", false), ("/d/b", false)]);
    p.down(1);
    p.set_hidden(true);
    assert_eq!(p.selected_path(), Some("/d/b"));
    assert_eq!(p.index_vs_total(), (3, 3));
}

#[test]
fn select_path_jumps_to_a_listed_entry() {
    let mut p = panel(&[("/d/a", false), ("/d/b", false), ("/d/c", false)]);
    p.select_path("/d/c", None);
    assert_eq!(p.selected_path(), Some("/d/c"));
    p.select_path("/d/missing", Some(1));
    assert_eq!(p.selected_path(), Some("/d/b"));
}

#[test]
fn finishing_a_search_marks_the_matches() {
    let mut p = panel(&[("/d/Report.txt", false), ("/d/notes", false), ("/d/report2", false)]);
    p.update_search("REP".to_string());
    p.finish_search("REP");
    let marked: Vec<bool> = p.elements().iter().map(|e| e.is_marked()).collect();
    assert_eq!(marked, vec![false, true, true]);
    p.select_next_marked();
    assert_eq!(p.selected_path(), Some("/d/Report.txt"));
    p.unmark_all();
    assert!(p.elements().iter().all(|e| !e.is_marked()));
}

#[test]
fn marking_toggles_the_selected_entry() {
    let mut p = panel(&[("/d/a", false), ("/d/b", false)]);
    p.mark_selected_item();
    assert!(p.elements()[0].is_marked());
    p.mark_selected_item();
    assert!(!p.elements()[0].is_marked());
}

#[test]
fn an_unreadable_directory_is_empty() {
    let p = DirPanel::new(DirContent::NoAccess, "/root".to_string(), 0);
    assert!(p.no_access());
    assert!(p.elements().is_empty());
    assert_eq!(p.selected_path(), None);
    assert_eq!(DirPanel::loading("/x".to_string()).path(), "/x");
    assert!(DirPanel::loading("/x".to_string()).is_loading());
}

// --- live-search highlight positions

#[test]
fn search_highlight_finds_the_first_case_insensitive_match() {
    assert_eq!(search_highlight("Report-2.TXT", "rt-2"), Some((4, 4)));
    assert_eq!(search_highlight("aXbxc", "x"), Some((1, 1)));
    assert_eq!(search_highlight("abc", "zz"), None);
    // an empty pattern matches at the start
    assert_eq!(search_highlight("abc", ""), Some((0, 0)));
}

#[test]
fn highlight_byte_range_counts_utf8_bytes() {
    // "é" takes two bytes
    assert_eq!(highlight_byte_range("résumé", Some((1, 3))), Some((1, 5)));
    assert_eq!(highlight_byte_range("report-2.txt", Some((0, 6))), Some((0, 6)));
}

#[test]
fn highlight_byte_range_clamps_and_rejects_empty() {
    assert_eq!(highlight_byte_range("ab", Some((1, 50))), Some((1, 2)));
    assert_eq!(highlight_byte_range("ab", Some((1, usize::MAX))), Some((1, 2)));
    assert_eq!(highlight_byte_range("ab", Some((2, 1))), None);
    assert_eq!(highlight_byte_range("ab", Some((0, 0))), None);
    assert_eq!(highlight_byte_range("ab", None), None);
}

#[test]
fn entry_layout_fits_the_name_beside_symbol_and_suffix() {
    // 20 columns: lead, a 2-column symbol, name, space, "1.0 K", space
    let l = entry_layout("report-2024.txt", "1.0 K", "ab", 20, false, false, true, None);
    assert_eq!(l.lead, ' ');
    assert_eq!(l.name, "report-20~");
    assert!(!l.dimmed);
    assert_eq!(l.highlight, None);
    let short = entry_layout("a", "0 B", "s", 20, true, true, false, Some("a"));
    assert_eq!(short.lead, 'x');
    assert_eq!(short.name, format!("a{}", " ".repeat(12)));
    assert!(short.dimmed);
    assert_eq!(short.highlight, Some((0, 1)));
}

#[test]
fn entry_layout_highlights_within_the_fitted_name_only() {
    // the match lies in the part cut off
    let l = entry_layout("abcdefghij-target", "", "s", 12, false, false, true, Some("target"));
    assert_eq!(l.name, "abcdefg~");
    assert_eq!(l.highlight, None);
    let l = entry_layout("Target-x", "", "s", 12, false, false, true, Some("target"));
    assert_eq!(l.highlight, Some((0, 6)));
}

#[test]
fn marked_items_collects_left_center_and_right() {
    let mut left = panel(&[("/d/a", false), ("/d/b", false)]);
    let mut center = panel(&[("/d/c", false), ("/d/e", false)]);
    let mut right = panel(&[("/d/f", false)]);
    left.mark_selected_item();
    center.down(1);
    center.mark_selected_item();
    right.mark_selected_item();
    assert_eq!(
        marked_items(&left, &center, Some(&right)),
        vec!["/d/a".to_string(), "/d/e".to_string(), "/d/f".to_string()]
    );
    assert_eq!(marked_items(&left, &center, None), vec!["/d/a".to_string(), "/d/e".to_string()]);
}

#[test]
fn marked_or_selected_prefers_marks_else_marks_the_selection() {
    let left = panel(&[("/d/a", false)]);
    let mut center = panel(&[("/d/c", false), ("/d/e", false)]);
    // nothing marked: the selection is taken and marked
    assert_eq!(marked_or_selected(&left, &mut center, None), vec!["/d/c".to_string()]);
    assert!(center.elements()[0].is_marked());
    // now something is marked: exactly the marks
    center.down(1);
    assert_eq!(marked_or_selected(&left, &mut center, None), vec!["/d/c".to_string()]);
    assert!(!center.elements()[1].is_marked());
    // an empty panel yields nothing
    let mut empty = panel(&[]);
    assert!(marked_or_selected(&left, &mut empty, None).is_empty());
}

#[test]
fn entry_layout_counts_the_symbol_in_display_columns() {
    // a double-width symbol leaves one column less for the name
    let wide = entry_layout("abcdefghijkl", "", "\u{2705}", 12, false, false, true, None);
    assert_eq!(wide.name, "abcdef~");
    let narrow = entry_layout("abcdefghijkl", "", "x", 12, false, false, true, None);
    assert_eq!(narrow.name, "abcdefg~");
    let selector = entry_layout("abcdefghijkl", "", "\u{2764}\u{FE0F}", 12, false, false, true, None);
    assert_eq!(selector.name, "abcdef~");
}

#[test]
fn executable_mode_needs_some_execute_bit() {
    assert!(is_executable_mode(0o100755));
    assert!(is_executable_mode(0o001));
    assert!(is_executable_mode(0o010));
    assert!(!is_executable_mode(0o100644));
    assert!(!is_executable_mode(0o666));
}

#[test]
fn normalize_records_the_canonical_path_once() {
    let mut e = DirElem::new("/d/./x", false);
    e.normalize("/d/x".to_string(), true, "1 B".to_string());
    assert_eq!(e.path(), "/d/x");
    assert!(e.is_executable());
    e.normalize("/other".to_string(), false, "2 B".to_string());
    assert_eq!(e.path(), "/d/x");
}

#[test]
fn moves_on_an_empty_panel_change_nothing() {
    let mut p = DirPanel::empty();
    assert!(!p.down(1));
    assert!(!p.up(1));
    assert_eq!(p.index_vs_total(), (1, 0));
    let mut q = panel(&[("/d/a", false), ("/d/b", false)]);
    assert!(!q.down(0));
    assert!(q.down(1));
    assert!(!q.up(0));
}

#[test]
fn listing_rows_show_the_listed_elements_with_the_selection() {
    let p = panel(&[("/d/a", false), ("/d/.h", false), ("/d/b", false), ("/d/c", false)]);
    assert_eq!(
        listing_rows(&p, 1, 10),
        vec![ListRow::Elem(1, true), ListRow::Elem(2, false), ListRow::Elem(3, false)]
    );
}

#[test]
fn listing_rows_keep_the_selection_near_the_middle() {
    let paths: Vec<String> = (0..20).map(|i| format!("/d/f{:02}", i)).collect();
    let entries: Vec<(&str, bool)> = paths.iter().map(|s| (s.as_str(), false)).collect();
    let mut p = panel(&entries);
    p.down(15);
    let rows = listing_rows(&p, 1, 6);
    let expected: Vec<ListRow> = (12..18).map(|i| ListRow::Elem(i, i == 15)).collect();
    assert_eq!(rows, expected);
}

#[test]
fn listing_rows_while_searching() {
    let mut p = panel(&[("/d/apple", false), ("/d/banana", false), ("/d/grape", false)]);
    p.update_search("AP".to_string());
    assert_eq!(listing_rows(&p, 1, 10), vec![ListRow::Elem(0, false), ListRow::Elem(2, false)]);
    assert_eq!(listing_rows(&p, 1, 1), vec![ListRow::Elem(0, false)]);
    p.update_search("zz".to_string());
    assert_eq!(listing_rows(&p, 1, 10), vec![ListRow::NoMatch]);
}

#[test]
fn listing_rows_place_a_new_element() {
    let mut p = panel(&[("/d/sub", true), ("/d/a.txt", false), ("/d/c.txt", false)]);
    p.inject_new_element("b.txt".to_string(), false);
    assert_eq!(
        listing_rows(&p, 1, 10),
        vec![
            ListRow::Elem(0, true),
            ListRow::Elem(1, false),
            ListRow::NewElement,
            ListRow::Elem(2, false)
        ]
    );
    p.inject_new_element("z.txt".to_string(), false);
    assert_eq!(
        listing_rows(&p, 1, 10),
        vec![
            ListRow::Elem(0, true),
            ListRow::Elem(1, false),
            ListRow::Elem(2, false),
            ListRow::NewElement
        ]
    );
}

#[test]
fn listing_rows_place_a_rename_preview() {
    let mut p = panel(&[("/d/a.txt", false), ("/d/b.txt", false), ("/d/c.txt", false)]);
    p.inject_rename_preview("d.txt".to_string(), 0);
    assert_eq!(
        listing_rows(&p, 1, 10),
        vec![ListRow::Elem(1, false), ListRow::Elem(2, false), ListRow::RenamePreview]
    );
    p.inject_rename_preview("b0.txt".to_string(), 2);
    assert_eq!(
        listing_rows(&p, 1, 10),
        vec![ListRow::Elem(0, true), ListRow::Elem(1, false), ListRow::RenamePreview]
    );
}
