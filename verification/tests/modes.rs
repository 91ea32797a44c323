use rfm::console::{ascii_words, split_lines, Zoxide, ZoxideAnswer, ZoxideStep};
use rfm::decision_flow::{Choice, DecisionFlow, DecisionItem};
use rfm::directory::{DirContent, DirPanel};
use rfm::input::{KeyCode, KeyEvent, KeyModifiers};
use rfm::mode::{Cleanup, CreateItemMode, FlowKind, ModalRegion, ModeOp, RenameMode, SearchMode};
use rfm::tabs::{can_add_tab, focus_after_close, next_focus, MAX_TABS};
use rfm::trash_view::{fit_left, newest_entry, TrashEntry, TrashView};

fn key(code: KeyCode) -> KeyEvent {
    KeyEvent::new(code, KeyModifiers::none())
}

// --- tabs

#[test]
fn next_focus_wraps_forward() {
    assert_eq!(next_focus(0, 3), 1);
    assert_eq!(next_focus(1, 3), 2);
    assert_eq!(next_focus(2, 3), 0);
}

#[test]
fn next_focus_single_tab_stays_put() {
    assert_eq!(next_focus(0, 1), 0);
}

#[test]
fn focus_after_close_clamps_into_shrunk_range() {
    assert_eq!(focus_after_close(2, 2), 1);
    assert_eq!(focus_after_close(0, 2), 0);
    assert_eq!(focus_after_close(1, 2), 1);
    assert_eq!(focus_after_close(1, 1), 0);
    assert_eq!(focus_after_close(0, 1), 0);
}

#[test]
fn can_add_tab_respects_cap() {
    assert!(can_add_tab(1));
    assert!(can_add_tab(MAX_TABS - 1));
    assert!(!can_add_tab(MAX_TABS));
    assert!(!can_add_tab(MAX_TABS + 1));
}

#[test]
fn focus_after_closing_the_only_tab_is_zero() {
    assert_eq!(focus_after_close(3, 0), 0);
}

// --- create item

#[test]
fn typing_previews_the_new_file() {
    let mut mode = CreateItemMode::new(false);
    assert_eq!(
        mode.handle_key(key(KeyCode::Char('f'))),
        ModeOp::CreatePreview {
            name: "f".into(),
            is_dir: false
        }
    );
    assert_eq!(
        mode.handle_key(key(KeyCode::Char('o'))),
        ModeOp::CreatePreview {
            name: "fo".into(),
            is_dir: false
        }
    );
}

#[test]
fn typing_previews_the_new_directory() {
    let mut mode = CreateItemMode::new(true);
    assert_eq!(
        mode.handle_key(key(KeyCode::Char('d'))),
        ModeOp::CreatePreview {
            name: "d".into(),
            is_dir: true
        }
    );
}

#[test]
fn enter_creates_with_the_current_input() {
    let mut mode = CreateItemMode::new(true);
    mode.handle_key(key(KeyCode::Char('d')));
    assert_eq!(
        mode.handle_key(key(KeyCode::Enter)),
        ModeOp::Create {
            name: "d".into(),
            is_dir: true
        }
    );
}

#[test]
fn enter_emits_the_name_untrimmed() {
    let mut mode = CreateItemMode::new(false);
    mode.handle_key(key(KeyCode::Char(' ')));
    mode.handle_key(key(KeyCode::Char('a')));
    mode.handle_key(key(KeyCode::Char(' ')));
    assert_eq!(
        mode.handle_key(key(KeyCode::Enter)),
        ModeOp::Create {
            name: " a ".into(),
            is_dir: false
        }
    );
}

#[test]
fn create_item_esc_cancels_and_requests_preview_cleanup() {
    let mut mode = CreateItemMode::new(true);
    mode.handle_key(key(KeyCode::Char('d')));
    assert_eq!(
        mode.handle_key(key(KeyCode::Esc)),
        ModeOp::Exit {
            cleanup: Cleanup::CreatePreview
        }
    );
}

#[test]
fn tab_is_a_no_op_placeholder() {
    let mut mode = CreateItemMode::new(false);
    mode.handle_key(key(KeyCode::Char('f')));
    assert_eq!(mode.handle_key(key(KeyCode::Tab)), ModeOp::NoOp);
    assert_eq!(
        mode.handle_key(key(KeyCode::Enter)),
        ModeOp::Create {
            name: "f".into(),
            is_dir: false
        }
    );
}

#[test]
fn backspace_deletes_the_last_char() {
    let mut mode = CreateItemMode::new(false);
    mode.handle_key(key(KeyCode::Char('f')));
    mode.handle_key(key(KeyCode::Char('o')));
    assert_eq!(
        mode.handle_key(key(KeyCode::Backspace)),
        ModeOp::CreatePreview {
            name: "f".into(),
            is_dir: false
        }
    );
}

#[test]
fn name_is_the_debug_mode_string() {
    assert_eq!(CreateItemMode::new(true).name(), "mkdir");
    assert_eq!(CreateItemMode::new(false).name(), "touch");
}

#[test]
fn shifted_character_is_typed_in_upper_case() {
    let mut mode = CreateItemMode::new(false);
    let shifted = KeyEvent::new(
        KeyCode::Char('a'),
        KeyModifiers {
            shift: true,
            control: false,
        },
    );
    assert_eq!(
        mode.handle_key(shifted),
        ModeOp::CreatePreview {
            name: "A".into(),
            is_dir: false
        }
    );
    assert_eq!(mode.region(), ModalRegion::FooterLine);
}

// --- rename

#[test]
fn typing_appends_to_the_seeded_name() {
    let mut mode = RenameMode::new("old.txt".into());
    assert_eq!(
        mode.handle_key(key(KeyCode::Char('x'))),
        ModeOp::RenamePreview("old.txtx".into())
    );
}

#[test]
fn enter_renames_to_the_current_input() {
    let mut mode = RenameMode::new("old.txt".into());
    mode.handle_key(key(KeyCode::Char('x')));
    assert_eq!(
        mode.handle_key(key(KeyCode::Enter)),
        ModeOp::Rename {
            to: "old.txtx".into()
        }
    );
}

#[test]
fn rename_esc_cancels_and_requests_preview_cleanup() {
    let mut mode = RenameMode::new("old.txt".into());
    mode.handle_key(key(KeyCode::Char('x')));
    assert_eq!(
        mode.handle_key(key(KeyCode::Esc)),
        ModeOp::Exit {
            cleanup: Cleanup::RenamePreview
        }
    );
}

#[test]
fn backspace_deletes_at_the_end_of_the_seeded_name() {
    let mut mode = RenameMode::new("old.txt".into());
    assert_eq!(
        mode.handle_key(key(KeyCode::Backspace)),
        ModeOp::RenamePreview("old.tx".into())
    );
}

#[test]
fn enter_with_unchanged_name_still_emits_rename() {
    let mut mode = RenameMode::new("old.txt".into());
    assert_eq!(
        mode.handle_key(key(KeyCode::Enter)),
        ModeOp::Rename {
            to: "old.txt".into()
        }
    );
}

#[test]
fn ctrl_backspace_at_the_end_keeps_only_the_extension() {
    let mut mode = RenameMode::new("old.txt".into());
    let ctrl = KeyEvent::new(
        KeyCode::Backspace,
        KeyModifiers {
            shift: false,
            control: true,
        },
    );
    assert_eq!(mode.handle_key(ctrl), ModeOp::RenamePreview(".txt".into()));
}

// --- search

#[test]
fn typing_updates_search_live() {
    let mut mode = SearchMode::new();
    assert_eq!(
        mode.handle_key(key(KeyCode::Char('f'))),
        ModeOp::UpdateSearch("f".into())
    );
    assert_eq!(
        mode.handle_key(key(KeyCode::Char('o'))),
        ModeOp::UpdateSearch("fo".into())
    );
}

#[test]
fn enter_finishes_search_with_pattern() {
    let mut mode = SearchMode::new();
    mode.handle_key(key(KeyCode::Char('f')));
    mode.handle_key(key(KeyCode::Char('o')));
    assert_eq!(
        mode.handle_key(key(KeyCode::Enter)),
        ModeOp::FinishSearch("fo".into())
    );
}

#[test]
fn esc_cancels_and_requests_search_cleanup() {
    let mut mode = SearchMode::new();
    mode.handle_key(key(KeyCode::Char('f')));
    assert_eq!(
        mode.handle_key(key(KeyCode::Esc)),
        ModeOp::Exit {
            cleanup: Cleanup::Search
        }
    );
}

#[test]
fn enter_with_empty_input_finishes_with_empty_pattern() {
    let mut mode = SearchMode::new();
    assert_eq!(
        mode.handle_key(key(KeyCode::Enter)),
        ModeOp::FinishSearch("".into())
    );
}

#[test]
fn backspace_reaches_the_input() {
    let mut mode = SearchMode::new();
    mode.handle_key(key(KeyCode::Char('f')));
    mode.handle_key(key(KeyCode::Char('o')));
    assert_eq!(
        mode.handle_key(key(KeyCode::Backspace)),
        ModeOp::UpdateSearch("f".into())
    );
}

#[test]
fn cursor_keys_move_within_the_search_input() {
    let mut mode = SearchMode::new();
    mode.handle_key(key(KeyCode::Char('a')));
    mode.handle_key(key(KeyCode::Char('c')));
    mode.handle_key(key(KeyCode::Left));
    assert_eq!(
        mode.handle_key(key(KeyCode::Char('b'))),
        ModeOp::UpdateSearch("abc".into())
    );
    mode.handle_key(key(KeyCode::Left));
    assert_eq!(
        mode.handle_key(key(KeyCode::Delete)),
        ModeOp::UpdateSearch("ac".into())
    );
}

// --- decision flow

fn choice(key: char, label: &str) -> Choice {
    Choice {
        key,
        label: label.to_string(),
    }
}

fn two_items_with(second_default: Option<usize>) -> DecisionFlow {
    DecisionFlow::new(
        FlowKind::UpgradeNotice,
        "test".into(),
        vec![
            DecisionItem {
                prompt: "first".into(),
                detail: vec![],
                choices: vec![choice('k', "keep"), choice('a', "adopt")],
                default: Some(0),
            },
            DecisionItem {
                prompt: "second".into(),
                detail: vec![],
                choices: vec![choice('y', "yes"), choice('n', "no")],
                default: second_default,
            },
        ],
    )
}

fn two_items() -> DecisionFlow {
    two_items_with(Some(1))
}

#[test]
fn j_k_move_and_clamp_cursor() {
    let mut f = two_items();
    assert_eq!(f.cursor(), 0);
    f.handle_key(key(KeyCode::Char('j')));
    assert_eq!(f.cursor(), 1);
    f.handle_key(key(KeyCode::Char('j')));
    assert_eq!(f.cursor(), 1);
    f.handle_key(key(KeyCode::Char('k')));
    assert_eq!(f.cursor(), 0);
    f.handle_key(key(KeyCode::Up));
    assert_eq!(f.cursor(), 0);
}

#[test]
fn choice_key_answers_and_auto_advances() {
    let mut f = two_items();
    let op = f.handle_key(key(KeyCode::Char('a')));
    assert!(matches!(op, ModeOp::NoOp));
    assert_eq!(f.answers()[0], Some(1));
    assert_eq!(f.cursor(), 1);
}

#[test]
fn enter_accepts_default_of_current_item() {
    let mut f = two_items();
    f.handle_key(key(KeyCode::Enter));
    assert_eq!(f.answers()[0], Some(0));
}

#[test]
fn answering_last_item_resolves_flow() {
    let mut f = two_items();
    f.handle_key(key(KeyCode::Char('k')));
    let op = f.handle_key(key(KeyCode::Char('n')));
    match op {
        ModeOp::FlowResolved { kind, answers } => {
            assert_eq!(kind, FlowKind::UpgradeNotice);
            assert_eq!(answers, vec![0, 1]);
        }
        other => panic!("expected FlowResolved, got {other:?}"),
    }
}

#[test]
fn esc_with_all_defaults_resolves_with_defaults() {
    let mut f = two_items();
    let op = f.handle_key(key(KeyCode::Esc));
    assert!(matches!(op, ModeOp::FlowResolved { answers, .. } if answers == vec![0, 1]));
}

#[test]
fn esc_without_default_aborts() {
    let mut f = two_items_with(None);
    let op = f.handle_key(key(KeyCode::Esc));
    assert!(matches!(
        op,
        ModeOp::FlowAborted {
            kind: FlowKind::UpgradeNotice
        }
    ));
}

#[test]
fn wrong_key_is_noop() {
    let mut f = two_items();
    let op = f.handle_key(key(KeyCode::Char('z')));
    assert!(matches!(op, ModeOp::NoOp));
    assert_eq!(f.answers()[0], None);
}

#[test]
fn answered_item_can_be_revisited_and_changed() {
    let mut f = two_items();
    f.handle_key(key(KeyCode::Char('a')));
    f.handle_key(key(KeyCode::Char('k')));
    f.handle_key(key(KeyCode::Char('k')));
    f.handle_key(key(KeyCode::Char('k')));
    f.handle_key(key(KeyCode::Up));
    f.handle_key(key(KeyCode::Char('k')));
    assert_eq!(f.answers()[0], Some(0));
}

#[test]
fn answering_wraps_to_an_earlier_unanswered_item() {
    let mut f = two_items();
    f.handle_key(key(KeyCode::Down));
    let op = f.handle_key(key(KeyCode::Char('y')));
    assert!(matches!(op, ModeOp::NoOp));
    assert_eq!(f.cursor(), 0);
    assert_eq!(f.answers()[1], Some(0));
    let op = f.handle_key(key(KeyCode::Char('q')));
    assert!(matches!(op, ModeOp::FlowResolved { answers, .. } if answers == vec![0, 0]));
}

#[test]
fn enter_without_default_does_nothing() {
    let mut f = two_items_with(None);
    f.handle_key(key(KeyCode::Down));
    assert!(matches!(f.handle_key(key(KeyCode::Enter)), ModeOp::NoOp));
    assert_eq!(f.answers()[1], None);
    assert_eq!(f.name(), "decision-flow");
}

// --- trash view

fn item(name: &str, time_deleted: i64) -> trash::TrashItem {
    trash::TrashItem {
        id: format!("/trash/info/{name}.trashinfo").into(),
        name: name.into(),
        original_parent: "/work".into(),
        time_deleted,
    }
}

fn entries(times: &[i64]) -> Vec<TrashEntry> {
    times
        .iter()
        .enumerate()
        .map(|(i, t)| TrashEntry::new(item(&format!("file{i}.txt"), *t), *t))
        .collect()
}

#[test]
fn j_and_k_move_and_clamp_the_cursor() {
    let mut view = TrashView::new(entries(&[10, 11, 12]));
    assert_eq!(view.cursor(), 0);
    view.handle_key(key(KeyCode::Char('k')));
    assert_eq!(view.cursor(), 0);
    view.handle_key(key(KeyCode::Char('j')));
    view.handle_key(key(KeyCode::Char('j')));
    assert_eq!(view.cursor(), 2);
    view.handle_key(key(KeyCode::Char('j')));
    assert_eq!(view.cursor(), 2);
    view.handle_key(key(KeyCode::Char('k')));
    assert_eq!(view.cursor(), 1);
}

#[test]
fn r_emits_restore_for_the_current_item() {
    let items = entries(&[10]);
    let expected = items[0].item.clone();
    let mut view = TrashView::new(items);
    assert_eq!(
        view.handle_key(key(KeyCode::Char('r'))),
        ModeOp::RestoreFromTrash {
            items: vec![expected],
            cursor: 0
        }
    );
}

#[test]
fn new_sorts_items_newest_first() {
    let view = TrashView::new(entries(&[10, 12, 11]));
    for pair in view.items().windows(2) {
        assert!(pair[0].time_deleted >= pair[1].time_deleted);
    }
}

#[test]
fn r_on_empty_list_is_a_noop() {
    let mut view = TrashView::new(Vec::new());
    assert_eq!(view.handle_key(key(KeyCode::Char('r'))), ModeOp::NoOp);
}

#[test]
fn esc_exits_without_cleanup() {
    let mut view = TrashView::new(Vec::new());
    assert_eq!(
        view.handle_key(key(KeyCode::Esc)),
        ModeOp::Exit {
            cleanup: Cleanup::Nothing
        }
    );
}

#[test]
fn equal_deletion_times_keep_their_listed_order() {
    let view = TrashView::new(entries(&[5, 7, 5]));
    let names: Vec<String> = view
        .items()
        .iter()
        .map(|e| e.item.name.to_string_lossy().into_owned())
        .collect();
    assert_eq!(names, vec!["file1.txt", "file0.txt", "file2.txt"]);
}

#[test]
fn newest_entry_is_the_last_of_the_most_recent() {
    let picked = newest_entry(entries(&[3, 9, 4, 9])).unwrap();
    assert_eq!(picked.item.name.to_string_lossy(), "file3.txt");
    assert!(newest_entry(Vec::new()).is_none());
}

#[test]
fn fit_left_keeps_the_tail() {
    assert_eq!(fit_left("/home/user/deep/dir", 0), "");
    assert_eq!(fit_left("/home", 10), "/home");
    assert_eq!(fit_left("/home/user/deep", 6), "\u{2026}/deep");
}

// --- zoxide console

fn origin_console() -> Zoxide {
    Zoxide::from_panel(&DirPanel::new(DirContent::Listed(Vec::new()), "/origin".to_string(), 0))
}

#[test]
fn zoxide_esc_exits_to_its_starting_directory() {
    let mut console = origin_console();
    match console.handle_key(key(KeyCode::Esc)) {
        ZoxideStep::Done(op) => assert_eq!(
            op,
            ModeOp::Exit {
                cleanup: Cleanup::CdTo("/origin".into())
            }
        ),
        ZoxideStep::Query => panic!("Esc must not query"),
    }
}

#[test]
fn zoxide_enter_exits_without_cleanup() {
    let mut console = Zoxide::new(String::new());
    match console.handle_key(key(KeyCode::Enter)) {
        ZoxideStep::Done(op) => assert_eq!(
            op,
            ModeOp::Exit {
                cleanup: Cleanup::Nothing
            }
        ),
        ZoxideStep::Query => panic!("Enter must not query"),
    }
}

#[test]
fn zoxide_backspace_to_empty_input_cds_back_to_start() {
    let mut console = origin_console();
    assert!(matches!(console.handle_key(key(KeyCode::Char('a'))), ZoxideStep::Query));
    match console.handle_key(key(KeyCode::Backspace)) {
        ZoxideStep::Done(op) => assert_eq!(op, ModeOp::Cd("/origin".into())),
        ZoxideStep::Query => panic!("emptying the input returns before any query"),
    }
}

#[test]
fn zoxide_query_cycles_through_the_answers() {
    let mut console = origin_console();
    console.handle_key(key(KeyCode::Char('p')));
    console.handle_key(key(KeyCode::Char(' ')));
    console.handle_key(key(KeyCode::Char('q')));
    let words = console.query_words();
    assert_eq!(words, vec!["p".to_string(), "q".to_string()]);
    console.handle_key(key(KeyCode::Tab));
    console.handle_key(key(KeyCode::Tab));
    console.handle_key(key(KeyCode::Tab));
    let answer = console.on_query(Ok(vec!["/a".to_string(), "/b".to_string()]));
    match answer {
        ZoxideAnswer::CdIfDir(p) => assert_eq!(p, "/b"),
        ZoxideAnswer::Op(_) => panic!("an answer names a directory"),
    }
    assert_eq!(console.path(), "/b");
}

#[test]
fn zoxide_without_answers_returns_to_start_and_failure_is_shown() {
    let mut console = origin_console();
    match console.on_query(Ok(Vec::new())) {
        ZoxideAnswer::Op(op) => assert_eq!(op, ModeOp::Cd("/origin".into())),
        ZoxideAnswer::CdIfDir(_) => panic!("no answer, no directory"),
    }
    match console.on_query(Err("not found".to_string())) {
        ZoxideAnswer::Op(op) => assert_eq!(op, ModeOp::NoOp),
        ZoxideAnswer::CdIfDir(_) => panic!("a failed query names nothing"),
    }
    assert_eq!(console.path(), "failed to execute zoxide: not found");
    assert_eq!(console.name(), "console");
}

#[test]
fn words_and_lines_split_like_std() {
    let text: Vec<char> = "  a\tbb \n c ".chars().collect();
    assert_eq!(ascii_words(&text), vec!["a", "bb", "c"]);
    assert_eq!(split_lines("x\r\ny\n\nz"), vec!["x", "y", "", "z"]);
    assert_eq!(split_lines("x\n"), vec!["x"]);
    assert!(split_lines("").is_empty());
}

#[test]
fn trash_layout_centers_the_band_and_splits_the_columns() {
    let view = TrashView::new(entries(&[10, 11, 12]));
    let l = view.layout(0, 80, 1, 23);
    assert_eq!((l.content_x, l.content_w, l.name_w, l.path_w), (2, 76, 23, 33));
    assert_eq!(l.visible, 3);
    assert_eq!((l.hint_y, l.top_bar_y, l.list_y0, l.bottom_bar_y), (9, 10, 11, 14));
    assert_eq!((l.div_center, l.div_right), (10, 40));
    assert_eq!(l.offset, 0);
    assert_eq!((l.date_x, l.sym_x, l.name_x, l.path_x), (2, 20, 22, 45));
}

#[test]
fn trash_layout_of_an_empty_trash_keeps_one_row() {
    let view = TrashView::new(Vec::new());
    let l = view.layout(0, 80, 1, 23);
    assert_eq!(l.visible, 1);
    assert_eq!((l.hint_y, l.list_y0, l.bottom_bar_y), (10, 12, 13));
}

#[test]
fn trash_layout_scrolls_the_list_to_the_cursor() {
    let times: Vec<i64> = (0..30).collect();
    let mut view = TrashView::new(entries(&times));
    for _ in 0..10 {
        view.handle_key(key(KeyCode::Char('j')));
    }
    let l = view.layout(0, 40, 0, 10);
    assert_eq!(l.visible, 4);
    assert_eq!(l.offset, 7);
    assert_eq!((l.hint_y, l.list_y0, l.bottom_bar_y), (1, 3, 7));
    assert_eq!(l.name_w, 8);
}
