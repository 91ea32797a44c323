use rfm::dir_console::DirConsole;
use rfm::directory::{DirContent, DirElem, DirPanel};
use rfm::input::{KeyCode, KeyEvent, KeyModifiers};
use rfm::mode::{Cleanup, ModalRegion, ModeOp};

fn key(code: KeyCode) -> KeyEvent {
    KeyEvent::new(code, KeyModifiers::none())
}

fn real_is_dir(p: &str) -> bool {
    std::path::Path::new(p).is_dir()
}

fn no_listing(_p: &str) -> Option<Vec<(String, bool)>> {
    None
}

/// A small tree: `/r` holds the directories `alpha`, `Beta`, `alps` and
/// `.hid`, and a file `file`.
fn fake_is_dir(p: &str) -> bool {
    let p = if p.len() > 1 { p.trim_end_matches('/') } else { p };
    matches!(p, "/" | "/r" | "/r/alpha" | "/r/Beta" | "/r/alps" | "/r/.hid")
}

fn fake_list(p: &str) -> Option<Vec<(String, bool)>> {
    let p = if p.len() > 1 { p.trim_end_matches('/') } else { p };
    match p {
        "/r" => Some(vec![
            ("alpha".to_string(), true),
            ("Beta".to_string(), true),
            ("file".to_string(), false),
            ("alps".to_string(), true),
            (".hid".to_string(), true),
        ]),
        "/r/alpha" | "/r/Beta" | "/r/alps" | "/r/.hid" => Some(Vec::new()),
        _ => None,
    }
}

/// A console in `/r` with its completions loaded: Backspace on an empty
/// input in `/r/alpha` moves up into `/r`.
fn console_in_r() -> DirConsole {
    let mut c = DirConsole::new("/r/alpha".to_string(), "/r/alpha".to_string());
    assert_eq!(
        c.handle_key(key(KeyCode::Backspace), &fake_is_dir, &fake_list),
        ModeOp::Cd("/r".to_string())
    );
    c
}

#[test]
fn dir_console_esc_exits_to_its_starting_directory() {
    let mut console = DirConsole::new(String::new(), "/origin".to_string());
    assert_eq!(
        console.handle_key(key(KeyCode::Esc), &real_is_dir, &no_listing),
        ModeOp::Exit {
            cleanup: Cleanup::CdTo("/origin".to_string())
        }
    );
}

#[test]
fn dir_console_enter_exits_without_cleanup() {
    let mut console = DirConsole::new(String::new(), String::new());
    assert_eq!(
        console.handle_key(key(KeyCode::Enter), &real_is_dir, &no_listing),
        ModeOp::Exit {
            cleanup: Cleanup::Nothing
        }
    );
}

#[test]
fn dir_console_backspace_at_empty_input_maps_del_to_cd() {
    let tmp = tempfile::tempdir().unwrap();
    let parent = tmp.path().parent().unwrap().to_string_lossy().into_owned();
    let mut console = DirConsole::new(tmp.path().to_string_lossy().into_owned(), String::new());
    assert_eq!(
        console.handle_key(key(KeyCode::Backspace), &real_is_dir, &no_listing),
        ModeOp::Cd(parent)
    );
}

#[test]
fn dir_console_key_without_effect_maps_to_none() {
    let mut console = DirConsole::new(String::new(), String::new());
    assert_eq!(
        console.handle_key(key(KeyCode::Char('x')), &real_is_dir, &no_listing),
        ModeOp::NoOp
    );
}

#[test]
fn dir_console_completions_sort_case_insensitively_and_skip_hidden() {
    let c = console_in_r();
    // alpha, alps, Beta: `.hid` is hidden and `file` no directory
    assert_eq!(c.recommendation(), "alpha");
}

#[test]
fn dir_console_tab_cycles_and_backtab_steps_back() {
    let mut c = console_in_r();
    assert_eq!(
        c.handle_key(key(KeyCode::Tab), &fake_is_dir, &fake_list),
        ModeOp::Cd("/r/alpha".to_string())
    );
    assert_eq!(
        c.handle_key(key(KeyCode::Tab), &fake_is_dir, &fake_list),
        ModeOp::Cd("/r/alps".to_string())
    );
    assert_eq!(
        c.handle_key(key(KeyCode::Tab), &fake_is_dir, &fake_list),
        ModeOp::Cd("/r/Beta".to_string())
    );
    // the index walks round
    assert_eq!(
        c.handle_key(key(KeyCode::Tab), &fake_is_dir, &fake_list),
        ModeOp::Cd("/r/alpha".to_string())
    );
    // Shift-Tab steps the index back before taking the completion
    assert_eq!(
        c.handle_key(key(KeyCode::BackTab), &fake_is_dir, &fake_list),
        ModeOp::Cd("/r/alpha".to_string())
    );
    assert_eq!(
        c.handle_key(key(KeyCode::BackTab), &fake_is_dir, &fake_list),
        ModeOp::Cd("/r/Beta".to_string())
    );
}

#[test]
fn dir_console_backspace_after_tab_returns_to_typed_input() {
    let mut c = console_in_r();
    c.handle_key(key(KeyCode::Tab), &fake_is_dir, &fake_list);
    // the typed input was empty: back to it, still in /r
    assert_eq!(
        c.handle_key(key(KeyCode::Backspace), &fake_is_dir, &fake_list),
        ModeOp::Cd("/r".to_string())
    );
    // the cycling index stays where Tab left it
    assert_eq!(c.recommendation(), "alps");
}

#[test]
fn dir_console_unique_completion_is_entered_on_tab() {
    let mut c = console_in_r();
    assert_eq!(c.handle_key(key(KeyCode::Char('B')), &fake_is_dir, &fake_list), ModeOp::NoOp);
    assert_eq!(c.handle_key(key(KeyCode::Char('e')), &fake_is_dir, &fake_list), ModeOp::NoOp);
    assert_eq!(c.recommendation(), "Beta");
    assert_eq!(
        c.handle_key(key(KeyCode::Tab), &fake_is_dir, &fake_list),
        ModeOp::Cd("/r/Beta".to_string())
    );
    // moved in: the new directory has no completions
    assert_eq!(c.recommendation(), "");
}

#[test]
fn dir_console_typing_a_directory_name_enters_it() {
    let mut c = console_in_r();
    for ch in "alp".chars() {
        assert_eq!(c.handle_key(key(KeyCode::Char(ch)), &fake_is_dir, &fake_list), ModeOp::NoOp);
    }
    // "alph" has a completion, and "alpha" is a directory
    assert_eq!(c.handle_key(key(KeyCode::Char('h')), &fake_is_dir, &fake_list), ModeOp::NoOp);
    assert_eq!(
        c.handle_key(key(KeyCode::Char('a')), &fake_is_dir, &fake_list),
        ModeOp::Cd("/r/alpha".to_string())
    );
}

#[test]
fn dir_console_backspace_without_completions_backs_off() {
    let mut c = console_in_r();
    for ch in "alz".chars() {
        c.handle_key(key(KeyCode::Char(ch)), &fake_is_dir, &fake_list);
    }
    // "alz" has no completion: Backspace takes characters off until one has
    assert_eq!(c.handle_key(key(KeyCode::Backspace), &fake_is_dir, &fake_list), ModeOp::NoOp);
    assert_eq!(c.recommendation(), "alpha");
}

#[test]
fn dir_console_slash_is_not_typed() {
    let mut c = console_in_r();
    c.handle_key(key(KeyCode::Char('a')), &fake_is_dir, &fake_list);
    c.handle_key(key(KeyCode::Char('/')), &fake_is_dir, &fake_list);
    c.handle_key(key(KeyCode::Char('l')), &fake_is_dir, &fake_list);
    assert_eq!(c.recommendation(), "alpha");
}

#[test]
fn dir_console_other_keys_do_nothing() {
    let mut c = console_in_r();
    assert_eq!(c.handle_key(key(KeyCode::Left), &fake_is_dir, &fake_list), ModeOp::NoOp);
    assert_eq!(c.region(), ModalRegion::ConsoleOverlay);
    assert_eq!(c.name(), "console");
}

#[test]
fn dir_console_from_panel_completes_shown_subdirectories() {
    let elems = vec![
        DirElem::new("/r/alpha", true),
        DirElem::new("/r/.hid", true),
        DirElem::new("/r/file", false),
    ];
    let panel = DirPanel::new(DirContent::Listed(elems), "/r".to_string(), 0);
    let c = DirConsole::from_panel(&panel, &fake_is_dir);
    assert_eq!(c.recommendation(), "alpha");
}

#[test]
fn console_layout_centers_short_text_and_greys_the_completion_rest() {
    let mut c = console_in_r();
    c.handle_key(key(KeyCode::Char('a')), &fake_is_dir, &fake_list);
    let l = c.layout(0, 80, 0, 24);
    assert_eq!(l.path_text, "/r/");
    assert_eq!(l.rec_text, "lpha");
    assert_eq!((l.x_path, l.x_text, l.x_rec), (20, 23, 24));
    assert_eq!((l.y_center, l.top_y, l.bot_y), (12, 11, 13));
    assert!(l.bars);
    assert_eq!((l.div_center, l.div_right), (10, 40));
}

#[test]
fn console_layout_of_long_text_moves_left() {
    let long = format!("/{}", "d".repeat(68));
    let c = DirConsole::new(long.clone(), long);
    let l = c.layout(0, 80, 0, 2);
    assert_eq!(l.path_text.chars().count(), 70);
    assert_eq!(l.x_path, 4);
    assert!(!l.bars);
    assert_eq!(l.rec_text, "");
}
