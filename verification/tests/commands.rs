use rfm::commands::{handle_command, Command, Effect, ManagerState, Move, Surroundings};
use rfm::tabs::ViewMode;

fn sur(targets: &[&str], marked: &[&str]) -> Surroundings {
    Surroundings {
        cwd: "/work".to_string(),
        selected: Some("/work/a".to_string()),
        selected_name: "a".to_string(),
        targets: targets.iter().map(|s| s.to_string()).collect(),
        marked: marked.iter().map(|s| s.to_string()).collect(),
        split_fits: true,
        height: 20,
    }
}

fn strings(v: &[&str]) -> Vec<String> {
    v.iter().map(|s| s.to_string()).collect()
}

#[test]
fn moves_become_panel_work_with_page_sizes() {
    let mut st = ManagerState::new(false, false, true);
    assert_eq!(handle_command(&mut st, sur(&[], &[]), Command::Move(Move::HalfPageForward)), vec![Effect::MoveDown(10)]);
    assert_eq!(handle_command(&mut st, sur(&[], &[]), Command::Move(Move::Top)), vec![Effect::MoveUp(usize::MAX)]);
    assert_eq!(handle_command(&mut st, sur(&[], &[]), Command::Mark), vec![Effect::MarkSelected, Effect::MoveDown(1)]);
    assert_eq!(handle_command(&mut st, sur(&[], &[]), Command::NoOp), vec![]);
}

#[test]
fn toggling_hidden_files_flips_the_switch() {
    let mut st = ManagerState::new(false, false, true);
    assert_eq!(handle_command(&mut st, sur(&[], &[]), Command::ToggleHidden), vec![Effect::ApplyHidden(true), Effect::RefreshPreview]);
    assert!(st.show_hidden());
    assert_eq!(handle_command(&mut st, sur(&[], &[]), Command::ToggleHidden), vec![Effect::ApplyHidden(false), Effect::RefreshPreview]);
    assert_eq!(handle_command(&mut st, sur(&[], &[]), Command::ToggleLog), vec![]);
    assert!(st.show_log());
}

#[test]
fn delete_goes_to_the_trash_only_when_it_is_on() {
    let mut st = ManagerState::new(false, false, true);
    assert_eq!(
        handle_command(&mut st, sur(&["/work/a"], &[]), Command::Delete),
        vec![Effect::UnmarkAll, Effect::TrashFiles(strings(&["/work/a"])), Effect::ReloadAll]
    );
    let mut st = ManagerState::new(false, false, false);
    assert_eq!(
        handle_command(&mut st, sur(&["/work/a"], &[]), Command::Delete),
        vec![Effect::UnmarkAll, Effect::DeleteFiles(strings(&["/work/a"])), Effect::ReloadAll]
    );
    assert_eq!(handle_command(&mut st, sur(&[], &[]), Command::ViewTrash), vec![Effect::TrashDisabled]);
}

#[test]
fn cut_then_paste_moves_into_the_current_directory_once() {
    let mut st = ManagerState::new(false, false, true);
    handle_command(&mut st, sur(&["/work/a", "/work/b"], &[]), Command::Cut);
    let mut there = sur(&[], &[]);
    there.cwd = "/else".to_string();
    assert_eq!(
        handle_command(&mut st, there, Command::Paste { overwrite: false }),
        vec![
            Effect::UnmarkAll,
            Effect::Paste {
                files: strings(&["/work/a", "/work/b"]),
                cut: true,
                overwrite: false,
                dest: "/else".to_string()
            },
            Effect::ReloadAll
        ]
    );
    assert_eq!(
        handle_command(&mut st, sur(&[], &[]), Command::Paste { overwrite: true }),
        vec![Effect::UnmarkAll, Effect::ReloadAll]
    );
}

#[test]
fn jump_marks_return_to_the_marked_place() {
    let mut st = ManagerState::new(false, false, true);
    handle_command(&mut st, sur(&[], &[]), Command::SetJumpMark('w'));
    let mut elsewhere = sur(&[], &[]);
    elsewhere.cwd = "/tmp".to_string();
    assert_eq!(
        handle_command(&mut st, elsewhere, Command::JumpToMark('w')),
        vec![Effect::JumpToMark {
            dir: "/work".to_string(),
            entry: Some("/work/a".to_string())
        }]
    );
    assert_eq!(handle_command(&mut st, sur(&[], &[]), Command::JumpToMark('q')), vec![Effect::MarkNotSet('q')]);
}

#[test]
fn rename_uses_the_editor_for_several_marked_files() {
    let mut st = ManagerState::new(false, false, true);
    assert_eq!(
        handle_command(&mut st, sur(&[], &["/work/a", "/work/b"]), Command::Rename),
        vec![Effect::UnmarkAll, Effect::BulkRename(strings(&["/work/a", "/work/b"])), Effect::ReloadAll]
    );
    assert_eq!(
        handle_command(&mut st, sur(&[], &["/work/a"]), Command::Rename),
        vec![Effect::OpenRename("a".to_string())]
    );
}

#[test]
fn tabs_open_close_and_split() {
    let mut st = ManagerState::new(false, false, true);
    assert_eq!(handle_command(&mut st, sur(&[], &[]), Command::CloseTab), vec![Effect::Quit("/work".to_string())]);
    assert_eq!(handle_command(&mut st, sur(&[], &[]), Command::NewTab), vec![Effect::OpenTab]);
    assert_eq!(st.tabs().count(), 2);
    assert_eq!(handle_command(&mut st, sur(&[], &[]), Command::FocusTab(1)), vec![Effect::RefreshPreview]);
    assert_eq!(st.tabs().focused(), 0);
    assert_eq!(handle_command(&mut st, sur(&[], &[]), Command::FocusTab(9)), vec![]);
    assert_eq!(handle_command(&mut st, sur(&[], &[]), Command::ToggleSplit), vec![]);
    assert_eq!(st.tabs().view(), ViewMode::Split);
    assert_eq!(handle_command(&mut st, sur(&[], &[]), Command::FocusNext), vec![]);
    assert_eq!(handle_command(&mut st, sur(&[], &[]), Command::CloseTab), vec![Effect::RemoveTab(1), Effect::RefreshPreview]);
    assert_eq!(st.tabs().view(), ViewMode::Single);
    let mut narrow = sur(&[], &[]);
    narrow.split_fits = false;
    assert_eq!(handle_command(&mut st, narrow, Command::ToggleSplit), vec![Effect::TooNarrow]);
    assert_eq!(handle_command(&mut st, sur(&[], &[]), Command::ToggleSplit), vec![Effect::OpenTab]);
    assert_eq!(st.tabs().count(), 2);
    for _ in 0..2 {
        handle_command(&mut st, sur(&[], &[]), Command::NewTab);
    }
    assert_eq!(handle_command(&mut st, sur(&[], &[]), Command::NewTab), vec![Effect::TabLimit]);
}

#[test]
fn user_commands_get_the_paths_and_run_in_the_current_directory() {
    let mut st = ManagerState::new(false, false, true);
    let cmd = Command::UserCommand {
        name: "list".to_string(),
        cmd: "ls $@".to_string(),
        interactive: false,
        separator: " ".to_string(),
    };
    assert_eq!(
        handle_command(&mut st, sur(&["/work/a", "/work/b"], &[]), cmd),
        vec![
            Effect::QueueCommand {
                name: "list".to_string(),
                cmd: "ls /work/a /work/b".to_string(),
                dir: "/work".to_string()
            },
            Effect::UnmarkAll
        ]
    );
    assert_eq!(
        handle_command(&mut st, sur(&[], &[]), Command::Extract),
        vec![Effect::Extract("/work/a".to_string(), "/work".to_string())]
    );
}

#[test]
fn next_and_previous_marked_refresh_the_preview() {
    let mut st = ManagerState::new(false, false, true);
    assert_eq!(
        handle_command(&mut st, sur(&[], &[]), Command::Next),
        vec![Effect::SelectNextMarked, Effect::RefreshPreview]
    );
    assert_eq!(
        handle_command(&mut st, sur(&[], &[]), Command::Previous),
        vec![Effect::SelectPrevMarked, Effect::RefreshPreview]
    );
}
