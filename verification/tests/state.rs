use rfm::digits::decimal;
use rfm::panel_state::{MillerColumns, PanelState};
use rfm::rate_limiter::{Decision, RateLimitKey, RateLimiter};
use rfm::tabs::{route_preview, route_update, JumpMarks, Route, SplitToggle, TabBar, TabClose, TabPanels, ViewMode};
use rfm::undo::{FsChange, Transaction, UndoOutcome, UndoStack, UndoStart};
use rfm::util::{exact_width, expand_command, DestinationSearch, ExactWidth};

fn key(id: u64, path: &str) -> RateLimitKey {
    RateLimitKey::new(id, path.to_string())
}

const SEND: Decision = Decision {
    send_now: true,
    schedule_delayed: false,
};
const DELAY: Decision = Decision {
    send_now: false,
    schedule_delayed: true,
};
const DROP: Decision = Decision {
    send_now: false,
    schedule_delayed: false,
};

#[test]
fn first_request_passes_then_one_is_delayed_and_the_rest_dropped() {
    let mut limiter = RateLimiter::new(100);
    let k = key(1, "/home");
    assert_eq!(limiter.check_rate_limit(&k, 1000), SEND);
    assert_eq!(limiter.check_rate_limit(&k, 1050), DELAY);
    assert_eq!(limiter.check_rate_limit(&k, 1060), DROP);
    assert_eq!(limiter.check_rate_limit(&k, 1100), SEND);
}

#[test]
fn keys_are_limited_independently() {
    let mut limiter = RateLimiter::new(100);
    assert_eq!(limiter.check_rate_limit(&key(1, "/a"), 0), SEND);
    assert_eq!(limiter.check_rate_limit(&key(1, "/b"), 1), SEND);
    assert_eq!(limiter.check_rate_limit(&key(2, "/a"), 2), SEND);
    assert_eq!(limiter.check_rate_limit(&key(1, "/a"), 3), DELAY);
    assert_eq!(limiter.interval(), 100);
}

#[test]
fn executed_delay_reopens_the_window_from_its_time() {
    let mut limiter = RateLimiter::new(100);
    let k = key(7, "/x");
    assert_eq!(limiter.check_rate_limit(&k, 0), SEND);
    assert_eq!(limiter.check_rate_limit(&k, 10), DELAY);
    limiter.mark_delayed_executed(&k, 100);
    assert_eq!(limiter.check_rate_limit(&k, 150), DELAY);
    assert_eq!(limiter.check_rate_limit(&k, 200), SEND);
}

#[test]
fn a_clock_going_back_counts_as_no_time_passed() {
    let mut limiter = RateLimiter::new(100);
    let k = key(3, "/y");
    assert_eq!(limiter.check_rate_limit(&k, 500), SEND);
    assert_eq!(limiter.check_rate_limit(&k, 400), DELAY);
    let mut instant = RateLimiter::new(0);
    assert_eq!(instant.check_rate_limit(&k, 500), SEND);
    assert_eq!(instant.check_rate_limit(&k, 400), SEND);
}

fn move_tx(label: &str) -> Transaction {
    let mut tx = Transaction::new(label.to_string());
    tx.push(FsChange::Move {
        from: "/d/a".to_string(),
        to: "/d/b".to_string(),
    });
    tx
}

#[test]
fn barrier_blocks_undo() {
    let mut s = UndoStack::new();
    s.barrier("permanentes Löschen".to_string());
    assert!(matches!(s.begin_undo(), UndoStart::Blocked(_)));
    assert_eq!(s.undo_depth(), 1);
}

#[test]
fn empty_transaction_is_not_recorded() {
    let mut s = UndoStack::new();
    s.record(Transaction::new("noop".to_string()));
    assert_eq!(s.undo_depth(), 0);
}

#[test]
fn stack_records_undoes_and_redoes() {
    let mut s = UndoStack::new();
    s.record(move_tx("rename"));
    assert_eq!(s.undo_depth(), 1);
    let tx = match s.begin_undo() {
        UndoStart::Apply(tx) => tx,
        _ => panic!("a transaction is on top"),
    };
    assert_eq!(tx.changes.len(), 1);
    assert_eq!(s.finish_undo(tx), UndoOutcome::Done("rename".to_string()));
    assert_eq!(s.undo_depth(), 0);
    assert_eq!(s.redo_depth(), 1);
    let tx = match s.begin_redo() {
        UndoStart::Apply(tx) => tx,
        _ => panic!("a transaction is redoable"),
    };
    assert_eq!(s.finish_redo(tx), UndoOutcome::Done("rename".to_string()));
    assert_eq!(s.undo_depth(), 1);
    assert_eq!(s.redo_depth(), 0);
}

#[test]
fn recording_clears_redo() {
    let mut s = UndoStack::new();
    s.record(move_tx("m"));
    if let UndoStart::Apply(tx) = s.begin_undo() {
        s.finish_undo(tx);
    }
    assert_eq!(s.redo_depth(), 1);
    let mut tx2 = Transaction::new("c".to_string());
    tx2.push(FsChange::Create {
        path: "/d/z".to_string(),
        is_dir: false,
    });
    s.record(tx2);
    assert_eq!(s.redo_depth(), 0);
}

#[test]
fn failed_undo_puts_the_transaction_back() {
    let mut s = UndoStack::new();
    s.record(move_tx("m"));
    let tx = match s.begin_undo() {
        UndoStart::Apply(tx) => tx,
        _ => panic!("a transaction is on top"),
    };
    assert_eq!(
        s.fail_undo(tx, "disk on fire".to_string()),
        UndoOutcome::Failed("disk on fire".to_string())
    );
    assert_eq!(s.undo_depth(), 1);
    assert_eq!(s.redo_depth(), 0);
}

#[test]
fn non_redoable_transaction_is_not_kept_for_redo() {
    let mut s = UndoStack::new();
    s.record(move_tx("zip").no_redo());
    if let UndoStart::Apply(tx) = s.begin_undo() {
        assert_eq!(s.finish_undo(tx), UndoOutcome::Done("zip".to_string()));
    }
    assert_eq!(s.redo_depth(), 0);
    assert!(matches!(s.begin_redo(), UndoStart::Empty));
    assert!(matches!(s.begin_undo(), UndoStart::Empty));
}

#[test]
fn failed_redo_keeps_it_redoable() {
    let mut s = UndoStack::new();
    s.record(move_tx("m"));
    if let UndoStart::Apply(tx) = s.begin_undo() {
        s.finish_undo(tx);
    }
    let tx = match s.begin_redo() {
        UndoStart::Apply(tx) => tx,
        _ => panic!("redoable"),
    };
    assert_eq!(
        s.fail_redo(tx, "gone".to_string()),
        UndoOutcome::Failed("gone".to_string())
    );
    assert_eq!(s.redo_depth(), 1);
    assert_eq!(s.undo_depth(), 0);
}

#[test]
fn panel_state_counts_updates_and_rejects_stale_answers() {
    let mut state = PanelState::with_parts(42, 0, "/a".to_string(), 0);
    let older = state.copy();
    state.record_update(7, "/b".to_string());
    assert_eq!(state.cnt, 1);
    assert_eq!(state.hash(), 7);
    assert_eq!(state.path(), "/b");
    assert!(older.check_update(&state));
    assert!(!state.check_update(&older));
    let newer = state.increased();
    assert!(state.check_update(&newer));
    let other = PanelState::with_parts(43, 9, "/b".to_string(), 7);
    assert!(!state.check_update(&other));
    state.increase();
    assert_eq!(state.cnt, 2);
    assert_eq!(state.id(), 42);
    let fresh = PanelState::default();
    assert_eq!(fresh.cnt, 0);
    assert_eq!(fresh.path(), "");
}

#[test]
fn miller_columns_split_the_terminal() {
    let cols = MillerColumns::from_size((80, 24));
    assert_eq!(cols.left_x_range(), 0..10);
    assert_eq!(cols.center_x_range(), 10..40);
    assert_eq!(cols.right_x_range(), 40..80);
    assert_eq!(cols.y_range(), 1..23);
    assert_eq!(cols.height(), 22);
    assert_eq!(cols.footer(), 23);
    assert_eq!(cols.width(), 80);
    let tiny = MillerColumns::from_size((0, 0));
    assert_eq!(tiny.height(), 0);
    assert_eq!(tiny.footer(), 0);
}

#[test]
fn exact_width_pads_and_truncates() {
    assert_eq!(exact_width("ab", 4), "ab  ");
    assert_eq!(exact_width("abcdef", 4), "abc~");
    assert_eq!(exact_width("abcd", 4), "abcd");
    assert_eq!(exact_width("äbcdef", 4), "äb~");
    assert_eq!(exact_width("abc", 0), "~");
    assert_eq!("name.txt".to_string().exact_width(6), "name.~");
}

#[test]
fn destination_appends_underscores_while_taken() {
    let mut search = DestinationSearch::new("/src/file.txt", "/dst");
    assert_eq!(search.candidate(), "/dst/file.txt");
    search.taken();
    search.taken();
    assert_eq!(search.candidate(), "/dst/file.txt__");
    let root = DestinationSearch::new("/src/dir/", "/dst/");
    assert_eq!(root.candidate(), "/dst/dir");
}

#[test]
fn decimal_digits() {
    assert_eq!(decimal(0).into_iter().collect::<String>(), "0");
    assert_eq!(decimal(1700000000).into_iter().collect::<String>(), "1700000000");
    assert_eq!(decimal(u64::MAX).into_iter().collect::<String>(), u64::MAX.to_string());
}

// --- command templates

fn strs(v: &[&str]) -> Vec<String> {
    v.iter().map(|s| s.to_string()).collect()
}

#[test]
fn expand_command_escapes_and_joins_the_paths() {
    assert_eq!(expand_command("open $@", &strs(&["/a b", "/c"]), " "), "open '/a b' /c");
    assert_eq!(expand_command("x $@ y $@", &strs(&["p"]), " "), "x p y p");
    assert_eq!(expand_command("cmd $@", &Vec::new(), " "), "cmd ");
    assert_eq!(expand_command("$$@", &strs(&["q"]), ","), "$q");
    assert_eq!(expand_command("rm $@", &strs(&["a", "b"]), ", "), "rm a, b");
}

#[test]
fn expand_command_quotes_like_a_shell_word() {
    assert_eq!(expand_command("$@", &strs(&["it's"]), " "), r"'it'\''s'");
    assert_eq!(expand_command("$@", &strs(&["hey!"]), " "), r"'hey'\!''");
    assert_eq!(expand_command("$@", &strs(&[""]), " "), "''");
    assert_eq!(expand_command("$@", &strs(&["-_=/,.+Az09"]), " "), "-_=/,.+Az09");
}

fn two_moves() -> Transaction {
    let mut tx = Transaction::new("pair".to_string());
    tx.push(FsChange::Move {
        from: "/d/a".to_string(),
        to: "/d/b".to_string(),
    });
    tx.push(FsChange::Move {
        from: "/d/c".to_string(),
        to: "/d/e".to_string(),
    });
    tx
}

fn move_source(c: &FsChange) -> String {
    match c {
        FsChange::Move { from, .. } => from.clone(),
        _ => String::new(),
    }
}

#[test]
fn undo_applies_changes_last_first() {
    let mut s = UndoStack::new();
    s.record(two_moves());
    let seen = std::cell::RefCell::new(Vec::new());
    let out = s.undo(|c| {
        seen.borrow_mut().push(move_source(c));
        Ok(())
    });
    assert_eq!(out, UndoOutcome::Done("pair".to_string()));
    assert_eq!(*seen.borrow(), vec!["/d/c".to_string(), "/d/a".to_string()]);
    assert_eq!(s.undo_depth(), 0);
    assert_eq!(s.redo_depth(), 1);
}

#[test]
fn undo_stops_at_the_first_failure() {
    let mut s = UndoStack::new();
    s.record(two_moves());
    let seen = std::cell::RefCell::new(Vec::new());
    let out = s.undo(|c| {
        seen.borrow_mut().push(move_source(c));
        Err("busy".to_string())
    });
    assert_eq!(out, UndoOutcome::Failed("busy".to_string()));
    assert_eq!(*seen.borrow(), vec!["/d/c".to_string()]);
    assert_eq!(s.undo_depth(), 1);
    assert_eq!(s.redo_depth(), 0);
}

#[test]
fn undo_on_empty_and_barrier() {
    let mut s = UndoStack::new();
    assert_eq!(s.undo(|_| Ok(())), UndoOutcome::Empty);
    s.barrier("gone".to_string());
    assert_eq!(s.undo(|_| Ok(())), UndoOutcome::Blocked("gone".to_string()));
    assert_eq!(s.undo_depth(), 1);
    assert_eq!(s.redo(|_| Err("never".to_string())), UndoOutcome::Empty);
}

#[test]
fn redo_applies_changes_in_order_and_keeps_what_they_became() {
    let mut s = UndoStack::new();
    s.record(two_moves());
    assert_eq!(s.undo(|_| Ok(())), UndoOutcome::Done("pair".to_string()));
    let seen = std::cell::RefCell::new(Vec::new());
    let out = s.redo(|c| {
        seen.borrow_mut().push(move_source(c));
        Ok(FsChange::Create {
            path: move_source(c),
            is_dir: false,
        })
    });
    assert_eq!(out, UndoOutcome::Done("pair".to_string()));
    assert_eq!(*seen.borrow(), vec!["/d/a".to_string(), "/d/c".to_string()]);
    assert_eq!(s.undo_depth(), 1);
    assert_eq!(s.redo_depth(), 0);
    let seen2 = std::cell::RefCell::new(Vec::new());
    s.undo(|c| {
        if let FsChange::Create { path, .. } = c {
            seen2.borrow_mut().push(path.clone());
        }
        Ok(())
    });
    assert_eq!(*seen2.borrow(), vec!["/d/c".to_string(), "/d/a".to_string()]);
}

#[test]
fn failed_redo_goes_back_on_the_redo_stack() {
    let mut s = UndoStack::new();
    s.record(two_moves());
    s.undo(|_| Ok(()));
    let out = s.redo(|c| {
        if move_source(c) == "/d/c" {
            Err("no space".to_string())
        } else {
            Ok(FsChange::Create {
                path: "/d/new".to_string(),
                is_dir: true,
            })
        }
    });
    assert_eq!(out, UndoOutcome::Failed("no space".to_string()));
    assert_eq!(s.undo_depth(), 0);
    assert_eq!(s.redo_depth(), 1);
}

fn tab(left: u64, center: u64, right: u64) -> TabPanels {
    TabPanels {
        left: PanelState::with_parts(left, 1, "/l".to_string(), 0),
        center: PanelState::with_parts(center, 1, "/c".to_string(), 0),
        right: PanelState::with_parts(right, 1, "/r".to_string(), 0),
    }
}

#[test]
fn updates_are_routed_to_the_tab_that_owns_the_panel() {
    let tabs = vec![tab(1, 2, 3), tab(4, 5, 6)];
    let fresh = |id: u64| PanelState::with_parts(id, 2, "/x".to_string(), 7);
    assert_eq!(
        route_update(&tabs, 0, true, &fresh(5)),
        Route::Center { tab: 1, drive_preview: false }
    );
    assert_eq!(
        route_update(&tabs, 1, true, &fresh(5)),
        Route::Center { tab: 1, drive_preview: true }
    );
    assert_eq!(
        route_update(&tabs, 1, false, &fresh(5)),
        Route::Center { tab: 1, drive_preview: false }
    );
    assert_eq!(route_update(&tabs, 0, true, &fresh(4)), Route::Left { tab: 1 });
    assert_eq!(route_update(&tabs, 0, true, &fresh(9)), Route::Unknown);
    let stale = PanelState::with_parts(2, 1, "/x".to_string(), 7);
    assert_eq!(route_update(&tabs, 0, true, &stale), Route::Unknown);
    assert_eq!(route_preview(&tabs, &fresh(6)), Some(1));
    assert_eq!(route_preview(&tabs, &fresh(2)), None);
}

#[test]
fn tab_bar_opens_focuses_and_closes_tabs() {
    let mut t = TabBar::new();
    assert_eq!((t.count(), t.focused(), t.view()), (1, 0, ViewMode::Single));
    assert!(t.new_tab());
    assert!(t.new_tab());
    assert!(t.new_tab());
    assert!(!t.new_tab());
    assert_eq!((t.count(), t.focused()), (4, 3));
    t.focus_next();
    assert_eq!(t.focused(), 0);
    assert!(t.focus_tab(2));
    assert!(!t.focus_tab(4));
    assert_eq!(t.focused(), 2);
    assert_eq!(t.close_tab(), TabClose::Closed(2));
    assert_eq!((t.count(), t.focused()), (3, 2));
    assert_eq!(t.close_tab(), TabClose::Closed(2));
    assert_eq!((t.count(), t.focused()), (2, 1));
}

#[test]
fn closing_the_last_tab_quits() {
    let mut t = TabBar::new();
    assert_eq!(t.close_tab(), TabClose::Quit);
    assert_eq!(t.count(), 1);
}

#[test]
fn split_view_needs_room_and_two_tabs() {
    let mut t = TabBar::new();
    assert_eq!(t.toggle_split(false), SplitToggle::TooNarrow);
    assert_eq!((t.count(), t.view()), (1, ViewMode::Single));
    assert!(t.preview_visible());
    assert_eq!(t.toggle_split(true), SplitToggle::Split(true));
    assert_eq!((t.count(), t.focused(), t.view()), (2, 1, ViewMode::Split));
    assert!(!t.preview_visible());
    assert_eq!(t.close_tab(), TabClose::Closed(1));
    assert_eq!((t.count(), t.focused(), t.view()), (1, 0, ViewMode::Single));
    t.new_tab();
    assert_eq!(t.toggle_split(true), SplitToggle::Split(false));
    assert_eq!(t.toggle_split(true), SplitToggle::Single);
    assert_eq!(t.count(), 2);
}

#[test]
fn jump_marks_give_back_the_latest_setting() {
    let mut m = JumpMarks::new();
    assert!(m.get('a').is_none());
    m.set('a', "/one".to_string(), Some("/one/x".to_string()));
    m.set('b', "/two".to_string(), None);
    m.set('a', "/three".to_string(), None);
    let a = m.get('a').unwrap();
    assert_eq!((a.dir.as_str(), a.entry), ("/three", None));
    let b = m.get('b').unwrap();
    assert_eq!(b.dir, "/two");
    assert!(m.get('c').is_none());
}
