use rfm::nav_history::NavHistory;

fn s(x: &str) -> String {
    x.to_string()
}

#[test]
fn nav_descend_then_ascend_restores_the_left_column() {
    let mut h = NavHistory::new(s("/a/b"));
    // in /a/b, left column /a with b selected; descend into /a/b/c
    assert_eq!(h.descend(s("/a/b"), s("/a"), s("/a/b")), None);
    assert_eq!(h.previous(), "/a/b");
    assert_eq!(h.fwd(), &[(s("/a"), s("/a/b"))]);
    // now in /a/b/c, left column /a/b; go up
    let t = h.ascend(Some(s("/a/b/c/d")), s("/a/b/c"), "/a/b");
    assert_eq!(t.dir, Some(s("/a")));
    assert_eq!(t.select, "/a/b");
    assert!(h.fwd().is_empty());
    assert_eq!(h.rev(), &[s("/a/b/c/d")]);
}

#[test]
fn nav_ascend_without_history_uses_the_parent() {
    let mut h = NavHistory::new(s("/a/b"));
    let t = h.ascend(None, s("/a/b"), "/a");
    assert_eq!(t.dir, Some(s("/")));
    assert_eq!(t.select, "/a");
    let t = h.ascend(None, s("/a"), "/");
    assert_eq!(t.dir, None);
    assert_eq!(t.select, "/");
}

#[test]
fn nav_descend_after_ascend_reselects_where_it_came_from() {
    let mut h = NavHistory::new(s("/a/b/c"));
    h.ascend(Some(s("/a/b/c/x")), s("/a/b/c"), "/a/b");
    h.ascend(Some(s("/a/b/c")), s("/a/b"), "/a");
    assert_eq!(h.right_selection(), Some(s("/a/b/c")));
    // back down: /a/b/c is selected again, then /a/b/c/x
    assert_eq!(h.descend(s("/a"), s("/"), s("/a")), Some(s("/a/b/c")));
    assert_eq!(h.right_selection(), Some(s("/a/b/c/x")));
    assert_eq!(h.descend(s("/a/b"), s("/a"), s("/a/b")), Some(s("/a/b/c/x")));
    assert_eq!(h.right_selection(), None);
}

#[test]
fn nav_cursor_move_and_jump_forget_history() {
    let mut h = NavHistory::new(s("/a/b"));
    h.descend(s("/a/b"), s("/a"), s("/a/b"));
    h.ascend(Some(s("/a/b/c")), s("/a/b/c"), "/a/b");
    h.cursor_moved();
    assert!(h.rev().is_empty());
    h.descend(s("/a/b"), s("/a"), s("/a/b"));
    h.jump(s("/z"));
    assert!(h.fwd().is_empty() && h.rev().is_empty());
    assert_eq!(h.previous(), "/z");
}
