use rfm::bulk_rename::{bulk_dir, listing_text, original_names, review, BulkPlan, BulkReview, FileMove, FinalRename};

fn paths(v: &[&str]) -> Vec<String> {
    v.iter().map(|s| s.to_string()).collect()
}

fn never(_p: &str) -> bool {
    false
}

#[test]
fn bulk_rename_lists_the_file_names_one_per_line() {
    let files = paths(&["/d/a", "/d/b.txt"]);
    let names = original_names(&files);
    assert_eq!(names, vec!["a".to_string(), "b.txt".to_string()]);
    assert_eq!(listing_text(&names), "a\nb.txt\n");
    assert_eq!(bulk_dir(&files), "/d");
}

#[test]
fn bulk_rename_directory_defaults_to_dot() {
    assert_eq!(bulk_dir(&Vec::new()), ".");
    assert_eq!(bulk_dir(&paths(&["/"])), ".");
}

#[test]
fn bulk_rename_unchanged_list_renames_nothing() {
    let files = paths(&["/d/a", "/d/b"]);
    assert_eq!(review(&files, "a\nb\n", "u", &never), BulkReview::Unchanged);
    // the final newline is optional and CRLF endings are lines too
    assert_eq!(review(&files, "a\r\nb", "u", &never), BulkReview::Unchanged);
}

#[test]
fn bulk_rename_line_count_change_is_sent_back() {
    let files = paths(&["/d/a", "/d/b"]);
    assert_eq!(
        review(&files, "a\n", "u", &never),
        BulkReview::Rewrite("a # DO NOT add or remove lines\nb # DO NOT add or remove lines\n".to_string())
    );
}

#[test]
fn bulk_rename_duplicate_names_are_marked() {
    let files = paths(&["/d/a", "/d/b", "/d/c"]);
    assert_eq!(
        review(&files, "x\nx\nc\n", "u", &never),
        BulkReview::Rewrite("x # duplicate target name\nx # duplicate target name\nc\n".to_string())
    );
}

#[test]
fn bulk_rename_existing_target_outside_the_batch_is_marked() {
    let files = paths(&["/d/a", "/d/b"]);
    let exists = |p: &str| p == "/d/x";
    assert_eq!(
        review(&files, "x\nb\n", "u", &exists),
        BulkReview::Rewrite("x # already exists\nb\n".to_string())
    );
}

#[test]
fn bulk_rename_conflict_outranks_duplicate() {
    let files = paths(&["/d/a", "/d/b"]);
    let exists = |p: &str| p == "/d/x";
    assert_eq!(
        review(&files, "x\nx\n", "u", &exists),
        BulkReview::Rewrite("x # already exists\nx # already exists\n".to_string())
    );
}

#[test]
fn bulk_rename_plain_rename_is_planned() {
    let files = paths(&["/d/a", "/d/b"]);
    assert_eq!(
        review(&files, "x\nb\n", "u", &never),
        BulkReview::Apply(BulkPlan {
            temp_renames: Vec::new(),
            final_renames: vec![FinalRename {
                from: "/d/a".to_string(),
                to: "/d/x".to_string(),
                new_name: "x".to_string(),
                original: "/d/a".to_string(),
            }],
        })
    );
}

#[test]
fn bulk_rename_swap_goes_through_temporary_names() {
    let files = paths(&["/d/a", "/d/b"]);
    let exists = |p: &str| p == "/d/a" || p == "/d/b";
    assert_eq!(
        review(&files, "b\na\n", "42", &exists),
        BulkReview::Apply(BulkPlan {
            temp_renames: vec![
                FileMove { from: "/d/a".to_string(), to: "/d/.rfm-bulkrename-42-0-a".to_string() },
                FileMove { from: "/d/b".to_string(), to: "/d/.rfm-bulkrename-42-1-b".to_string() },
            ],
            final_renames: vec![
                FinalRename {
                    from: "/d/.rfm-bulkrename-42-0-a".to_string(),
                    to: "/d/b".to_string(),
                    new_name: "b".to_string(),
                    original: "/d/a".to_string(),
                },
                FinalRename {
                    from: "/d/.rfm-bulkrename-42-1-b".to_string(),
                    to: "/d/a".to_string(),
                    new_name: "a".to_string(),
                    original: "/d/b".to_string(),
                },
            ],
        })
    );
}

#[test]
fn bulk_rename_absolute_name_replaces_the_directory() {
    let files = paths(&["/d/a"]);
    match review(&files, "/e/z\n", "u", &never) {
        BulkReview::Apply(plan) => assert_eq!(plan.final_renames[0].to, "/e/z"),
        other => panic!("expected a plan, got {other:?}"),
    }
}
