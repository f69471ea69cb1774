use guitar::status::{deduplicate, push_unique, StatusFlags, UncommittedChanges};

fn flags() -> StatusFlags {
    StatusFlags { conflicted: false, index_modified: false, index_new: false, index_deleted: false, wt_modified: false, wt_new: false, wt_deleted: false }
}

#[test]
fn paths_are_sorted_into_staged_and_unstaged_panes() {
    let entries = vec![
        ("a.rs".to_string(), StatusFlags { index_modified: true, wt_modified: true, ..flags() }),
        ("b.rs".to_string(), StatusFlags { wt_new: true, ..flags() }),
        ("c.rs".to_string(), StatusFlags { index_deleted: true, ..flags() }),
        ("d.rs".to_string(), StatusFlags { conflicted: true, index_modified: true, ..flags() }),
    ];
    let changes = UncommittedChanges::from_statuses(entries, vec!["d.rs".to_string(), "e.rs".to_string()]);

    assert_eq!(changes.staged.modified, vec!["a.rs".to_string()]);
    assert_eq!(changes.unstaged.modified, vec!["a.rs".to_string()]);
    assert_eq!(changes.unstaged.added, vec!["b.rs".to_string()]);
    assert_eq!(changes.staged.deleted, vec!["c.rs".to_string()]);
    assert_eq!(changes.conflicts, vec!["d.rs".to_string(), "e.rs".to_string()]);
    assert_eq!(changes.modified_count, 1);
    assert_eq!(changes.added_count, 1);
    assert_eq!(changes.deleted_count, 1);
    assert_eq!(changes.conflict_count, 2);
    assert!(changes.has_conflicts && changes.is_staged && changes.is_unstaged && !changes.is_clean);
}

#[test]
fn a_clean_tree_reports_clean() {
    let changes = UncommittedChanges::from_statuses(Vec::new(), Vec::new());
    assert!(changes.is_clean && !changes.is_staged && !changes.is_unstaged && !changes.has_conflicts);
    assert_eq!(changes.conflict_count, 0);
}

#[test]
fn counts_take_each_path_once() {
    let first = vec!["a".to_string(), "b".to_string(), "a".to_string()];
    let second = vec!["b".to_string(), "c".to_string()];
    assert_eq!(deduplicate(&first, &second), 3);
    assert_eq!(deduplicate(&Vec::new(), &Vec::new()), 0);

    let mut paths = vec!["x".to_string()];
    push_unique(&mut paths, "x".to_string());
    push_unique(&mut paths, "y".to_string());
    assert_eq!(paths, vec!["x".to_string(), "y".to_string()]);
}
