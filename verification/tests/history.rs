use guitar::file_history::{
    commit_file_row, root_commit_rows, CommitRow,
    delta_path, file_status, file_status_from_change, looks_like_folder, normalize_path, status_among_changes, status_among_deltas, strip_leading_dot_slashes, typechange, Delta,
    DeltaKind, EntryKind, TreeChange,
};
use guitar::status::{FileChange, FileStatus};

fn blob() -> EntryKind {
    EntryKind { is_tree: false, is_link: false, is_commit: false }
}

#[test]
fn paths_are_normalised_the_way_git_spells_them() {
    assert_eq!(normalize_path("  ././src\\main.rs "), "src/main.rs");
    assert_eq!(normalize_path("   "), "");
    assert_eq!(strip_leading_dot_slashes("./a/./b"), "a/./b");
}

#[test]
fn delta_kinds_map_to_statuses() {
    assert_eq!(file_status(DeltaKind::Added), FileStatus::Added);
    assert_eq!(file_status(DeltaKind::Renamed), FileStatus::Renamed);
    assert_eq!(file_status(DeltaKind::Typechange), FileStatus::Other);
}

#[test]
fn a_change_of_kind_reads_as_a_deletion() {
    let link = EntryKind { is_link: true, ..blob() };
    assert!(typechange(&blob(), &link));
    let change = TreeChange::Modification { location: b"a.txt".to_vec(), previous_entry_mode: blob(), entry_mode: link };
    assert_eq!(file_status_from_change(&change, "a.txt"), Some(FileStatus::Deleted));
    let plain = TreeChange::Modification { location: b"a.txt".to_vec(), previous_entry_mode: blob(), entry_mode: blob() };
    assert_eq!(file_status_from_change(&plain, "a.txt"), Some(FileStatus::Modified));
    assert_eq!(file_status_from_change(&plain, "b.txt"), None);
}

#[test]
fn rewrites_count_as_renames_from_either_end_and_copies_as_additions() {
    let rename = TreeChange::Rewrite { source_location: b"old".to_vec(), location: b"new".to_vec(), copy: false };
    assert_eq!(file_status_from_change(&rename, "new"), Some(FileStatus::Renamed));
    assert_eq!(file_status_from_change(&rename, "old"), Some(FileStatus::Renamed));
    let copy = TreeChange::Rewrite { source_location: b"old".to_vec(), location: b"new".to_vec(), copy: true };
    assert_eq!(file_status_from_change(&copy, "new"), Some(FileStatus::Added));
    assert_eq!(file_status_from_change(&copy, "old"), None);
}

#[test]
fn the_first_change_that_names_the_path_decides() {
    let changes = vec![
        TreeChange::Addition { location: b"x".to_vec() },
        TreeChange::Deletion { location: b"y".to_vec() },
        TreeChange::Addition { location: b"y".to_vec() },
    ];
    assert_eq!(status_among_changes(&changes, "y"), Some(FileStatus::Deleted));
    assert_eq!(status_among_changes(&changes, "z"), None);

    let deltas = vec![
        Delta { old_path: Some("a".to_string()), new_path: Some("b".to_string()), kind: DeltaKind::Renamed },
        Delta { old_path: None, new_path: Some("c/d".to_string()), kind: DeltaKind::Added },
    ];
    assert_eq!(status_among_deltas(&deltas, "a"), Some(FileStatus::Renamed));
    assert_eq!(status_among_deltas(&deltas, "c//d"), Some(FileStatus::Added));
    assert_eq!(status_among_deltas(&deltas, "e"), None);
}

#[test]
fn a_delta_is_listed_where_it_lands() {
    let moved = Delta { old_path: Some("a.txt".to_string()), new_path: Some("b.txt".to_string()), kind: DeltaKind::Renamed };
    assert_eq!(delta_path(&moved), Some("b.txt".to_string()));
    let gone = Delta { old_path: Some("a.txt".to_string()), new_path: None, kind: DeltaKind::Deleted };
    assert_eq!(delta_path(&gone), Some("a.txt".to_string()));
    assert!(looks_like_folder("src/vendor"));
    assert!(!looks_like_folder("src/main.rs"));
}

#[test]
fn directory_like_names_without_an_extension_stay_file_rows() {
    assert_eq!(
        commit_file_row("Makefile", false, DeltaKind::Modified),
        CommitRow::File(FileChange { filename: "Makefile".to_string(), status: FileStatus::Modified })
    );
    assert_eq!(commit_file_row("src", true, DeltaKind::Added), CommitRow::Expand);
    assert_eq!(
        commit_file_row("docs.d", true, DeltaKind::Renamed),
        CommitRow::File(FileChange { filename: "docs.d".to_string(), status: FileStatus::Renamed })
    );
    assert_eq!(
        commit_file_row("bin", false, DeltaKind::Typechange),
        CommitRow::File(FileChange { filename: "bin".to_string(), status: FileStatus::Other })
    );
}

#[test]
fn a_root_commit_lists_every_file_as_added() {
    let rows = root_commit_rows(vec!["README.md".to_string(), "src/main.rs".to_string()]);
    assert_eq!(
        rows,
        vec![
            FileChange { filename: "README.md".to_string(), status: FileStatus::Added },
            FileChange { filename: "src/main.rs".to_string(), status: FileStatus::Added },
        ]
    );
    assert!(root_commit_rows(Vec::new()).is_empty());
}
