use guitar::oids::Oid;
use guitar::sequencer::{
    has_conflict_markers, is_cherrypick_state, is_rebase_state, is_revert_state, pick_message, rebase_decision, same_refs, QuietFetchOutcome,
    RebaseAction, RebaseOutcome, RebaseStep, RepositoryState, CHERRYPICK_FALLBACK_MESSAGE, REVERT_FALLBACK_MESSAGE,
};

fn oid(byte: u8) -> Oid {
    Oid::from_bytes([byte; 20])
}

#[test]
fn a_quiet_fetch_reports_a_change_only_when_refs_moved() {
    let before = vec![("refs/remotes/origin/main".to_string(), oid(1))];
    let same = before.clone();
    let moved = vec![("refs/remotes/origin/main".to_string(), oid(2))];
    assert_eq!(QuietFetchOutcome::settle(&before, Some(&same)), QuietFetchOutcome { changed: false, ok: true });
    assert_eq!(QuietFetchOutcome::settle(&before, Some(&moved)), QuietFetchOutcome { changed: true, ok: true });
    assert_eq!(QuietFetchOutcome::settle(&before, None), QuietFetchOutcome { changed: false, ok: false });
    assert!(!same_refs(&before, &Vec::new()));
}

#[test]
fn rebase_steps_commit_stop_or_finish() {
    assert_eq!(rebase_decision(2, RebaseStep::Applied { has_conflicts: false }), RebaseAction::CommitAndContinue { applied: 3 });
    assert_eq!(rebase_decision(2, RebaseStep::Applied { has_conflicts: true }), RebaseAction::Stop(RebaseOutcome::Conflict));
    assert_eq!(rebase_decision(2, RebaseStep::Failed), RebaseAction::Fail);
    assert_eq!(rebase_decision(2, RebaseStep::Done), RebaseAction::Finish(RebaseOutcome::Completed { applied: 2 }));
}

#[test]
fn repository_states_are_told_apart() {
    assert!(is_rebase_state(RepositoryState::RebaseMerge));
    assert!(is_rebase_state(RepositoryState::ApplyMailboxOrRebase));
    assert!(!is_rebase_state(RepositoryState::ApplyMailbox));
    assert!(is_cherrypick_state(RepositoryState::CherryPickSequence));
    assert!(!is_cherrypick_state(RepositoryState::Revert));
    assert!(is_revert_state(RepositoryState::Revert));
    assert!(!is_revert_state(RepositoryState::Clean));
}

#[test]
fn the_kept_message_wins_unless_it_is_blank() {
    assert_eq!(pick_message(Some("mine"), Some("merge"), CHERRYPICK_FALLBACK_MESSAGE), "mine");
    assert_eq!(pick_message(Some("  \n"), Some("merge"), CHERRYPICK_FALLBACK_MESSAGE), "merge");
    assert_eq!(pick_message(None, Some(""), CHERRYPICK_FALLBACK_MESSAGE), "cherrypicked: Cherry-pick commit");
    assert_eq!(pick_message(None, None, REVERT_FALLBACK_MESSAGE), "reverted: Revert commit");
}

#[test]
fn conflict_markers_are_found_on_any_line() {
    assert!(has_conflict_markers("a\n  <<<<<<< HEAD\nb\n"));
    assert!(has_conflict_markers("=======\n"));
    assert!(has_conflict_markers("x\r\n\t>>>>>>> branch"));
    assert!(!has_conflict_markers("a <<<<<<< b\n======\n"));
    assert!(!has_conflict_markers(""));
}

#[test]
fn markers_are_found_on_lines_split_at_either_line_ending() {
    assert!(has_conflict_markers("first\r\n=======\r\nlast"));
    assert!(has_conflict_markers("\n\n>>>>>>> theirs\n"));
    assert!(!has_conflict_markers("=====\r\n======\n"));
    assert!(has_conflict_markers("body\r<<<<<<< still one line\n") == false);
}
