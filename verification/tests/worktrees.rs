use guitar::app_state::{App, Focus, Viewport, WorktreeModalAction, WorktreeRequest};
use guitar::oids::Oid;
use guitar::worktrees::{WorktreeEntry, WorktreeKind, Worktrees};

fn test_oid(byte: u8) -> Oid {
    Oid::from_bytes([byte; 20])
}

fn named_entry(name: &str, current: bool, locked: Option<&str>) -> WorktreeEntry {
    WorktreeEntry {
        name: name.into(),
        path: format!("/tmp/{name}"),
        branch: Some(name.into()),
        head: None,
        alias: None,
        kind: WorktreeKind::Linked,
        is_current: current,
        is_valid: true,
        is_prunable: false,
        locked_reason: locked.map(str::to_string),
        is_dirty: false,
    }
}

fn linked_entry(current: bool, locked: Option<&str>) -> WorktreeEntry {
    named_entry("feature", current, locked)
}

fn worktree_entry(name: &str, head: Oid) -> WorktreeEntry {
    WorktreeEntry { head: Some(head), ..named_entry(name, false, None) }
}

fn app_with_graph_worktrees(entries: Vec<WorktreeEntry>) -> App {
    let mut app = App { viewport: Viewport::Graph, focus: Focus::Viewport, graph_selected: 1, ..Default::default() };

    let head = entries.first().and_then(|entry| entry.head).unwrap_or_else(|| test_oid(1));
    let alias = app.oids.get_alias_by_oid(head);
    let uncommitted = app.oids.sorted_aliases[0];
    app.oids.sorted_aliases = vec![uncommitted, alias];
    app.worktrees = Worktrees::from_entries(entries);
    app.worktrees.refresh_aliases(&app.oids);
    app
}

#[test]
fn guards_current_main_and_locked_removal() {
    let mut main = linked_entry(false, None);
    main.kind = WorktreeKind::Main;
    assert!(!main.can_remove());
    assert!(!main.can_lock());

    let current = linked_entry(true, None);
    assert!(!current.can_remove());
    assert!(current.can_lock());

    let locked = linked_entry(false, Some("keep"));
    assert!(!locked.can_remove());
    assert!(locked.can_lock());

    let removable = linked_entry(false, None);
    assert!(removable.can_remove());
}

#[test]
fn current_name_returns_the_current_worktree() {
    let worktrees = Worktrees::from_entries(vec![named_entry("main", false, None), named_entry("feature", true, None)]);
    assert_eq!(worktrees.current_name(), Some("feature"));

    let worktrees = Worktrees::from_entries(vec![named_entry("main", false, None)]);
    assert_eq!(worktrees.current_name(), None);
}

#[test]
fn graph_worktree_target_resolution_handles_zero_one_and_multiple_rows() {
    let empty = app_with_graph_worktrees(Vec::new());
    assert!(empty.graph_worktree_indices().is_empty());

    let head = test_oid(2);
    let one = app_with_graph_worktrees(vec![worktree_entry("feature", head)]);
    assert_eq!(one.graph_worktree_indices(), vec![0]);

    let multiple = app_with_graph_worktrees(vec![worktree_entry("feature", head), worktree_entry("review", head)]);
    assert_eq!(multiple.graph_worktree_indices(), vec![0, 1]);
}

#[test]
fn graph_enter_opens_chooser_for_multiple_valid_worktrees() {
    let head = test_oid(3);
    let mut app = app_with_graph_worktrees(vec![worktree_entry("feature", head), worktree_entry("review", head)]);

    app.open_graph_worktree();

    assert_eq!(app.focus, Focus::ModalWorktreeChooser);
    assert_eq!(app.modal_worktree_action, WorktreeModalAction::Open);
    assert_eq!(app.modal_worktree_candidates, vec![0, 1]);
    assert_eq!(app.modal_worktree_return_focus, Focus::Viewport);
}

#[test]
fn graph_remove_uses_existing_worktree_removal_guards() {
    let head = test_oid(4);
    let mut current = worktree_entry("current", head);
    current.is_current = true;
    let mut main = worktree_entry("main", head);
    main.kind = WorktreeKind::Main;
    let mut locked = worktree_entry("locked", head);
    locked.locked_reason = Some("keep".into());
    let mut app = app_with_graph_worktrees(vec![current, main, locked]);

    app.on_remove_worktree();

    assert_eq!(app.focus, Focus::ModalError);
    assert!(app.modal_error_message.contains("cannot remove current, main, or locked worktrees"));
}

#[test]
fn graph_remove_opens_confirmation_or_chooser_for_removable_worktrees() {
    let head = test_oid(5);
    let mut one = app_with_graph_worktrees(vec![worktree_entry("feature", head)]);
    one.on_remove_worktree();
    assert_eq!(one.focus, Focus::ModalRemoveWorktree);
    assert_eq!(one.modal_worktree_target, Some(0));
    assert_eq!(one.modal_worktree_return_focus, Focus::Viewport);

    let mut multiple = app_with_graph_worktrees(vec![worktree_entry("feature", head), worktree_entry("review", head)]);
    multiple.on_remove_worktree();
    assert_eq!(multiple.focus, Focus::ModalWorktreeChooser);
    assert_eq!(multiple.modal_worktree_action, WorktreeModalAction::Remove);
    assert_eq!(multiple.modal_worktree_candidates, vec![0, 1]);
}

#[test]
fn worktree_chooser_confirmation_routes_open_and_remove_actions() {
    let head = test_oid(6);
    let mut invalid = worktree_entry("invalid", head);
    invalid.is_valid = false;
    let mut open = app_with_graph_worktrees(vec![invalid]);
    open.open_worktree_chooser(WorktreeModalAction::Open, vec![0], Focus::Viewport);
    open.confirm_worktree_chooser();
    assert_eq!(open.focus, Focus::ModalError);
    assert!(open.modal_error_message.contains("path is invalid"));

    let mut remove = app_with_graph_worktrees(vec![worktree_entry("feature", head)]);
    remove.open_worktree_chooser(WorktreeModalAction::Remove, vec![0], Focus::Viewport);
    remove.confirm_worktree_chooser();
    assert_eq!(remove.focus, Focus::ModalRemoveWorktree);
    assert_eq!(remove.modal_worktree_target, Some(0));
}

#[test]
fn opening_a_valid_worktree_owes_a_reload_of_its_path() {
    let head = test_oid(7);
    let mut app = app_with_graph_worktrees(vec![worktree_entry("feature", head)]);
    app.open_graph_worktree();
    assert_eq!(app.pending_reload, Some(Some("/tmp/feature".to_string())));
    assert_eq!(app.viewport, Viewport::Graph);
    assert_eq!(app.focus, Focus::Viewport);
    assert_eq!(app.graph_selected, 0);
}

#[test]
fn the_uncommitted_row_and_other_viewports_have_no_worktrees() {
    let head = test_oid(8);
    let mut app = app_with_graph_worktrees(vec![worktree_entry("feature", head)]);
    app.graph_selected = 0;
    assert!(app.graph_worktree_indices().is_empty());
    app.graph_selected = 1;
    app.viewport = Viewport::Viewer;
    assert!(app.graph_worktree_indices().is_empty());
}

#[test]
fn a_confirmed_removal_is_handed_out_and_its_result_taken_in() {
    let head = test_oid(9);
    let mut app = app_with_graph_worktrees(vec![worktree_entry("feature", head)]);
    app.has_repository = true;
    app.on_remove_worktree();
    let request = app.confirm_remove_worktree();
    assert_eq!(request, Some(WorktreeRequest::Remove { name: "feature".to_string() }));
    assert_eq!(app.focus, Focus::ModalRemoveWorktree);

    app.finish_remove_worktree(Err("locked by another process".to_string()));
    assert_eq!(app.focus, Focus::ModalError);
    assert_eq!(app.modal_error_message, "Remove worktree failed: locked by another process");

    let mut done = app_with_graph_worktrees(vec![worktree_entry("feature", head)]);
    done.has_repository = true;
    done.on_remove_worktree();
    done.finish_remove_worktree(Ok(()));
    assert_eq!(done.focus, Focus::Viewport);
    assert_eq!(done.modal_worktree_target, None);
    assert_eq!(done.pending_reload, Some(None));
}

#[test]
fn without_a_repository_nothing_is_removed() {
    let head = test_oid(10);
    let mut app = app_with_graph_worktrees(vec![worktree_entry("feature", head)]);
    app.on_remove_worktree();
    assert_eq!(app.confirm_remove_worktree(), None);
    assert_eq!(app.focus, Focus::ModalRemoveWorktree);
}

#[test]
fn toggling_the_lock_asks_for_a_reason_or_unlocks() {
    let mut app = App { focus: Focus::Worktrees, has_repository: true, ..Default::default() };
    app.worktrees = Worktrees::from_entries(vec![named_entry("feature", false, None), named_entry("kept", false, Some("why"))]);

    assert_eq!(app.on_toggle_worktree_lock(), None);
    assert_eq!(app.focus, Focus::ModalLockWorktree);

    app.focus = Focus::Worktrees;
    app.worktrees_selected = 1;
    assert_eq!(app.on_toggle_worktree_lock(), Some(WorktreeRequest::Unlock { name: "kept".to_string() }));
    assert_eq!(app.focus, Focus::Worktrees);

    app.finish_unlock_worktree(Err("busy".to_string()));
    assert_eq!(app.modal_error_message, "Unlock worktree failed: busy");

    app.focus = Focus::Worktrees;
    app.finish_unlock_worktree(Ok(()));
    assert_eq!(app.focus, Focus::Worktrees);
    assert_eq!(app.pending_reload, Some(None));
}

#[test]
fn only_valid_linked_worktrees_can_be_locked() {
    let mut main = named_entry("main", false, None);
    main.kind = WorktreeKind::Main;
    let mut app = App { focus: Focus::Worktrees, has_repository: true, ..Default::default() };
    app.worktrees = Worktrees::from_entries(vec![main]);
    assert_eq!(app.on_toggle_worktree_lock(), None);
    assert_eq!(app.focus, Focus::ModalError);
    assert_eq!(app.modal_error_message, "Lock worktree failed: only valid linked worktrees can be locked");
}

#[test]
fn creating_a_worktree_starts_from_a_graph_row() {
    let mut app = App { viewport: Viewport::Graph, focus: Focus::Viewport, graph_selected: 3, ..Default::default() };
    app.modal_input = "left over".to_string();
    app.on_create_worktree();
    assert_eq!(app.focus, Focus::ModalCreateWorktreeName);
    assert!(app.modal_input.is_empty());

    let mut uncommitted = App { viewport: Viewport::Graph, focus: Focus::Viewport, graph_selected: 0, ..Default::default() };
    uncommitted.on_create_worktree();
    assert_eq!(uncommitted.focus, Focus::Viewport);
}

#[test]
fn removing_from_the_list_checks_the_selected_worktree() {
    let mut app = App { focus: Focus::Worktrees, ..Default::default() };
    app.worktrees = Worktrees::from_entries(vec![named_entry("here", true, None), named_entry("there", false, None)]);
    app.on_remove_worktree();
    assert_eq!(app.focus, Focus::ModalError);

    app.focus = Focus::Worktrees;
    app.worktrees_selected = 1;
    app.on_remove_worktree();
    assert_eq!(app.focus, Focus::ModalRemoveWorktree);
    assert_eq!(app.modal_worktree_target, Some(1));
    assert_eq!(app.modal_worktree_return_focus, Focus::Worktrees);

    app.close_worktree_modal();
    assert_eq!(app.focus, Focus::Worktrees);
    assert_eq!(app.modal_worktree_target, None);
}

#[test]
fn a_new_worktree_goes_beside_the_repository() {
    let app = App { path: Some("/work/guitar".to_string()), ..Default::default() };
    assert_eq!(app.default_worktree_path("fix"), "/work/guitar-fix");
}
