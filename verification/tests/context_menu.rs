use guitar::app_state::{
    App, AppLayout, ContextMenuAction, ContextMenuState, Focus, KeyCode, KeyEvent, Rect, Viewport, CONTEXT_MENU_HEIGHT, CONTEXT_MENU_WIDTH,
};

fn key(code: KeyCode) -> KeyEvent {
    KeyEvent { code, has_modifiers: false }
}

fn screen() -> Rect {
    Rect::new(0, 0, 80, 24)
}

fn app_on_screen() -> App {
    let empty = Rect::new(0, 0, 0, 0);
    App {
        layout: AppLayout { app: screen(), title_left: empty, title_right: empty, statusbar_left: empty, statusbar_right: empty },
        ..Default::default()
    }
}

#[test]
fn context_menu_renders_labels_rounded_corners_and_selected_row() {
    let app = App { context_menu: Some(ContextMenuState { column: 4, row: 3, selected: 1 }), ..Default::default() };

    let (area, rows) = app.context_menu_rows(screen()).expect("the menu is drawn");
    assert_eq!(area, Rect::new(4, 3, CONTEXT_MENU_WIDTH, CONTEXT_MENU_HEIGHT));
    let texts: Vec<&str> = rows.iter().map(|row| row.text.as_str()).collect();
    assert_eq!(texts, vec!["  Settings      ", "> Splash screen ", "  Exit          "]);
    assert!(!rows[0].enabled && !rows[0].selected);
    assert!(rows[1].selected);
}

#[test]
fn context_menu_clamps_to_lower_right_terminal_edge() {
    let app = App { context_menu: Some(ContextMenuState { column: 79, row: 23, selected: 2 }), ..Default::default() };

    let (area, _) = app.context_menu_rows(screen()).expect("the menu is drawn");
    assert_eq!(area.x, 80 - CONTEXT_MENU_WIDTH);
    assert_eq!(area.y, 24 - CONTEXT_MENU_HEIGHT);
    assert_eq!(area.width, CONTEXT_MENU_WIDTH);
    assert_eq!(area.height, CONTEXT_MENU_HEIGHT);
}

#[test]
fn the_menu_opens_on_the_first_entry_that_can_be_chosen() {
    let mut app = app_on_screen();
    app.open_context_menu(10, 5);
    assert_eq!(app.context_menu, Some(ContextMenuState { column: 10, row: 5, selected: 1 }));

    let mut with_repo = App { has_repository: true, ..app_on_screen() };
    with_repo.open_context_menu(10, 5);
    assert_eq!(with_repo.context_menu.unwrap().selected, 0);

    let mut modal = App { focus: Focus::ModalError, ..app_on_screen() };
    modal.open_context_menu(10, 5);
    assert_eq!(modal.context_menu, None);
}

#[test]
fn keys_move_past_entries_that_cannot_be_chosen() {
    let mut app = app_on_screen();
    app.open_context_menu(10, 5);
    assert!(app.handle_context_menu_key_event(key(KeyCode::Down)));
    assert_eq!(app.context_menu.unwrap().selected, 2);
    assert!(app.handle_context_menu_key_event(key(KeyCode::Down)));
    assert_eq!(app.context_menu.unwrap().selected, 1);
    assert!(app.handle_context_menu_key_event(key(KeyCode::Char('k'))));
    assert_eq!(app.context_menu.unwrap().selected, 2);
    assert!(app.handle_context_menu_key_event(key(KeyCode::Esc)));
    assert_eq!(app.context_menu, None);
    assert!(!app.handle_context_menu_key_event(key(KeyCode::Esc)));
}

#[test]
fn enter_runs_the_highlighted_entry() {
    let mut app = app_on_screen();
    app.recent = vec!["/a".to_string(), "/b".to_string()];
    app.path = Some("/b".to_string());
    app.open_context_menu(10, 5);
    assert!(app.handle_context_menu_key_event(key(KeyCode::Enter)));
    assert_eq!(app.viewport, Viewport::Splash);
    assert_eq!(app.splash_selected, 1);
    assert_eq!(app.context_menu, None);

    let mut staying = app_on_screen();
    staying.open_context_menu(10, 5);
    staying.handle_context_menu_key_event(key(KeyCode::Down));
    staying.handle_context_menu_key_event(key(KeyCode::Down));
    staying.handle_context_menu_key_event(key(KeyCode::Enter));
    assert!(!staying.is_exiting);
    assert_eq!(staying.viewport, Viewport::Splash);

    let mut exiting = app_on_screen();
    exiting.open_context_menu(10, 5);
    exiting.handle_context_menu_key_event(key(KeyCode::Up));
    exiting.handle_context_menu_key_event(key(KeyCode::Enter));
    assert!(exiting.is_exiting);
}

#[test]
fn clicks_choose_an_entry_or_close_the_menu() {
    let mut app = App { has_repository: true, viewport: Viewport::Graph, ..app_on_screen() };
    app.open_context_menu(10, 5);
    assert!(app.handle_context_menu_left_click(12, 6));
    assert_eq!(app.viewport, Viewport::Settings);
    assert_eq!(app.context_menu, None);

    let mut outside = app_on_screen();
    outside.open_context_menu(10, 5);
    assert!(outside.handle_context_menu_left_click(60, 20));
    assert_eq!(outside.context_menu, None);

    let mut border = app_on_screen();
    border.open_context_menu(10, 5);
    assert!(border.handle_context_menu_left_click(10, 5));
    assert!(border.context_menu.is_some());
    assert!(!app_on_screen().handle_context_menu_left_click(1, 1));
}

#[test]
fn labels_read_top_to_bottom() {
    assert_eq!(ContextMenuAction::at(0).label(), "Settings");
    assert_eq!(ContextMenuAction::at(1).label(), "Splash screen");
    assert_eq!(ContextMenuAction::at(2).label(), "Exit");
}
