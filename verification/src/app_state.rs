//! The input decisions of the terminal app that involve no repository I/O: the right-click
//! context menu and the worktree modals. What needs the repository — reloading, removing or
//! unlocking a worktree — is handed out as a request and answered back.
use vstd::prelude::*;
use crate::oids::Oids;
use crate::worktrees::{WorktreeEntry, Worktrees, entry_can_lock, entry_can_remove, indices_upto, indices_with_alias};

verus! {

/// A rectangle of terminal cells.
#[derive(Clone, Copy, Debug, PartialEq, Eq, Structural)]
pub struct Rect {
    pub x: u16,
    pub y: u16,
    pub width: u16,
    pub height: u16,
}

impl Rect {
    pub fn new(x: u16, y: u16, width: u16, height: u16) -> (r: Rect)
        ensures
            r == (Rect { x, y, width, height }),
    {
        Rect { x, y, width, height }
    }
}

pub open spec fn sat_add(a: u16, b: u16) -> u16 {
    if a + b > u16::MAX { u16::MAX } else { (a + b) as u16 }
}

pub open spec fn sat_sub(a: u16, b: u16) -> u16 {
    if a < b { 0 } else { (a - b) as u16 }
}

pub open spec fn min16(a: u16, b: u16) -> u16 {
    if a < b { a } else { b }
}

pub open spec fn max16(a: u16, b: u16) -> u16 {
    if a < b { b } else { a }
}

/// Whether the cell `(column, row)` lies in a non-empty `rect`.
pub open spec fn rect_holds(rect: Rect, column: u16, row: u16) -> bool {
    rect.width > 0 && rect.height > 0 && column >= rect.x && column < sat_add(rect.x, rect.width) && row >= rect.y
        && row < sat_add(rect.y, rect.height)
}

fn rect_contains(rect: Rect, column: u16, row: u16) -> (b: bool)
    ensures
        b == rect_holds(rect, column, row),
{
    rect.width > 0 && rect.height > 0 && column >= rect.x && column < rect.x.saturating_add(rect.width) && row >= rect.y
        && row < rect.y.saturating_add(rect.height)
}

/// The smallest rectangle around both; an empty one counts for nothing.
pub open spec fn rect_union(first: Rect, second: Rect) -> Rect {
    if first.width == 0 || first.height == 0 {
        second
    } else if second.width == 0 || second.height == 0 {
        first
    } else {
        let left = min16(first.x, second.x);
        let top = min16(first.y, second.y);
        let right = max16(sat_add(first.x, first.width), sat_add(second.x, second.width));
        let bottom = max16(sat_add(first.y, first.height), sat_add(second.y, second.height));
        Rect { x: left, y: top, width: sat_sub(right, left), height: sat_sub(bottom, top) }
    }
}

fn union_rect(first: Rect, second: Rect) -> (r: Rect)
    ensures
        r == rect_union(first, second),
{
    if first.width == 0 || first.height == 0 {
        return second;
    }
    if second.width == 0 || second.height == 0 {
        return first;
    }

    let left = if first.x < second.x { first.x } else { second.x };
    let top = if first.y < second.y { first.y } else { second.y };
    let first_right = first.x.saturating_add(first.width);
    let second_right = second.x.saturating_add(second.width);
    let right = if first_right < second_right { second_right } else { first_right };
    let first_bottom = first.y.saturating_add(first.height);
    let second_bottom = second.y.saturating_add(second.height);
    let bottom = if first_bottom < second_bottom { second_bottom } else { first_bottom };

    Rect::new(left, top, right.saturating_sub(left), bottom.saturating_sub(top))
}

#[derive(Clone, Copy, Debug, PartialEq, Eq, Structural)]
pub enum Viewport {
    Graph,
    Viewer,
    Settings,
    Splash,
}

#[derive(Clone, Copy, Debug, PartialEq, Eq, Structural)]
pub enum Focus {
    Viewport,
    Worktrees,
    Search,
    ModalWorktreeChooser,
    ModalRemoveWorktree,
    ModalCreateWorktreeName,
    ModalLockWorktree,
    ModalError,
}

pub open spec fn focus_is_modal(f: Focus) -> bool {
    match f {
        Focus::ModalWorktreeChooser | Focus::ModalRemoveWorktree | Focus::ModalCreateWorktreeName
        | Focus::ModalLockWorktree | Focus::ModalError => true,
        _ => false,
    }
}

#[derive(Clone, Copy, Debug, PartialEq, Eq, Structural)]
pub enum Direction {
    Up,
    Down,
}

#[derive(Clone, Copy, Debug, PartialEq, Eq, Structural)]
pub enum SettingsTab {
    Paths,
    General,
}

#[derive(Clone, Copy, Debug, PartialEq, Eq, Structural)]
pub enum WorktreeModalAction {
    Open,
    Remove,
}

/// What the context menu offers, top to bottom.
#[derive(Clone, Copy, Debug, PartialEq, Eq, Structural)]
pub enum ContextMenuAction {
    Settings,
    Splash,
    Exit,
}

/// How many entries the context menu has.
pub const CONTEXT_MENU_ACTIONS: usize = 3;

/// The widest label, in columns.
pub const CONTEXT_MENU_LABEL_WIDTH: u16 = 13;

/// A marker, a space, the label, a space, and a border on each side.
pub const CONTEXT_MENU_WIDTH: u16 = 18;

/// One row per entry and a border above and below.
pub const CONTEXT_MENU_HEIGHT: u16 = 5;

pub open spec fn action_at(index: int) -> ContextMenuAction {
    if index == 0 {
        ContextMenuAction::Settings
    } else if index == 1 {
        ContextMenuAction::Splash
    } else {
        ContextMenuAction::Exit
    }
}

impl ContextMenuAction {
    /// The entry at `index`, top to bottom.
    pub fn at(index: usize) -> (a: ContextMenuAction)
        requires
            index < CONTEXT_MENU_ACTIONS,
        ensures
            a == action_at(index as int),
    {
        if index == 0 {
            ContextMenuAction::Settings
        } else if index == 1 {
            ContextMenuAction::Splash
        } else {
            ContextMenuAction::Exit
        }
    }

    pub fn label(&self) -> (s: &'static str)
        ensures
            s@ == match *self {
                ContextMenuAction::Settings => "Settings"@,
                ContextMenuAction::Splash => "Splash screen"@,
                ContextMenuAction::Exit => "Exit"@,
            },
    {
        match self {
            ContextMenuAction::Settings => "Settings",
            ContextMenuAction::Splash => "Splash screen",
            ContextMenuAction::Exit => "Exit",
        }
    }
}

/// An open context menu: where it was asked for, and the highlighted entry.
#[derive(Clone, Copy, Debug, PartialEq, Eq, Structural)]
pub struct ContextMenuState {
    pub column: u16,
    pub row: u16,
    pub selected: usize,
}

/// Where the menu is drawn: at the click, pushed back inside `bounds` when it would overflow them.
pub open spec fn menu_area(menu: ContextMenuState, bounds: Rect) -> Rect {
    let width = min16(CONTEXT_MENU_WIDTH, bounds.width);
    let height = min16(CONTEXT_MENU_HEIGHT, bounds.height);
    let x = min16(max16(menu.column, bounds.x), sat_sub(sat_add(bounds.x, bounds.width), width));
    let y = min16(max16(menu.row, bounds.y), sat_sub(sat_add(bounds.y, bounds.height), height));
    Rect { x, y, width, height }
}

impl ContextMenuState {
    pub fn area(&self, bounds: Rect) -> (r: Rect)
        ensures
            r == menu_area(*self, bounds),
    {
        let width = if CONTEXT_MENU_WIDTH < bounds.width { CONTEXT_MENU_WIDTH } else { bounds.width };
        let height = if CONTEXT_MENU_HEIGHT < bounds.height { CONTEXT_MENU_HEIGHT } else { bounds.height };
        let right = bounds.x.saturating_add(bounds.width).saturating_sub(width);
        let bottom = bounds.y.saturating_add(bounds.height).saturating_sub(height);
        let x = if self.column < bounds.x { bounds.x } else { self.column };
        let x = if x < right { x } else { right };
        let y = if self.row < bounds.y { bounds.y } else { self.row };
        let y = if y < bottom { y } else { bottom };
        Rect { x, y, width, height }
    }
}

/// The regions of the screen the context menu may cover.
#[derive(Clone, Copy, Debug, PartialEq, Eq, Structural)]
pub struct AppLayout {
    pub app: Rect,
    pub title_left: Rect,
    pub title_right: Rect,
    pub statusbar_left: Rect,
    pub statusbar_right: Rect,
}

/// A key press as the context menu reads it.
#[derive(Clone, Copy, Debug, PartialEq, Eq, Structural)]
pub enum KeyCode {
    Esc,
    Enter,
    Up,
    Down,
    Char(char),
    Other,
}

#[derive(Clone, Copy, Debug, PartialEq, Eq, Structural)]
pub struct KeyEvent {
    pub code: KeyCode,
    /// Whether a modifier key was held.
    pub has_modifiers: bool,
}

/// Work on the repository that a decision asks for; its result comes back through the matching
/// `finish_` method.
#[derive(Debug, PartialEq, Eq)]
pub enum WorktreeRequest {
    Remove { name: String },
    Unlock { name: String },
}

/// The state the context menu and the worktree modals read and change.
pub struct App {
    pub viewport: Viewport,
    pub focus: Focus,
    /// Whether a repository is open.
    pub has_repository: bool,
    pub path: Option<String>,
    pub recent: Vec<String>,
    pub graph_selected: usize,
    pub viewer_selected: usize,
    pub splash_selected: usize,
    pub settings_tab: SettingsTab,
    pub settings_selected: usize,
    pub settings_scroll: usize,
    pub file_name: Option<String>,
    pub last_input_direction: Option<Direction>,
    pub mouse_drag: Option<(u16, u16)>,
    pub last_mouse_click: Option<(u16, u16)>,
    pub context_menu: Option<ContextMenuState>,
    pub layout: AppLayout,
    pub oids: Oids,
    pub worktrees: Worktrees,
    pub worktrees_selected: usize,
    pub modal_worktree_selected: i32,
    pub modal_worktree_candidates: Vec<usize>,
    pub modal_worktree_target: Option<usize>,
    pub modal_worktree_action: WorktreeModalAction,
    pub modal_worktree_return_focus: Focus,
    pub modal_input: String,
    pub modal_worktree_name: String,
    pub modal_error_message: String,
    /// A reload the app owes: `Some(None)` reloads the current repository, `Some(Some(path))`
    /// opens `path`.
    pub pending_reload: Option<Option<String>>,
    pub is_exiting: bool,
}

impl Default for App {
    /// A fresh app on the splash screen, with no repository open.
    fn default() -> (app: App)
        ensures
            app.worktrees.wf(),
            app.oids.wf(),
            app@.viewport == Viewport::Splash,
            app@.focus == Focus::Viewport,
            !app@.has_repository,
            app@.path is None,
            app@.recent == Seq::<Seq<char>>::empty(),
            app@.graph_selected == 0,
            app@.context_menu is None,
            app@.sorted_aliases == seq![crate::chunk::NONE],
            app@.worktree_entries == Seq::<WorktreeEntry>::empty(),
            app@.worktrees_selected == 0,
            app@ == modal_cleared(app@),
            app@.modal_error_message == Seq::<char>::empty(),
            app@.pending_reload is None,
            !app@.is_exiting,
    {
        let empty = Rect { x: 0, y: 0, width: 0, height: 0 };
        App {
            viewport: Viewport::Splash,
            focus: Focus::Viewport,
            has_repository: false,
            path: None,
            recent: Vec::new(),
            graph_selected: 0,
            viewer_selected: 0,
            splash_selected: 0,
            settings_tab: SettingsTab::Paths,
            settings_selected: 0,
            settings_scroll: 0,
            file_name: None,
            last_input_direction: None,
            mouse_drag: None,
            last_mouse_click: None,
            context_menu: None,
            layout: AppLayout { app: empty, title_left: empty, title_right: empty, statusbar_left: empty, statusbar_right: empty },
            oids: Oids::default(),
            worktrees: Worktrees::default(),
            worktrees_selected: 0,
            modal_worktree_selected: 0,
            modal_worktree_candidates: Vec::new(),
            modal_worktree_target: None,
            modal_worktree_action: WorktreeModalAction::Open,
            modal_worktree_return_focus: Focus::Viewport,
            modal_input: String::new(),
            modal_worktree_name: String::new(),
            modal_error_message: String::new(),
            pending_reload: None,
            is_exiting: false,
        }
    }
}

/// The app's state with its strings and lists read as sequences.
pub struct AppView {
    pub viewport: Viewport,
    pub focus: Focus,
    pub has_repository: bool,
    pub path: Option<Seq<char>>,
    pub recent: Seq<Seq<char>>,
    pub graph_selected: usize,
    pub viewer_selected: usize,
    pub splash_selected: usize,
    pub settings_tab: SettingsTab,
    pub settings_selected: usize,
    pub settings_scroll: usize,
    pub file_name: Option<Seq<char>>,
    pub last_input_direction: Option<Direction>,
    pub mouse_drag: Option<(u16, u16)>,
    pub last_mouse_click: Option<(u16, u16)>,
    pub context_menu: Option<ContextMenuState>,
    pub layout: AppLayout,
    pub sorted_aliases: Seq<u32>,
    pub worktree_entries: Seq<WorktreeEntry>,
    pub worktrees_selected: usize,
    pub modal_worktree_selected: i32,
    pub modal_worktree_candidates: Seq<usize>,
    pub modal_worktree_target: Option<usize>,
    pub modal_worktree_action: WorktreeModalAction,
    pub modal_worktree_return_focus: Focus,
    pub modal_input: Seq<char>,
    pub modal_worktree_name: Seq<char>,
    pub modal_error_message: Seq<char>,
    pub pending_reload: Option<Option<Seq<char>>>,
    pub is_exiting: bool,
}

pub open spec fn opt_view(s: Option<String>) -> Option<Seq<char>> {
    match s {
        Some(v) => Some(v@),
        None => None,
    }
}

impl View for App {
    type V = AppView;

    open spec fn view(&self) -> AppView {
        AppView {
            viewport: self.viewport,
            focus: self.focus,
            has_repository: self.has_repository,
            path: opt_view(self.path),
            recent: self.recent@.map_values(|r: String| r@),
            graph_selected: self.graph_selected,
            viewer_selected: self.viewer_selected,
            splash_selected: self.splash_selected,
            settings_tab: self.settings_tab,
            settings_selected: self.settings_selected,
            settings_scroll: self.settings_scroll,
            file_name: opt_view(self.file_name),
            last_input_direction: self.last_input_direction,
            mouse_drag: self.mouse_drag,
            last_mouse_click: self.last_mouse_click,
            context_menu: self.context_menu,
            layout: self.layout,
            sorted_aliases: self.oids.sorted(),
            worktree_entries: self.worktrees.entry_list(),
            worktrees_selected: self.worktrees_selected,
            modal_worktree_selected: self.modal_worktree_selected,
            modal_worktree_candidates: self.modal_worktree_candidates@,
            modal_worktree_target: self.modal_worktree_target,
            modal_worktree_action: self.modal_worktree_action,
            modal_worktree_return_focus: self.modal_worktree_return_focus,
            modal_input: self.modal_input@,
            modal_worktree_name: self.modal_worktree_name@,
            modal_error_message: self.modal_error_message@,
            pending_reload: match self.pending_reload {
                Some(p) => Some(opt_view(p)),
                None => None,
            },
            is_exiting: self.is_exiting,
        }
    }
}

// ---------------------------------------------------------------------------------------------
// The context menu.
// ---------------------------------------------------------------------------------------------

pub open spec fn action_enabled(v: AppView, action: ContextMenuAction) -> bool {
    match action {
        ContextMenuAction::Settings => v.has_repository,
        _ => true,
    }
}

/// The first entry that can be chosen.
pub open spec fn first_enabled_index(v: AppView) -> usize {
    if v.has_repository { 0 } else { 1 }
}

pub open spec fn closed_menu(v: AppView) -> AppView {
    AppView { context_menu: None, ..v }
}

pub open spec fn opened_menu(v: AppView, column: u16, row: u16) -> AppView {
    if focus_is_modal(v.focus) {
        v
    } else {
        AppView {
            mouse_drag: None,
            last_mouse_click: None,
            context_menu: Some(ContextMenuState { column, row, selected: first_enabled_index(v) }),
            ..v
        }
    }
}

/// The entry `offset` steps away from `selected`, wrapping around.
pub open spec fn menu_step(selected: usize, direction: Direction, offset: int) -> int {
    match direction {
        Direction::Down => (selected + offset) % (CONTEXT_MENU_ACTIONS as int),
        Direction::Up => (selected + CONTEXT_MENU_ACTIONS - (offset % (CONTEXT_MENU_ACTIONS as int))) % (CONTEXT_MENU_ACTIONS as int),
    }
}

/// The nearest entry that can be chosen, one step and more away in `direction`.
pub open spec fn moved_selection(v: AppView, selected: usize, direction: Direction) -> Option<usize> {
    if action_enabled(v, action_at(menu_step(selected, direction, 1))) {
        Some(menu_step(selected, direction, 1) as usize)
    } else if action_enabled(v, action_at(menu_step(selected, direction, 2))) {
        Some(menu_step(selected, direction, 2) as usize)
    } else if action_enabled(v, action_at(menu_step(selected, direction, 3))) {
        Some(menu_step(selected, direction, 3) as usize)
    } else {
        None
    }
}

pub open spec fn menu_moved(v: AppView, direction: Direction) -> AppView {
    match v.context_menu {
        None => v,
        Some(menu) => match moved_selection(v, menu.selected, direction) {
            Some(i) => AppView { context_menu: Some(ContextMenuState { selected: i, ..menu }), ..v },
            None => v,
        },
    }
}

/// The first recent repository that is the open one, or the first.
pub open spec fn splash_index(v: AppView) -> usize {
    let found = match v.path {
        Some(p) => match v.recent.index_of_first(p) {
            Some(i) => i,
            None => 0,
        },
        None => 0,
    };
    let last = if v.recent.len() == 0 { 0 } else { v.recent.len() - 1 };
    (if found < last { found } else { last }) as usize
}

pub open spec fn opened_settings(v: AppView) -> AppView {
    let fresh = v.viewport != Viewport::Settings;
    AppView {
        settings_tab: if fresh { SettingsTab::Paths } else { v.settings_tab },
        settings_selected: if fresh { 0 } else { v.settings_selected },
        settings_scroll: if fresh { 0 } else { v.settings_scroll },
        viewport: Viewport::Settings,
        focus: Focus::Viewport,
        last_input_direction: None,
        ..v
    }
}

pub open spec fn opened_splash(v: AppView) -> AppView {
    AppView {
        viewer_selected: 0,
        file_name: None,
        viewport: Viewport::Splash,
        focus: Focus::Viewport,
        last_input_direction: None,
        splash_selected: splash_index(v),
        ..v
    }
}

pub open spec fn activated(v: AppView, action: ContextMenuAction) -> AppView {
    if !action_enabled(v, action) {
        v
    } else {
        let c = closed_menu(v);
        match action {
            ContextMenuAction::Settings => opened_settings(c),
            ContextMenuAction::Splash => opened_splash(c),
            ContextMenuAction::Exit => AppView { is_exiting: true, ..c },
        }
    }
}

pub open spec fn selected_activated(v: AppView) -> AppView {
    match v.context_menu {
        None => v,
        Some(menu) => if menu.selected >= CONTEXT_MENU_ACTIONS {
            closed_menu(v)
        } else if action_enabled(v, action_at(menu.selected as int)) {
            activated(v, action_at(menu.selected as int))
        } else {
            v
        },
    }
}

/// What a key does while the menu is open, and whether the menu took it.
pub open spec fn key_handled(v: AppView, key: KeyEvent) -> (AppView, bool) {
    if v.context_menu is None || focus_is_modal(v.focus) {
        (v, false)
    } else if key.has_modifiers {
        (v, true)
    } else {
        (
            match key.code {
                KeyCode::Esc => closed_menu(v),
                KeyCode::Enter => selected_activated(v),
                KeyCode::Up => menu_moved(v, Direction::Up),
                KeyCode::Char(c) => if c == 'k' {
                    menu_moved(v, Direction::Up)
                } else if c == 'j' {
                    menu_moved(v, Direction::Down)
                } else {
                    v
                },
                KeyCode::Down => menu_moved(v, Direction::Down),
                KeyCode::Other => v,
            },
            true,
        )
    }
}

/// Everything the menu may be drawn over.
pub open spec fn menu_bounds(v: AppView) -> Rect {
    rect_union(
        rect_union(rect_union(rect_union(v.layout.app, v.layout.title_left), v.layout.title_right), v.layout.statusbar_left),
        v.layout.statusbar_right,
    )
}

pub open spec fn area_for_bounds(v: AppView, bounds: Rect) -> Option<Rect> {
    match v.context_menu {
        None => None,
        Some(menu) => {
            let r = menu_area(menu, bounds);
            if r.width > 0 && r.height > 0 {
                Some(r)
            } else {
                None
            }
        },
    }
}

/// The entry under a cell inside the menu's border.
pub open spec fn item_at(v: AppView, column: u16, row: u16) -> Option<usize> {
    match area_for_bounds(v, menu_bounds(v)) {
        None => None,
        Some(area) => if !rect_holds(area, column, row) {
            None
        } else if column <= area.x || column >= sat_sub(sat_add(area.x, area.width), 1) {
            None
        } else if row <= area.y || row >= sat_sub(sat_add(area.y, area.height), 1) {
            None
        } else {
            let index = sat_sub(sat_sub(row, area.y), 1) as usize;
            if index < CONTEXT_MENU_ACTIONS {
                Some(index)
            } else {
                None
            }
        },
    }
}

/// What a left click does while the menu is open, and whether the menu took it.
pub open spec fn left_clicked(v: AppView, column: u16, row: u16) -> (AppView, bool) {
    match v.context_menu {
        None => (v, false),
        Some(menu) => {
            let v1 = AppView { mouse_drag: None, last_mouse_click: None, ..v };
            match item_at(v1, column, row) {
                Some(i) => if action_enabled(v1, action_at(i as int)) {
                    (activated(AppView { context_menu: Some(ContextMenuState { selected: i, ..menu }), ..v1 }, action_at(i as int)), true)
                } else {
                    (v1, true)
                },
                None => match area_for_bounds(v1, menu_bounds(v1)) {
                    Some(area) => if rect_holds(area, column, row) {
                        (v1, true)
                    } else {
                        (closed_menu(v1), true)
                    },
                    None => (closed_menu(v1), true),
                },
            }
        },
    }
}

/// The highlighted entry of the menu can always be chosen: the menu opens on such an entry, and
/// moving the highlight only ever lands on one.
pub proof fn lemma_highlight_can_be_chosen(v: AppView, column: u16, row: u16, direction: Direction)
    ensures
        !focus_is_modal(v.focus) ==> ({
            let opened = opened_menu(v, column, row);
            opened.context_menu matches Some(m) && m.selected < CONTEXT_MENU_ACTIONS && action_enabled(opened, action_at(m.selected as int))
        }),
        match v.context_menu {
            Some(m) => match moved_selection(v, m.selected, direction) {
                Some(i) => i < CONTEXT_MENU_ACTIONS && action_enabled(v, action_at(i as int)),
                None => true,
            },
            None => true,
        },
{
    if let Some(m) = v.context_menu {
        let s = m.selected;
        assert(0 <= menu_step(s, direction, 1) < 3);
        assert(0 <= menu_step(s, direction, 2) < 3);
        assert(0 <= menu_step(s, direction, 3) < 3);
    }
}

impl App {
    pub fn is_modal_focus(&self) -> (b: bool)
        ensures
            b == focus_is_modal(self.focus),
    {
        match self.focus {
            Focus::ModalWorktreeChooser | Focus::ModalRemoveWorktree | Focus::ModalCreateWorktreeName
            | Focus::ModalLockWorktree | Focus::ModalError => true,
            _ => false,
        }
    }

    pub fn exit(&mut self)
        ensures
            final(self).oids == old(self).oids,
            final(self).worktrees == old(self).worktrees,
            final(self)@ == (AppView { is_exiting: true, ..old(self)@ }),
    {
        self.is_exiting = true;
    }

    /// Opens the menu at the cell clicked, on its first entry that can be chosen; never over a modal.
    pub fn open_context_menu(&mut self, column: u16, row: u16)
        ensures
            final(self).oids == old(self).oids,
            final(self).worktrees == old(self).worktrees,
            final(self)@ == opened_menu(old(self)@, column, row),
    {
        if self.is_modal_focus() {
            return;
        }

        self.mouse_drag = None;
        self.last_mouse_click = None;
        self.context_menu = Some(ContextMenuState { column, row, selected: self.first_enabled_context_menu_index() });
    }

    pub fn close_context_menu(&mut self)
        ensures
            final(self).oids == old(self).oids,
            final(self).worktrees == old(self).worktrees,
            final(self)@ == closed_menu(old(self)@),
    {
        self.context_menu = None;
    }

    pub fn handle_context_menu_key_event(&mut self, key_event: KeyEvent) -> (handled: bool)
        requires
            old(self).context_menu matches Some(m) ==> m.selected <= usize::MAX - CONTEXT_MENU_ACTIONS,
        ensures
            final(self).oids == old(self).oids,
            final(self).worktrees == old(self).worktrees,
            (final(self)@, handled) == key_handled(old(self)@, key_event),
    {
        if self.context_menu.is_none() || self.is_modal_focus() {
            return false;
        }

        if key_event.has_modifiers {
            return true;
        }

        match key_event.code {
            KeyCode::Esc => self.close_context_menu(),
            KeyCode::Enter => self.activate_context_menu_selected(),
            KeyCode::Up => self.move_context_menu_selection(Direction::Up),
            KeyCode::Char(c) => {
                if c == 'k' {
                    self.move_context_menu_selection(Direction::Up);
                } else if c == 'j' {
                    self.move_context_menu_selection(Direction::Down);
                }
            },
            KeyCode::Down => self.move_context_menu_selection(Direction::Down),
            KeyCode::Other => {},
        }

        true
    }

    pub fn handle_context_menu_left_click(&mut self, column: u16, row: u16) -> (handled: bool)
        ensures
            final(self).oids == old(self).oids,
            final(self).worktrees == old(self).worktrees,
            (final(self)@, handled) == left_clicked(old(self)@, column, row),
    {
        if self.context_menu.is_none() {
            return false;
        }

        self.mouse_drag = None;
        self.last_mouse_click = None;

        if let Some(index) = self.context_menu_item_at(column, row) {
            let action = ContextMenuAction::at(index);
            if self.context_menu_action_enabled(action) {
                if let Some(menu) = self.context_menu {
                    self.context_menu = Some(ContextMenuState { selected: index, ..menu });
                }
                self.activate_context_menu_action(action);
            }
            return true;
        }

        if let Some(area) = self.context_menu_area_for_input() {
            if rect_contains(area, column, row) {
                return true;
            }
        }

        self.close_context_menu();
        true
    }

    pub fn context_menu_action_enabled(&self, action: ContextMenuAction) -> (b: bool)
        ensures
            b == action_enabled(self@, action),
    {
        match action {
            ContextMenuAction::Settings => self.has_repository,
            ContextMenuAction::Splash | ContextMenuAction::Exit => true,
        }
    }

    /// Where the open menu is drawn inside `bounds`, unless it would be empty.
    pub fn context_menu_area_for_bounds(&self, bounds: Rect) -> (r: Option<Rect>)
        ensures
            r == area_for_bounds(self@, bounds),
    {
        match self.context_menu {
            Some(menu) => {
                let area = menu.area(bounds);
                if area.width > 0 && area.height > 0 {
                    Some(area)
                } else {
                    None
                }
            },
            None => None,
        }
    }

    fn context_menu_item_at(&self, column: u16, row: u16) -> (r: Option<usize>)
        ensures
            r == item_at(self@, column, row),
    {
        let area = match self.context_menu_area_for_input() {
            Some(area) => area,
            None => return None,
        };
        if !rect_contains(area, column, row) {
            return None;
        }

        if column <= area.x || column >= area.x.saturating_add(area.width).saturating_sub(1) {
            return None;
        }

        if row <= area.y || row >= area.y.saturating_add(area.height).saturating_sub(1) {
            return None;
        }

        let index = row.saturating_sub(area.y).saturating_sub(1) as usize;
        if index < CONTEXT_MENU_ACTIONS {
            Some(index)
        } else {
            None
        }
    }

    fn context_menu_area_for_input(&self) -> (r: Option<Rect>)
        ensures
            r == area_for_bounds(self@, menu_bounds(self@)),
    {
        self.context_menu_area_for_bounds(self.context_menu_bounds())
    }

    fn context_menu_bounds(&self) -> (r: Rect)
        ensures
            r == menu_bounds(self@),
    {
        let mut bounds = self.layout.app;
        bounds = union_rect(bounds, self.layout.title_left);
        bounds = union_rect(bounds, self.layout.title_right);
        bounds = union_rect(bounds, self.layout.statusbar_left);
        bounds = union_rect(bounds, self.layout.statusbar_right);
        bounds
    }

    fn first_enabled_context_menu_index(&self) -> (i: usize)
        ensures
            i == first_enabled_index(self@),
    {
        let mut i: usize = 0;
        while i < CONTEXT_MENU_ACTIONS
            invariant
                i <= CONTEXT_MENU_ACTIONS,
                forall|j: int| 0 <= j < i ==> !action_enabled(self@, #[trigger] action_at(j)),
            decreases CONTEXT_MENU_ACTIONS - i,
        {
            if self.context_menu_action_enabled(ContextMenuAction::at(i)) {
                proof {
                    if i > 0 {
                        assert(!action_enabled(self@, action_at(0)));
                    }
                    if i > 1 {
                        assert(!action_enabled(self@, action_at(1)));
                    }
                }
                return i;
            }
            i = i + 1;
        }
        assert(action_enabled(self@, action_at(1)));
        0
    }

    fn move_context_menu_selection(&mut self, direction: Direction)
        requires
            old(self).context_menu matches Some(m) ==> m.selected <= usize::MAX - CONTEXT_MENU_ACTIONS,
        ensures
            final(self).oids == old(self).oids,
            final(self).worktrees == old(self).worktrees,
            final(self)@ == menu_moved(old(self)@, direction),
    {
        let menu = match self.context_menu {
            Some(menu) => menu,
            None => return,
        };

        let count = CONTEXT_MENU_ACTIONS;
        let mut offset: usize = 1;
        while offset <= count
            invariant
                *self == *old(self),
                self.context_menu == Some(menu),
                menu.selected <= usize::MAX - CONTEXT_MENU_ACTIONS,
                count == CONTEXT_MENU_ACTIONS,
                1 <= offset <= count + 1,
                forall|o: int| 1 <= o < offset ==> !action_enabled(self@, action_at(#[trigger] menu_step(menu.selected, direction, o))),
            decreases count + 1 - offset,
        {
            let index = match direction {
                Direction::Down => (menu.selected + offset) % count,
                Direction::Up => (menu.selected + count - (offset % count)) % count,
            };
            assert(index as int == menu_step(menu.selected, direction, offset as int));
            if self.context_menu_action_enabled(ContextMenuAction::at(index)) {
                self.context_menu = Some(ContextMenuState { selected: index, ..menu });
                return;
            }
            offset = offset + 1;
        }
    }

    fn activate_context_menu_selected(&mut self)
        ensures
            final(self).oids == old(self).oids,
            final(self).worktrees == old(self).worktrees,
            final(self)@ == selected_activated(old(self)@),
    {
        let menu = match self.context_menu {
            Some(menu) => menu,
            None => return,
        };
        if menu.selected >= CONTEXT_MENU_ACTIONS {
            self.close_context_menu();
            return;
        }
        let action = ContextMenuAction::at(menu.selected);
        if self.context_menu_action_enabled(action) {
            self.activate_context_menu_action(action);
        }
    }

    fn activate_context_menu_action(&mut self, action: ContextMenuAction)
        ensures
            final(self).oids == old(self).oids,
            final(self).worktrees == old(self).worktrees,
            final(self)@ == activated(old(self)@, action),
    {
        if !self.context_menu_action_enabled(action) {
            return;
        }

        self.close_context_menu();
        match action {
            ContextMenuAction::Settings => self.open_settings_from_context_menu(),
            ContextMenuAction::Splash => self.open_splash_from_context_menu(),
            ContextMenuAction::Exit => self.exit(),
        }
    }

    fn open_settings_from_context_menu(&mut self)
        ensures
            final(self).oids == old(self).oids,
            final(self).worktrees == old(self).worktrees,
            final(self)@ == opened_settings(old(self)@),
    {
        if self.viewport != Viewport::Settings {
            self.settings_tab = SettingsTab::Paths;
            self.settings_selected = 0;
            self.settings_scroll = 0;
        }
        self.viewport = Viewport::Settings;
        self.focus = Focus::Viewport;
        self.last_input_direction = None;
    }

    fn open_splash_from_context_menu(&mut self)
        ensures
            final(self).oids == old(self).oids,
            final(self).worktrees == old(self).worktrees,
            final(self)@ == opened_splash(old(self)@),
    {
        self.viewer_selected = 0;
        self.file_name = None;
        self.viewport = Viewport::Splash;
        self.focus = Focus::Viewport;
        self.last_input_direction = None;

        let ghost views = self.recent@.map_values(|r: String| r@);
        let mut selected: usize = 0;
        if let Some(path) = &self.path {
            let mut i: usize = 0;
            let mut found = false;
            while i < self.recent.len() && !found
                invariant
                    views == self.recent@.map_values(|r: String| r@),
                    i <= self.recent@.len(),
                    found ==> i < self.recent@.len() && views.index_of_first(path@) == Some(i as int) && selected == i,
                    !found ==> selected == 0 && forall|j: int| 0 <= j < i ==> views[j] != path@,
                decreases self.recent@.len() - i + (if found { 0int } else { 1int }),
            {
                if self.recent[i] == *path {
                    proof {
                        assert(views[i as int] == self.recent@[i as int]@);
                        views.index_of_first_ensures(path@);
                        let f = views.index_of_first(path@).unwrap();
                        if f < i {
                            assert(views[f] != path@);
                        }
                        if f > i {
                            assert(views[i as int] == path@);
                        }
                    }
                    selected = i;
                    found = true;
                } else {
                    proof {
                        assert(views[i as int] == self.recent@[i as int]@);
                    }
                    i = i + 1;
                }
            }
            proof {
                views.index_of_first_ensures(path@);
                if !found {
                    if views.contains(path@) {
                        let k = choose|k: int| 0 <= k < views.len() && views[k] == path@;
                        assert(views[k] != path@);
                    }
                }
            }
        }
        let last = if self.recent.len() == 0 { 0 } else { self.recent.len() - 1 };
        self.splash_selected = if selected < last { selected } else { last };
    }
}

// ---------------------------------------------------------------------------------------------
// The worktree modals.
// ---------------------------------------------------------------------------------------------

pub open spec fn remove_guard_message() -> Seq<char> {
    "Remove worktree failed: cannot remove current, main, or locked worktrees"@
}

pub open spec fn open_invalid_message() -> Seq<char> {
    "Open worktree failed: worktree path is invalid"@
}

pub open spec fn lock_guard_message() -> Seq<char> {
    "Lock worktree failed: only valid linked worktrees can be locked"@
}

/// The error modal, showing `message`.
pub open spec fn errored(v: AppView, message: Seq<char>) -> AppView {
    AppView { modal_error_message: message, focus: Focus::ModalError, ..v }
}

/// A reload owed: of the current repository with `None`, of `path` otherwise.
pub open spec fn reloaded(v: AppView, path: Option<Seq<char>>) -> AppView {
    AppView { pending_reload: Some(path), ..v }
}

pub open spec fn modal_cleared(v: AppView) -> AppView {
    AppView {
        modal_worktree_selected: 0,
        modal_worktree_candidates: Seq::empty(),
        modal_worktree_target: None,
        modal_worktree_action: WorktreeModalAction::Open,
        modal_worktree_return_focus: Focus::Viewport,
        ..v
    }
}

/// The modal cleared, and the focus back where the modal was opened from.
pub open spec fn modal_closed(v: AppView) -> AppView {
    AppView { focus: v.modal_worktree_return_focus, ..modal_cleared(v) }
}

/// The worktrees checked out at the selected graph row; none off the graph or on the
/// uncommitted row.
pub open spec fn graph_worktrees(v: AppView) -> Seq<usize> {
    if v.viewport != Viewport::Graph || v.graph_selected == 0 || v.graph_selected >= v.sorted_aliases.len() {
        Seq::empty()
    } else {
        indices_with_alias(v.worktree_entries, v.sorted_aliases[v.graph_selected as int])
    }
}

/// The positions in `idxs` of valid worktrees, in order.
pub open spec fn openable_among(entries: Seq<WorktreeEntry>, idxs: Seq<usize>) -> Seq<usize>
    decreases idxs.len(),
{
    if idxs.len() == 0 {
        Seq::empty()
    } else {
        let rest = openable_among(entries, idxs.drop_last());
        let i = idxs.last();
        if i < entries.len() && entries[i as int].is_valid {
            rest.push(i)
        } else {
            rest
        }
    }
}

/// The positions in `idxs` of worktrees that may be removed, in order.
pub open spec fn removable_among(entries: Seq<WorktreeEntry>, idxs: Seq<usize>) -> Seq<usize>
    decreases idxs.len(),
{
    if idxs.len() == 0 {
        Seq::empty()
    } else {
        let rest = removable_among(entries, idxs.drop_last());
        let i = idxs.last();
        if i < entries.len() && entry_can_remove(entries[i as int]) {
            rest.push(i)
        } else {
            rest
        }
    }
}

pub open spec fn chooser_opened(v: AppView, action: WorktreeModalAction, candidates: Seq<usize>, return_focus: Focus) -> AppView {
    AppView {
        modal_worktree_selected: 0,
        modal_worktree_candidates: candidates,
        modal_worktree_target: None,
        modal_worktree_action: action,
        modal_worktree_return_focus: return_focus,
        focus: Focus::ModalWorktreeChooser,
        ..v
    }
}

pub open spec fn remove_confirmation_opened(v: AppView, index: usize, return_focus: Focus) -> AppView {
    AppView {
        modal_worktree_selected: 0,
        modal_worktree_candidates: Seq::empty(),
        modal_worktree_target: Some(index),
        modal_worktree_action: WorktreeModalAction::Remove,
        modal_worktree_return_focus: return_focus,
        focus: Focus::ModalRemoveWorktree,
        ..v
    }
}

/// Opening the worktree at `index`: its path reloaded on the graph's first row, or an error when
/// its path is not valid.
pub open spec fn worktree_opened(v: AppView, index: usize) -> AppView {
    if index >= v.worktree_entries.len() {
        v
    } else if !v.worktree_entries[index as int].is_valid {
        errored(v, open_invalid_message())
    } else {
        AppView {
            viewport: Viewport::Graph,
            focus: Focus::Viewport,
            graph_selected: 0,
            ..reloaded(modal_cleared(v), Some(v.worktree_entries[index as int].path@))
        }
    }
}

pub open spec fn graph_worktree_opened(v: AppView) -> AppView {
    let candidates = openable_among(v.worktree_entries, graph_worktrees(v));
    if candidates.len() == 0 {
        v
    } else if candidates.len() == 1 {
        worktree_opened(v, candidates[0])
    } else {
        chooser_opened(v, WorktreeModalAction::Open, candidates, Focus::Viewport)
    }
}

proof fn lemma_indices_upto_increasing(entries: Seq<WorktreeEntry>, a: u32, n: int)
    requires
        n <= entries.len(),
        entries.len() <= usize::MAX,
    ensures
        forall|i: int| 0 <= i < indices_upto(entries, a, n).len() ==> #[trigger] indices_upto(entries, a, n)[i] < n,
        forall|i: int, j: int| 0 <= i < j < indices_upto(entries, a, n).len() ==>
            #[trigger] indices_upto(entries, a, n)[i] < #[trigger] indices_upto(entries, a, n)[j],
    decreases n,
{
    if n > 0 {
        lemma_indices_upto_increasing(entries, a, n - 1);
        let prev = indices_upto(entries, a, n - 1);
        let all = indices_upto(entries, a, n);
        if entries[n - 1].alias == Some(a) {
            assert(all == prev.push((n - 1) as usize));
            assert forall|i: int, j: int| 0 <= i < j < all.len() implies #[trigger] all[i] < #[trigger] all[j] by {
                assert(all[i] == prev[i]);
                if j < prev.len() {
                    assert(all[j] == prev[j]);
                }
            }
            assert forall|i: int| 0 <= i < all.len() implies #[trigger] all[i] < n by {
                if i < prev.len() {
                    assert(all[i] == prev[i]);
                }
            }
        } else {
            assert(all == prev);
        }
    }
}

proof fn lemma_openable_among(entries: Seq<WorktreeEntry>, idxs: Seq<usize>)
    ensures
        forall|k: int| 0 <= k < openable_among(entries, idxs).len() ==> {
            let i = #[trigger] openable_among(entries, idxs)[k];
            &&& idxs.contains(i)
            &&& i < entries.len()
            &&& entries[i as int].is_valid
        },
        forall|i: usize| idxs.contains(i) && i < entries.len() && entries[i as int].is_valid ==> openable_among(entries, idxs).contains(i),
        (forall|i: int, j: int| 0 <= i < j < idxs.len() ==> idxs[i] < idxs[j]) ==>
            forall|i: int, j: int| 0 <= i < j < openable_among(entries, idxs).len() ==>
                #[trigger] openable_among(entries, idxs)[i] < #[trigger] openable_among(entries, idxs)[j],
    decreases idxs.len(),
{
    if idxs.len() > 0 {
        let init = idxs.drop_last();
        let last = idxs.last();
        lemma_openable_among(entries, init);
        let rest = openable_among(entries, init);
        let all = openable_among(entries, idxs);
        assert forall|k: int| 0 <= k < all.len() implies {
            let i = #[trigger] all[k];
            &&& idxs.contains(i)
            &&& i < entries.len()
            &&& entries[i as int].is_valid
        } by {
            if k < rest.len() {
                assert(all[k] == rest[k]);
                let t = choose|t: int| 0 <= t < init.len() && init[t] == rest[k];
                assert(idxs[t] == init[t]);
            } else {
                assert(idxs[idxs.len() - 1] == last);
            }
        }
        assert forall|i: usize| idxs.contains(i) && i < entries.len() && entries[i as int].is_valid implies all.contains(i) by {
            let t = choose|t: int| 0 <= t < idxs.len() && idxs[t] == i;
            if t < init.len() {
                assert(init[t] == i);
                assert(init.contains(i));
                assert(rest.contains(i));
                let u = choose|u: int| 0 <= u < rest.len() && rest[u] == i;
                assert(all[u] == i);
            } else {
                assert(all[all.len() - 1] == i);
            }
        }
        if forall|i: int, j: int| 0 <= i < j < idxs.len() ==> idxs[i] < idxs[j] {
            assert forall|i: int, j: int| 0 <= i < j < init.len() implies init[i] < init[j] by {
                assert(init[i] == idxs[i] && init[j] == idxs[j]);
            }
            assert forall|i: int, j: int| 0 <= i < j < all.len() implies #[trigger] all[i] < #[trigger] all[j] by {
                if j >= rest.len() {
                    assert(all[i] == rest[i]);
                    let t = choose|t: int| 0 <= t < init.len() && init[t] == rest[i];
                    assert(idxs[t] == init[t]);
                    assert(idxs[t] < idxs[idxs.len() - 1]);
                } else {
                    assert(all[i] == rest[i] && all[j] == rest[j]);
                }
            }
        }
    }
}

/// Opening a worktree from a graph row only ever opens or offers a valid worktree checked out
/// there: with none on the row nothing happens and no error is shown; with exactly one it is
/// opened at once, the graph back on its first row; a chooser lists only valid worktrees of the
/// row, all of them, and at least two.
pub proof fn lemma_graph_open_offers_only_valid(v: AppView)
    requires
        v.worktree_entries.len() <= usize::MAX,
    ensures
        ({
            let w = graph_worktree_opened(v);
            let row = graph_worktrees(v);
            let entries = v.worktree_entries;
            &&& w.modal_error_message == v.modal_error_message
            &&& (forall|i: usize| !(row.contains(i) && i < entries.len() && #[trigger] entries[i as int].is_valid)) ==> w == v
            &&& (w.focus == Focus::ModalWorktreeChooser && w != v) ==> {
                &&& w.modal_worktree_candidates.len() >= 2
                &&& forall|k: int| 0 <= k < w.modal_worktree_candidates.len() ==> {
                    let i = #[trigger] w.modal_worktree_candidates[k];
                    row.contains(i) && i < entries.len() && entries[i as int].is_valid
                }
                &&& forall|i: usize| row.contains(i) && i < entries.len() && entries[i as int].is_valid ==>
                    w.modal_worktree_candidates.contains(i)
            }
            &&& w.pending_reload != v.pending_reload ==> exists|i: usize| {
                &&& row.contains(i) && i < entries.len() && #[trigger] entries[i as int].is_valid
                &&& w.pending_reload == Some(Some(entries[i as int].path@))
                &&& w.focus == Focus::Viewport
                &&& w.graph_selected == 0
            }
            &&& forall|i: usize| row.contains(i) && i < entries.len() && #[trigger] entries[i as int].is_valid && (forall|j: usize|
                row.contains(j) && j < entries.len() && entries[j as int].is_valid ==> j == i) ==> {
                &&& w.pending_reload == Some(Some(entries[i as int].path@))
                &&& w.viewport == Viewport::Graph
                &&& w.focus == Focus::Viewport
                &&& w.graph_selected == 0
            }
        }),
{
    let row = graph_worktrees(v);
    let entries = v.worktree_entries;
    let c = openable_among(entries, row);
    lemma_openable_among(entries, row);
    if !(v.viewport != Viewport::Graph || v.graph_selected == 0 || v.graph_selected >= v.sorted_aliases.len()) {
        lemma_indices_upto_increasing(entries, v.sorted_aliases[v.graph_selected as int], entries.len() as int);
    }
    assert(forall|i: int, j: int| 0 <= i < j < row.len() ==> row[i] < row[j]);
    let w = graph_worktree_opened(v);
    if c.len() == 0 {
        assert(w == v);
        assert forall|i: usize| row.contains(i) && i < entries.len() && entries[i as int].is_valid implies false by {
            assert(c.contains(i));
        }
    } else if c.len() == 1 {
        let c0 = c[0];
        assert(row.contains(c0) && c0 < entries.len() && entries[c0 as int].is_valid);
        assert(w == worktree_opened(v, c0));
        assert(w.pending_reload == Some(Some(entries[c0 as int].path@)));
        assert(w.focus == Focus::Viewport);
        assert forall|i: usize| row.contains(i) && i < entries.len() && #[trigger] entries[i as int].is_valid && (forall|j: usize|
            row.contains(j) && j < entries.len() && entries[j as int].is_valid ==> j == i) implies c0 == i by {
        }
    } else {
        assert(w == chooser_opened(v, WorktreeModalAction::Open, c, Focus::Viewport));
        assert(w.pending_reload == v.pending_reload);
    }
    if c.len() >= 2 {
        assert(c[0] < c[1]);
        let c0 = c[0];
        let c1 = c[1];
        assert forall|i: usize| row.contains(i) && i < entries.len() && entries[i as int].is_valid && (forall|j: usize|
            row.contains(j) && j < entries.len() && entries[j as int].is_valid ==> j == i) implies false by {
            assert(c0 == i);
            assert(c1 == i);
        }
    }
}

/// The worktree the chooser has highlighted.
pub open spec fn chosen_worktree(v: AppView) -> Option<usize> {
    if v.modal_worktree_selected < 0 || v.modal_worktree_selected >= v.modal_worktree_candidates.len() {
        None
    } else {
        Some(v.modal_worktree_candidates[v.modal_worktree_selected as int])
    }
}

pub open spec fn chooser_confirmed(v: AppView) -> AppView {
    match chosen_worktree(v) {
        None => v,
        Some(index) => match v.modal_worktree_action {
            WorktreeModalAction::Open => worktree_opened(v, index),
            WorktreeModalAction::Remove => AppView {
                modal_worktree_candidates: Seq::empty(),
                modal_worktree_selected: 0,
                modal_worktree_target: Some(index),
                focus: Focus::ModalRemoveWorktree,
                ..v
            },
        },
    }
}

/// The worktree a confirmed removal is about, when there is a repository to remove it from.
pub open spec fn removal_target(v: AppView) -> Option<usize> {
    if !v.has_repository {
        None
    } else {
        match v.modal_worktree_target {
            Some(i) => if i < v.worktree_entries.len() {
                Some(i)
            } else {
                None
            },
            None => None,
        }
    }
}

pub open spec fn remove_finished(v: AppView, result: Result<(), Seq<char>>) -> AppView {
    match result {
        Ok(_) => reloaded(modal_closed(v), None),
        Err(e) => errored(v, "Remove worktree failed: "@ + e),
    }
}

pub open spec fn create_started(v: AppView) -> AppView {
    if v.viewport == Viewport::Settings || v.viewport == Viewport::Viewer {
        v
    } else if v.focus == Focus::Viewport && v.viewport == Viewport::Graph && v.graph_selected != 0 {
        AppView { modal_input: Seq::empty(), modal_worktree_name: Seq::empty(), focus: Focus::ModalCreateWorktreeName, ..v }
    } else {
        v
    }
}

pub open spec fn remove_started(v: AppView) -> AppView {
    if v.viewport == Viewport::Settings || v.viewport == Viewport::Viewer {
        v
    } else if v.focus == Focus::Worktrees {
        if v.worktrees_selected >= v.worktree_entries.len() {
            v
        } else if !entry_can_remove(v.worktree_entries[v.worktrees_selected as int]) {
            errored(v, remove_guard_message())
        } else {
            remove_confirmation_opened(v, v.worktrees_selected, Focus::Worktrees)
        }
    } else if v.focus == Focus::Viewport && v.viewport == Viewport::Graph {
        let all = graph_worktrees(v);
        let removable = removable_among(v.worktree_entries, all);
        if removable.len() == 0 {
            if all.len() > 0 {
                errored(v, remove_guard_message())
            } else {
                v
            }
        } else if removable.len() == 1 {
            remove_confirmation_opened(v, removable[0], Focus::Viewport)
        } else {
            chooser_opened(v, WorktreeModalAction::Remove, removable, Focus::Viewport)
        }
    } else {
        v
    }
}

/// What toggling the lock of the selected worktree does, and the name of the worktree to unlock
/// when it asks for that.
pub open spec fn lock_toggled(v: AppView) -> (AppView, Option<Seq<char>>) {
    if v.viewport == Viewport::Settings || v.viewport == Viewport::Viewer || v.focus != Focus::Worktrees
        || !v.has_repository || v.worktrees_selected >= v.worktree_entries.len() {
        (v, None)
    } else {
        let entry = v.worktree_entries[v.worktrees_selected as int];
        if !entry_can_lock(entry) {
            (errored(v, lock_guard_message()), None)
        } else if entry.locked_reason is Some {
            (v, Some(entry.name@))
        } else {
            (AppView { modal_input: Seq::empty(), focus: Focus::ModalLockWorktree, ..v }, None)
        }
    }
}

pub open spec fn unlock_finished(v: AppView, result: Result<(), Seq<char>>) -> AppView {
    match result {
        Ok(_) => reloaded(AppView { focus: Focus::Worktrees, ..v }, None),
        Err(e) => errored(v, "Unlock worktree failed: "@ + e),
    }
}

pub open spec fn result_view(r: Result<(), String>) -> Result<(), Seq<char>> {
    match r {
        Ok(u) => Ok(u),
        Err(e) => Err(e@),
    }
}

impl App {
    /// Shows `message` in the error modal.
    pub fn show_error(&mut self, message: &str)
        ensures
            final(self).oids == old(self).oids,
            final(self).worktrees == old(self).worktrees,
            final(self)@ == errored(old(self)@, message@),
    {
        self.modal_error_message = String::from_str(message);
        self.focus = Focus::ModalError;
    }

    /// Owes a reload: of the current repository with `None`, of `path` otherwise.
    pub fn reload(&mut self, path: Option<String>)
        ensures
            final(self).oids == old(self).oids,
            final(self).worktrees == old(self).worktrees,
            final(self)@ == reloaded(old(self)@, opt_view(path)),
    {
        self.pending_reload = Some(path);
    }

    pub fn graph_worktree_indices(&self) -> (r: Vec<usize>)
        requires
            self.worktrees.wf(),
        ensures
            r@ == graph_worktrees(self@),
    {
        if self.viewport != Viewport::Graph || self.graph_selected == 0 {
            return Vec::new();
        }
        let aliases = self.oids.get_sorted_aliases();
        if self.graph_selected < aliases.len() {
            self.worktrees.indices_for_alias(aliases[self.graph_selected])
        } else {
            Vec::new()
        }
    }

    fn graph_open_worktree_indices(&self) -> (r: Vec<usize>)
        requires
            self.worktrees.wf(),
        ensures
            r@ == openable_among(self@.worktree_entries, graph_worktrees(self@)),
    {
        let all = self.graph_worktree_indices();
        let list = self.worktrees.entries();
        let ghost entries = self@.worktree_entries;
        let mut kept: Vec<usize> = Vec::new();
        let mut i: usize = 0;
        while i < all.len()
            invariant
                entries == self.worktrees.entry_list(),
                list@ == entries,
                i <= all@.len(),
                kept@ == openable_among(entries, all@.take(i as int)),
            decreases all@.len() - i,
        {
            let index = all[i];
            proof {
                assert(all@.take(i + 1).drop_last() == all@.take(i as int));
                assert(all@.take(i + 1).last() == index);
            }
            if index < list.len() && list[index].is_valid {
                kept.push(index);
            }
            i = i + 1;
        }
        proof {
            assert(all@.take(all@.len() as int) == all@);
        }
        kept
    }

    fn graph_remove_worktree_indices(&self) -> (r: Vec<usize>)
        requires
            self.worktrees.wf(),
        ensures
            r@ == removable_among(self@.worktree_entries, graph_worktrees(self@)),
    {
        let all = self.graph_worktree_indices();
        let list = self.worktrees.entries();
        let ghost entries = self@.worktree_entries;
        let mut kept: Vec<usize> = Vec::new();
        let mut i: usize = 0;
        while i < all.len()
            invariant
                entries == self.worktrees.entry_list(),
                list@ == entries,
                i <= all@.len(),
                kept@ == removable_among(entries, all@.take(i as int)),
            decreases all@.len() - i,
        {
            let index = all[i];
            proof {
                assert(all@.take(i + 1).drop_last() == all@.take(i as int));
                assert(all@.take(i + 1).last() == index);
            }
            if index < list.len() && list[index].can_remove() {
                kept.push(index);
            }
            i = i + 1;
        }
        proof {
            assert(all@.take(all@.len() as int) == all@);
        }
        kept
    }

    pub fn clear_worktree_modal_state(&mut self)
        ensures
            final(self).oids == old(self).oids,
            final(self).worktrees == old(self).worktrees,
            final(self)@ == modal_cleared(old(self)@),
    {
        self.modal_worktree_selected = 0;
        self.modal_worktree_candidates.clear();
        self.modal_worktree_target = None;
        self.modal_worktree_action = WorktreeModalAction::Open;
        self.modal_worktree_return_focus = Focus::Viewport;
    }

    pub fn close_worktree_modal(&mut self)
        ensures
            final(self).oids == old(self).oids,
            final(self).worktrees == old(self).worktrees,
            final(self)@ == modal_closed(old(self)@),
    {
        let return_focus = self.modal_worktree_return_focus;
        self.clear_worktree_modal_state();
        self.focus = return_focus;
    }

    pub fn open_worktree_chooser(&mut self, action: WorktreeModalAction, candidates: Vec<usize>, return_focus: Focus)
        ensures
            final(self).oids == old(self).oids,
            final(self).worktrees == old(self).worktrees,
            final(self)@ == chooser_opened(old(self)@, action, candidates@, return_focus),
    {
        self.modal_worktree_selected = 0;
        self.modal_worktree_candidates = candidates;
        self.modal_worktree_target = None;
        self.modal_worktree_action = action;
        self.modal_worktree_return_focus = return_focus;
        self.focus = Focus::ModalWorktreeChooser;
    }

    fn open_worktree_by_index(&mut self, index: usize)
        ensures
            final(self).oids == old(self).oids,
            final(self).worktrees == old(self).worktrees,
            final(self)@ == worktree_opened(old(self)@, index),
    {
        let list = self.worktrees.entries();
        if index >= list.len() {
            return;
        }
        if !list[index].is_valid {
            self.show_error("Open worktree failed: worktree path is invalid");
            return;
        }
        let path = list[index].path.clone();
        self.clear_worktree_modal_state();
        self.reload(Some(path));
        self.viewport = Viewport::Graph;
        self.focus = Focus::Viewport;
        self.graph_selected = 0;
    }

    /// Opens the worktree selected in the worktree list.
    pub fn open_selected_worktree(&mut self)
        ensures
            final(self).oids == old(self).oids,
            final(self).worktrees == old(self).worktrees,
            final(self)@ == worktree_opened(old(self)@, old(self)@.worktrees_selected),
    {
        self.open_worktree_by_index(self.worktrees_selected);
    }

    /// Opens the worktree checked out at the selected graph row, or lets the user choose when
    /// there are several.
    pub fn open_graph_worktree(&mut self)
        requires
            old(self).worktrees.wf(),
        ensures
            final(self).oids == old(self).oids,
            final(self).worktrees == old(self).worktrees,
            final(self)@ == graph_worktree_opened(old(self)@),
    {
        let candidates = self.graph_open_worktree_indices();
        if candidates.len() == 0 {
        } else if candidates.len() == 1 {
            self.open_worktree_by_index(candidates[0]);
        } else {
            self.open_worktree_chooser(WorktreeModalAction::Open, candidates, Focus::Viewport);
        }
    }

    fn selected_modal_worktree_index(&self) -> (r: Option<usize>)
        ensures
            r == chosen_worktree(self@),
    {
        if self.modal_worktree_selected < 0 {
            return None;
        }
        let selected = self.modal_worktree_selected as usize;
        if selected < self.modal_worktree_candidates.len() {
            Some(self.modal_worktree_candidates[selected])
        } else {
            None
        }
    }

    pub fn confirm_worktree_chooser(&mut self)
        ensures
            final(self).oids == old(self).oids,
            final(self).worktrees == old(self).worktrees,
            final(self)@ == chooser_confirmed(old(self)@),
    {
        let index = match self.selected_modal_worktree_index() {
            Some(index) => index,
            None => return,
        };
        match self.modal_worktree_action {
            WorktreeModalAction::Open => {
                self.open_worktree_by_index(index);
            },
            WorktreeModalAction::Remove => {
                self.modal_worktree_candidates.clear();
                self.modal_worktree_selected = 0;
                self.modal_worktree_target = Some(index);
                self.focus = Focus::ModalRemoveWorktree;
            },
        }
    }

    fn open_remove_worktree_confirmation(&mut self, index: usize, return_focus: Focus)
        ensures
            final(self).oids == old(self).oids,
            final(self).worktrees == old(self).worktrees,
            final(self)@ == remove_confirmation_opened(old(self)@, index, return_focus),
    {
        self.modal_worktree_selected = 0;
        self.modal_worktree_candidates.clear();
        self.modal_worktree_target = Some(index);
        self.modal_worktree_action = WorktreeModalAction::Remove;
        self.modal_worktree_return_focus = return_focus;
        self.focus = Focus::ModalRemoveWorktree;
    }

    /// Confirms the removal the modal asks about. A worktree that may be removed is handed back
    /// as a request, with the app unchanged until `finish_remove_worktree` hears how it went; one
    /// that may not shows the error instead.
    pub fn confirm_remove_worktree(&mut self) -> (request: Option<WorktreeRequest>)
        ensures
            final(self).oids == old(self).oids,
            final(self).worktrees == old(self).worktrees,
            match removal_target(old(self)@) {
                None => final(self)@ == old(self)@ && request is None,
                Some(i) => if entry_can_remove(old(self)@.worktree_entries[i as int]) {
                    &&& final(self)@ == old(self)@
                    &&& request matches Some(WorktreeRequest::Remove { name }) && name@ == old(self)@.worktree_entries[i as int].name@
                } else {
                    final(self)@ == errored(old(self)@, remove_guard_message()) && request is None
                },
            },
    {
        if !self.has_repository {
            return None;
        }
        let index = match self.modal_worktree_target {
            Some(index) => index,
            None => return None,
        };
        let list = self.worktrees.entries();
        if index >= list.len() {
            return None;
        }
        if !list[index].can_remove() {
            self.show_error("Remove worktree failed: cannot remove current, main, or locked worktrees");
            return None;
        }
        Some(WorktreeRequest::Remove { name: list[index].name.clone() })
    }

    /// Takes in how a removal went.
    pub fn finish_remove_worktree(&mut self, result: Result<(), String>)
        ensures
            final(self).oids == old(self).oids,
            final(self).worktrees == old(self).worktrees,
            final(self)@ == remove_finished(old(self)@, result_view(result)),
    {
        match result {
            Ok(_) => {
                self.close_worktree_modal();
                self.reload(None);
            },
            Err(error) => {
                let mut message = String::from_str("Remove worktree failed: ");
                message.append(error.as_str());
                self.show_error(message.as_str());
            },
        }
    }

    /// Starts naming a new worktree at the selected graph row.
    pub fn on_create_worktree(&mut self)
        ensures
            final(self).oids == old(self).oids,
            final(self).worktrees == old(self).worktrees,
            final(self)@ == create_started(old(self)@),
    {
        if self.viewport == Viewport::Settings || self.viewport == Viewport::Viewer {
            return;
        }
        if self.focus == Focus::Viewport && self.viewport == Viewport::Graph && self.graph_selected != 0 {
            self.modal_input = String::new();
            self.modal_worktree_name = String::new();
            self.focus = Focus::ModalCreateWorktreeName;
        }
    }

    /// Asks to remove the selected worktree, or one checked out at the selected graph row.
    pub fn on_remove_worktree(&mut self)
        requires
            old(self).worktrees.wf(),
        ensures
            final(self).oids == old(self).oids,
            final(self).worktrees == old(self).worktrees,
            final(self)@ == remove_started(old(self)@),
    {
        if self.viewport == Viewport::Settings || self.viewport == Viewport::Viewer {
            return;
        }
        if self.focus == Focus::Worktrees {
            let selected = self.worktrees_selected;
            let list = self.worktrees.entries();
            if selected >= list.len() {
                return;
            }
            if !list[selected].can_remove() {
                self.show_error("Remove worktree failed: cannot remove current, main, or locked worktrees");
                return;
            }
            self.open_remove_worktree_confirmation(selected, Focus::Worktrees);
        } else if self.focus == Focus::Viewport && self.viewport == Viewport::Graph {
            let all = self.graph_worktree_indices();
            let removable = self.graph_remove_worktree_indices();
            if removable.len() == 0 {
                if all.len() > 0 {
                    self.show_error("Remove worktree failed: cannot remove current, main, or locked worktrees");
                }
            } else if removable.len() == 1 {
                self.open_remove_worktree_confirmation(removable[0], Focus::Viewport);
            } else {
                self.open_worktree_chooser(WorktreeModalAction::Remove, removable, Focus::Viewport);
            }
        }
    }

    /// Locks or unlocks the selected worktree. Locking asks for a reason first; unlocking is
    /// handed back as a request, with the app unchanged until `finish_unlock_worktree` hears how
    /// it went.
    pub fn on_toggle_worktree_lock(&mut self) -> (request: Option<WorktreeRequest>)
        ensures
            final(self).oids == old(self).oids,
            final(self).worktrees == old(self).worktrees,
            final(self)@ == lock_toggled(old(self)@).0,
            match lock_toggled(old(self)@).1 {
                Some(name) => request matches Some(WorktreeRequest::Unlock { name: n }) && n@ == name,
                None => request is None,
            },
    {
        if self.viewport == Viewport::Settings || self.viewport == Viewport::Viewer || self.focus != Focus::Worktrees {
            return None;
        }
        if !self.has_repository {
            return None;
        }
        let selected = self.worktrees_selected;
        let list = self.worktrees.entries();
        if selected >= list.len() {
            return None;
        }
        if !list[selected].can_lock() {
            self.show_error("Lock worktree failed: only valid linked worktrees can be locked");
            return None;
        }
        if list[selected].locked_reason.is_some() {
            return Some(WorktreeRequest::Unlock { name: list[selected].name.clone() });
        }
        self.modal_input = String::new();
        self.focus = Focus::ModalLockWorktree;
        None
    }

    /// Takes in how an unlock went.
    pub fn finish_unlock_worktree(&mut self, result: Result<(), String>)
        ensures
            final(self).oids == old(self).oids,
            final(self).worktrees == old(self).worktrees,
            final(self)@ == unlock_finished(old(self)@, result_view(result)),
    {
        match result {
            Ok(_) => {
                self.focus = Focus::Worktrees;
                self.reload(None);
            },
            Err(error) => {
                let mut message = String::from_str("Unlock worktree failed: ");
                message.append(error.as_str());
                self.show_error(message.as_str());
            },
        }
    }
}

proof fn lemma_removable_among(entries: Seq<WorktreeEntry>, idxs: Seq<usize>)
    ensures
        forall|k: int| 0 <= k < removable_among(entries, idxs).len() ==> {
            let i = #[trigger] removable_among(entries, idxs)[k];
            i < entries.len() && entry_can_remove(entries[i as int])
        },
    decreases idxs.len(),
{
    if idxs.len() > 0 {
        let rest = removable_among(entries, idxs.drop_last());
        lemma_removable_among(entries, idxs.drop_last());
        let r = removable_among(entries, idxs);
        assert forall|k: int| 0 <= k < r.len() implies {
            let i = #[trigger] r[k];
            i < entries.len() && entry_can_remove(entries[i as int])
        } by {
            if k < rest.len() {
                assert(r[k] == rest[k]);
            }
        }
    }
}

/// Whether the worktree a removal modal is about may be removed.
pub open spec fn target_removable(v: AppView) -> bool {
    match v.modal_worktree_target {
        Some(i) => i < v.worktree_entries.len() && entry_can_remove(v.worktree_entries[i as int]),
        None => false,
    }
}

/// A removal is only ever put up for confirmation for a worktree that may be removed: asked from
/// the worktree list or from a graph row, directly or after choosing among several.
pub proof fn lemma_removal_only_offers_removable(v: AppView)
    requires
        v.focus == Focus::Viewport || v.focus == Focus::Worktrees,
    ensures
        ({
            let asked = remove_started(v);
            &&& asked.focus == Focus::ModalRemoveWorktree ==> target_removable(asked)
            &&& asked.focus == Focus::ModalWorktreeChooser ==> asked.modal_worktree_action == WorktreeModalAction::Remove
                && forall|k: int| 0 <= k < asked.modal_worktree_candidates.len() ==> {
                    let i = #[trigger] asked.modal_worktree_candidates[k];
                    i < asked.worktree_entries.len() && entry_can_remove(asked.worktree_entries[i as int])
                }
            &&& asked.focus == Focus::ModalWorktreeChooser ==> ({
                let chosen = chooser_confirmed(asked);
                chosen.focus == Focus::ModalRemoveWorktree ==> target_removable(chosen)
            })
        }),
{
    lemma_removable_among(v.worktree_entries, graph_worktrees(v));
    let asked = remove_started(v);
    if asked.focus == Focus::ModalRemoveWorktree && v.focus == Focus::Viewport {
        let removable = removable_among(v.worktree_entries, graph_worktrees(v));
        assert(removable.len() == 1);
        assert(asked.modal_worktree_target == Some(removable[0]));
    }
    if asked.focus == Focus::ModalWorktreeChooser {
        let chosen = chooser_confirmed(asked);
        if let Some(k) = chosen_worktree(asked) {
            assert(asked.modal_worktree_selected == 0);
            assert(k == asked.modal_worktree_candidates[0]);
        }
    }
}

// ---------------------------------------------------------------------------------------------
// Drawing the context menu.
// ---------------------------------------------------------------------------------------------

pub open spec fn label_of(action: ContextMenuAction) -> Seq<char> {
    match action {
        ContextMenuAction::Settings => "Settings"@,
        ContextMenuAction::Splash => "Splash screen"@,
        ContextMenuAction::Exit => "Exit"@,
    }
}

/// `text` padded with spaces on the right to at least `width` characters.
pub open spec fn padded(text: Seq<char>, width: int) -> Seq<char> {
    if text.len() < width {
        text + Seq::new((width - text.len()) as nat, |i: int| ' ')
    } else {
        text
    }
}

/// What a row of the menu reads: a marker on the highlighted row, and the label padded to the
/// widest.
pub open spec fn menu_row_text(action: ContextMenuAction, selected: bool) -> Seq<char> {
    (if selected { ">"@ } else { " "@ }) + " "@ + padded(label_of(action), CONTEXT_MENU_LABEL_WIDTH as int) + " "@
}

/// A row of the menu as it is drawn.
pub struct MenuRow {
    pub text: String,
    pub enabled: bool,
    pub selected: bool,
}

/// The menu as it is drawn inside `bounds`: nothing over a modal, when no menu is open, or when
/// the room left is too small for its border; otherwise its area and a row per entry.
pub open spec fn menu_drawn(v: AppView, bounds: Rect) -> Option<Rect> {
    if focus_is_modal(v.focus) {
        None
    } else {
        match area_for_bounds(v, bounds) {
            Some(area) => if area.width < 4 || area.height < 3 {
                None
            } else {
                Some(area)
            },
            None => None,
        }
    }
}

fn menu_row(action: ContextMenuAction, selected: bool) -> (text: String)
    ensures
        text@ == menu_row_text(action, selected),
{
    let mut text = String::from_str(if selected { ">" } else { " " });
    text.append(" ");
    let label = action.label();
    text.append(label);
    let n = vstd::string::StrSliceExecFns::unicode_len(label);
    let ghost start = text@;
    proof {
        reveal_strlit("Settings");
        reveal_strlit("Splash screen");
        reveal_strlit("Exit");
    }
    assert(n <= CONTEXT_MENU_LABEL_WIDTH);
    let mut k: usize = n;
    while k < CONTEXT_MENU_LABEL_WIDTH as usize
        invariant
            n <= k <= CONTEXT_MENU_LABEL_WIDTH,
            text@ == start + Seq::new((k - n) as nat, |i: int| ' '),
        decreases CONTEXT_MENU_LABEL_WIDTH - k,
    {
        text.append(" ");
        k = k + 1;
        proof {
            reveal_strlit(" ");
            assert(text@ =~= start + Seq::new((k - n) as nat, |i: int| ' '));
        }
    }
    text.append(" ");
    proof {
        assert(text@ =~= menu_row_text(action, selected));
    }
    text
}

impl App {
    /// The area the open menu is drawn in within `bounds`, with its rows, when it is drawn.
    pub fn context_menu_rows(&self, bounds: Rect) -> (r: Option<(Rect, Vec<MenuRow>)>)
        ensures
            match r {
                None => menu_drawn(self@, bounds) is None,
                Some((area, rows)) => {
                    &&& menu_drawn(self@, bounds) == Some(area)
                    &&& rows@.len() == CONTEXT_MENU_ACTIONS
                    &&& forall|i: int| 0 <= i < CONTEXT_MENU_ACTIONS ==> {
                        let row = #[trigger] rows@[i];
                        &&& row.enabled == action_enabled(self@, action_at(i))
                        &&& row.selected == (row.enabled && self@.context_menu.unwrap().selected == i)
                        &&& row.text@ == menu_row_text(action_at(i), row.selected)
                    }
                },
            },
    {
        if self.is_modal_focus() {
            return None;
        }
        let menu = match self.context_menu {
            Some(menu) => menu,
            None => return None,
        };
        let area = match self.context_menu_area_for_bounds(bounds) {
            Some(area) => area,
            None => return None,
        };
        if area.width < 4 || area.height < 3 {
            return None;
        }
        let mut rows: Vec<MenuRow> = Vec::new();
        let mut index: usize = 0;
        while index < CONTEXT_MENU_ACTIONS
            invariant
                index <= CONTEXT_MENU_ACTIONS,
                self.context_menu == Some(menu),
                rows@.len() == index,
                forall|i: int| 0 <= i < index ==> {
                    let row = #[trigger] rows@[i];
                    &&& row.enabled == action_enabled(self@, action_at(i))
                    &&& row.selected == (row.enabled && menu.selected == i)
                    &&& row.text@ == menu_row_text(action_at(i), row.selected)
                },
            decreases CONTEXT_MENU_ACTIONS - index,
        {
            let action = ContextMenuAction::at(index);
            let enabled = self.context_menu_action_enabled(action);
            let selected = enabled && index == menu.selected;
            let text = menu_row(action, selected);
            rows.push(MenuRow { text, enabled, selected });
            index = index + 1;
        }
        Some((area, rows))
    }
}

// ---------------------------------------------------------------------------------------------
// Where a new worktree goes.
// ---------------------------------------------------------------------------------------------

/// The directory a path lies in, if it has one.
pub uninterp spec fn parent_of(path: Seq<char>) -> Option<Seq<char>>;

/// The last component of a path, if it is a name.
pub uninterp spec fn file_name_of(path: Seq<char>) -> Option<Seq<char>>;

/// `name` below the directory `base`.
pub uninterp spec fn joined(base: Seq<char>, name: Seq<char>) -> Seq<char>;

/// `std::path::Path::parent`: the path without its last component, if it has one. The contract
/// names the result.
#[verifier::external_body]
fn path_parent(path: &str) -> (r: Option<String>)
    ensures
        match r {
            Some(p) => parent_of(path@) == Some(p@),
            None => parent_of(path@) is None,
        },
{
    std::path::Path::new(path).parent().map(|parent| parent.to_string_lossy().into_owned())
}

/// `std::path::Path::file_name`: the last component of the path, if it is a name. The contract
/// names the result.
#[verifier::external_body]
fn path_file_name(path: &str) -> (r: Option<String>)
    ensures
        match r {
            Some(p) => file_name_of(path@) == Some(p@),
            None => file_name_of(path@) is None,
        },
{
    std::path::Path::new(path).file_name().map(|name| name.to_string_lossy().into_owned())
}

/// `std::path::Path::join`: `name` below `base`, displayed as text. The contract names the
/// result.
#[verifier::external_body]
fn path_join(base: &str, name: &str) -> (r: String)
    ensures
        r@ == joined(base@, name@),
{
    std::path::Path::new(base).join(name).display().to_string()
}

/// Where a new worktree called `name` goes by default: beside the repository, named after it.
pub open spec fn default_worktree_location(path: Option<Seq<char>>, name: Seq<char>) -> Seq<char> {
    let current = match path {
        Some(p) => p,
        None => "."@,
    };
    let parent = match parent_of(current) {
        Some(p) => p,
        None => "."@,
    };
    let repo_name = match file_name_of(current) {
        Some(n) => n,
        None => "worktree"@,
    };
    joined(parent, repo_name + "-"@ + name)
}

impl App {
    pub fn default_worktree_path(&self, name: &str) -> (r: String)
        ensures
            r@ == default_worktree_location(self@.path, name@),
    {
        let current = match &self.path {
            Some(p) => p.clone(),
            None => String::from_str("."),
        };
        let parent = match path_parent(current.as_str()) {
            Some(p) => p,
            None => String::from_str("."),
        };
        let mut leaf = match path_file_name(current.as_str()) {
            Some(n) => n,
            None => String::from_str("worktree"),
        };
        leaf.append("-");
        leaf.append(name);
        path_join(parent.as_str(), leaf.as_str())
    }
}

} // verus!
