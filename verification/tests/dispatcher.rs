use todo_tui::app::{App, InputMode, InsertField, MapView, StatusLine};
use todo_tui::input::{handle_event, Event, KeyCode};
use todo_tui::task::Status;
use todo_tui::todolist::TodoList;

fn fresh() -> App {
    App::new(TodoList::default())
}

fn key(app: &mut App, code: KeyCode) -> bool {
    handle_event(app, Event::Key(code))
}

fn type_str(app: &mut App, s: &str) {
    for c in s.chars() {
        key(app, KeyCode::Char(c));
    }
}

#[test]
fn scenario_two_adds_show_in_priority_order() {
    let mut app = fresh();
    app.list.add("Write spec", 1, None);
    app.list.add("Ship", 3, None);
    let visible = app.visible_indices();
    assert_eq!(visible, vec![0, 1]);
    assert_eq!(app.list.items[0].title, "Write spec");
    assert_eq!(app.list.items[0].priority, 1);
    assert_eq!(app.list.items[1].title, "Ship");
    assert_eq!(app.list.items[1].priority, 3);
}

#[test]
fn scenario_delete_middle_then_clamp() {
    let mut app = fresh();
    app.list.add("a", 1, None);
    app.list.add("b", 2, None);
    app.list.add("c", 3, None);
    key(&mut app, KeyCode::Down);
    assert_eq!(app.selected, 1);
    assert!(app.list.delete_index(1));
    assert_eq!(app.list.len(), 2);
    app.clamp_selection();
    assert_eq!(app.selected, 1);
    assert!(app.list.delete_index(1));
    app.clamp_selection();
    assert_eq!(app.selected, 0);
    assert!(app.list.delete_index(0));
    app.clamp_selection();
    assert_eq!(app.selected, 0);
}

#[test]
fn scenario_cancel_discards_draft_and_next_insert_is_clean() {
    let mut app = fresh();
    app.list.add("keep me", 2, None);
    assert!(key(&mut app, KeyCode::Char('a')));
    assert!(matches!(app.input_mode, InputMode::Insert));
    type_str(&mut app, "half-typed");
    assert_eq!(app.draft_title.iter().collect::<String>(), "half-typed");
    assert!(key(&mut app, KeyCode::Esc));
    assert!(matches!(app.input_mode, InputMode::Normal));
    assert!(matches!(app.status_line, StatusLine::Cancelled));
    assert_eq!(app.list.len(), 1);
    key(&mut app, KeyCode::Char('a'));
    assert!(app.draft_title.is_empty());
    assert!(app.draft_notes.is_empty());
    assert!(app.draft_timeframe.is_empty());
    assert_eq!(app.draft_priority, 1);
}

#[test]
fn scenario_confirm_with_blank_title_stays_in_insert() {
    let mut app = fresh();
    key(&mut app, KeyCode::Char('a'));
    type_str(&mut app, "   ");
    key(&mut app, KeyCode::Enter);
    assert!(matches!(app.input_mode, InputMode::Insert));
    assert!(matches!(app.status_line, StatusLine::TitleEmpty));
    assert_eq!(app.list.len(), 0);
    assert!(!app.dirty);
}

#[test]
fn commit_adds_trimmed_task_and_marks_dirty() {
    let mut app = fresh();
    key(&mut app, KeyCode::Char('a'));
    type_str(&mut app, "  Pack bags  ");
    key(&mut app, KeyCode::Tab);
    assert!(matches!(app.insert_field, InsertField::Notes));
    type_str(&mut app, " passport ");
    key(&mut app, KeyCode::Tab);
    assert!(matches!(app.insert_field, InsertField::Time));
    type_str(&mut app, "friday");
    key(&mut app, KeyCode::Tab);
    assert!(matches!(app.insert_field, InsertField::Priority));
    key(&mut app, KeyCode::Right);
    key(&mut app, KeyCode::Right);
    assert_eq!(app.draft_priority, 3);
    key(&mut app, KeyCode::Enter);
    assert!(matches!(app.input_mode, InputMode::Normal));
    assert!(matches!(app.status_line, StatusLine::Added));
    assert!(app.dirty);
    assert_eq!(app.list.len(), 1);
    let t = &app.list.items[0];
    assert_eq!(t.title, "Pack bags");
    assert_eq!(t.notes.as_deref(), Some("passport"));
    assert_eq!(t.timeframe.as_deref(), Some("friday"));
    assert_eq!(t.priority, 3);
    assert!(matches!(t.status, Status::Pending));
}

#[test]
fn commit_with_blank_notes_stores_none() {
    let mut app = fresh();
    key(&mut app, KeyCode::Char('a'));
    type_str(&mut app, "t");
    key(&mut app, KeyCode::Tab);
    type_str(&mut app, "   ");
    key(&mut app, KeyCode::Enter);
    assert_eq!(app.list.items[0].notes, None);
    assert_eq!(app.list.items[0].timeframe, None);
}

#[test]
fn priority_arrows_clamp_to_range() {
    let mut app = fresh();
    key(&mut app, KeyCode::Char('a'));
    key(&mut app, KeyCode::Tab);
    key(&mut app, KeyCode::Tab);
    key(&mut app, KeyCode::Tab);
    assert!(matches!(app.insert_field, InsertField::Priority));
    key(&mut app, KeyCode::Left);
    assert_eq!(app.draft_priority, 1);
    for _ in 0..9 {
        key(&mut app, KeyCode::Down);
    }
    assert_eq!(app.draft_priority, 5);
    key(&mut app, KeyCode::Up);
    assert_eq!(app.draft_priority, 4);
}

#[test]
fn backspace_edits_active_field_only() {
    let mut app = fresh();
    key(&mut app, KeyCode::Char('a'));
    type_str(&mut app, "abc");
    key(&mut app, KeyCode::Backspace);
    assert_eq!(app.draft_title.iter().collect::<String>(), "ab");
    key(&mut app, KeyCode::Backspace);
    key(&mut app, KeyCode::Backspace);
    key(&mut app, KeyCode::Backspace);
    assert!(app.draft_title.is_empty());
}

#[test]
fn quit_key_stops_the_loop_and_changes_nothing() {
    let mut app = fresh();
    app.list.add("x", 1, None);
    assert!(!key(&mut app, KeyCode::Char('q')));
    assert_eq!(app.list.len(), 1);
    assert!(matches!(app.input_mode, InputMode::Normal));
}

#[test]
fn enter_toggles_selected_task() {
    let mut app = fresh();
    app.list.add("x", 1, None);
    assert!(key(&mut app, KeyCode::Enter));
    assert!(matches!(app.list.items[0].status, Status::Done));
    assert!(matches!(app.status_line, StatusLine::Toggled));
    assert!(app.dirty);
    key(&mut app, KeyCode::Enter);
    assert!(matches!(app.list.items[0].status, Status::Pending));
}

#[test]
fn enter_on_empty_list_is_ignored() {
    let mut app = fresh();
    assert!(key(&mut app, KeyCode::Enter));
    assert!(!app.dirty);
    assert!(matches!(app.status_line, StatusLine::Blank));
}

#[test]
fn delete_key_deletes_and_clamps() {
    let mut app = fresh();
    app.list.add("a", 1, None);
    app.list.add("b", 2, None);
    key(&mut app, KeyCode::Down);
    assert_eq!(app.selected, 1);
    key(&mut app, KeyCode::Char('d'));
    assert_eq!(app.list.len(), 1);
    assert_eq!(app.selected, 0);
    assert!(matches!(app.status_line, StatusLine::Deleted));
    key(&mut app, KeyCode::Char('d'));
    assert_eq!(app.list.len(), 0);
    assert_eq!(app.selected, 0);
}

#[test]
fn selection_stops_at_both_ends() {
    let mut app = fresh();
    app.list.add("a", 1, None);
    app.list.add("b", 2, None);
    key(&mut app, KeyCode::Up);
    assert_eq!(app.selected, 0);
    key(&mut app, KeyCode::Down);
    key(&mut app, KeyCode::Down);
    key(&mut app, KeyCode::Down);
    assert_eq!(app.selected, 1);
}

#[test]
fn tab_keys_cycle_tabs_both_ways() {
    let mut app = fresh();
    assert_eq!(app.tabs.index, 0);
    key(&mut app, KeyCode::Tab);
    assert_eq!(app.tabs.index, 1);
    key(&mut app, KeyCode::Right);
    assert_eq!(app.tabs.index, 2);
    key(&mut app, KeyCode::Char('l'));
    assert_eq!(app.tabs.index, 0);
    key(&mut app, KeyCode::BackTab);
    assert_eq!(app.tabs.index, 2);
    key(&mut app, KeyCode::Char('h'));
    assert_eq!(app.tabs.index, 1);
    key(&mut app, KeyCode::Left);
    assert_eq!(app.tabs.index, 0);
}

#[test]
fn toggle_keys_flip_visual_state() {
    let mut app = fresh();
    key(&mut app, KeyCode::Char(' '));
    assert!(app.expanded);
    assert!(matches!(app.status_line, StatusLine::Expanded));
    key(&mut app, KeyCode::Char(' '));
    assert!(!app.expanded);
    assert!(matches!(app.status_line, StatusLine::Collapsed));
    key(&mut app, KeyCode::Char('m'));
    assert!(matches!(app.map_view, MapView::Nyc));
    key(&mut app, KeyCode::Char('t'));
    assert!(!app.show_chart);
    key(&mut app, KeyCode::Char('g'));
    assert!(!app.enhanced_graphics);
    key(&mut app, KeyCode::Char('s'));
    assert!(app.dirty);
    assert!(matches!(app.status_line, StatusLine::Saved));
}

#[test]
fn unknown_keys_and_events_are_ignored() {
    let mut app = fresh();
    app.list.add("x", 1, None);
    assert!(key(&mut app, KeyCode::Char('z')));
    assert!(key(&mut app, KeyCode::Other));
    assert!(handle_event(&mut app, Event::Resize(80, 24)));
    assert!(handle_event(&mut app, Event::Other));
    assert_eq!(app.list.len(), 1);
    assert!(!app.dirty);
}

#[test]
fn counts_by_priority_clamps_display_range() {
    let mut app = fresh();
    app.list.add("p0", 0, None);
    app.list.add("p1", 1, None);
    app.list.add("p5", 5, None);
    app.list.add("p9", 9, None);
    let c = app.counts_by_priority();
    assert_eq!(c, [2, 0, 0, 0, 2]);
}
