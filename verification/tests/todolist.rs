use todo_tui::task::{Status, Task};
use todo_tui::todolist::TodoList;

#[test]
fn add_and_toggle() {
    let mut t = TodoList::default();
    t.add("Write tests", 1, None);
    assert_eq!(t.len(), 1);
    assert!(matches!(t.items[0].status, Status::Pending));
    t.toggle_done_index(0);
    assert!(matches!(t.items[0].status, Status::Done));
}

fn fixed_task(id: &str, title: &str, priority: i8, created_at: i64) -> Task {
    Task {
        id: id.to_string(),
        title: title.to_string(),
        notes: None,
        priority,
        status: Status::Pending,
        created_at,
        timeframe: None,
    }
}

#[test]
fn add_keeps_priority_order() {
    let mut t = TodoList::default();
    t.add("low", 5, None);
    t.add("high", 1, None);
    t.add("mid", 3, None);
    assert_eq!(t.len(), 3);
    assert_eq!(t.items[0].title, "high");
    assert_eq!(t.items[1].title, "mid");
    assert_eq!(t.items[2].title, "low");
    for w in t.items.windows(2) {
        assert!(w[0].priority <= w[1].priority);
    }
}

#[test]
fn sort_breaks_priority_ties_newest_first() {
    let mut t = TodoList::default();
    t.add_task(fixed_task("a", "old", 2, 100));
    t.add_task(fixed_task("b", "new", 2, 200));
    t.add_task(fixed_task("c", "ancient", 2, 50));
    assert_eq!(t.items[0].title, "new");
    assert_eq!(t.items[1].title, "old");
    assert_eq!(t.items[2].title, "ancient");
}

#[test]
fn toggle_twice_restores_status() {
    let mut t = TodoList::default();
    t.add("x", 2, None);
    assert!(matches!(t.items[0].status, Status::Pending));
    assert!(t.toggle_done_index(0));
    assert!(matches!(t.items[0].status, Status::Done));
    assert!(t.toggle_done_index(0));
    assert!(matches!(t.items[0].status, Status::Pending));
}

#[test]
fn out_of_range_positions_are_negative_results() {
    let mut t = TodoList::default();
    t.add("only", 1, None);
    assert!(!t.delete_index(1));
    assert!(!t.toggle_done_index(7));
    assert_eq!(t.len(), 1);
}

#[test]
fn delete_index_removes_exactly_one() {
    let mut t = TodoList::default();
    t.add_task(fixed_task("a", "first", 1, 30));
    t.add_task(fixed_task("b", "second", 2, 20));
    t.add_task(fixed_task("c", "third", 3, 10));
    assert!(t.delete_index(1));
    assert_eq!(t.len(), 2);
    assert_eq!(t.items[0].title, "first");
    assert_eq!(t.items[1].title, "third");
}

#[test]
fn find_index_by_id_finds_first_match() {
    let mut t = TodoList::default();
    t.add_task(fixed_task("aa", "one", 1, 10));
    t.add_task(fixed_task("bb", "two", 2, 10));
    assert_eq!(t.find_index_by_id("bb"), Some(1));
    assert_eq!(t.find_index_by_id("aa"), Some(0));
    assert_eq!(t.find_index_by_id("zz"), None);
}

#[test]
fn counts_track_status() {
    let mut t = TodoList::default();
    t.add("a", 1, None);
    t.add("b", 2, None);
    t.add("c", 3, None);
    assert_eq!(t.active_count(), 3);
    assert_eq!(t.done_count(), 0);
    t.toggle_done_index(1);
    assert_eq!(t.active_count(), 2);
    assert_eq!(t.done_count(), 1);
    assert!(!t.is_empty());
    assert!(TodoList::default().is_empty());
}

#[test]
fn task_new_sets_fields() {
    let t = Task::new("  title kept as given ", 4, Some("note".to_string()));
    assert_eq!(t.title, "  title kept as given ");
    assert_eq!(t.priority, 4);
    assert_eq!(t.notes.as_deref(), Some("note"));
    assert!(matches!(t.status, Status::Pending));
    assert!(t.timeframe.is_none());
    assert!(t.created_at >= 0);
    assert!(!t.is_done());
}

#[test]
fn fresh_ids_differ() {
    let a = Task::new("a", 1, None);
    let b = Task::new("b", 1, None);
    assert_ne!(a.id, b.id);
    assert!(!a.id.is_empty());
}
