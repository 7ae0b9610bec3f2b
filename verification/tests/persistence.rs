use todo_tui::persistence::{decode_list, encode_list};
use todo_tui::task::{Status, Task};
use todo_tui::todolist::TodoList;

fn fixed_task(
    id: &str,
    title: &str,
    notes: Option<&str>,
    priority: i8,
    status: Status,
    created_at: i64,
    timeframe: Option<&str>,
) -> Task {
    Task {
        id: id.to_string(),
        title: title.to_string(),
        notes: notes.map(|s| s.to_string()),
        priority,
        status,
        created_at,
        timeframe: timeframe.map(|s| s.to_string()),
    }
}

fn assert_same(a: &TodoList, b: &TodoList) {
    assert_eq!(a.len(), b.len());
    for (x, y) in a.items.iter().zip(b.items.iter()) {
        assert_eq!(x.id, y.id);
        assert_eq!(x.title, y.title);
        assert_eq!(x.notes, y.notes);
        assert_eq!(x.priority, y.priority);
        assert_eq!(x.status, y.status);
        assert_eq!(x.created_at, y.created_at);
        assert_eq!(x.timeframe, y.timeframe);
    }
}

#[test]
fn round_trip_empty_collection() {
    let list = TodoList::default();
    let text = encode_list(&list);
    assert_eq!(text, "0\n");
    let back = decode_list(&text).expect("empty collection must decode");
    assert!(back.is_empty());
}

#[test]
fn round_trip_preserves_every_field() {
    let mut list = TodoList::default();
    list.add_task(fixed_task("id-1", "Write spec", None, 1, Status::Pending, 100, None));
    list.add_task(fixed_task(
        "id-2",
        "Ship it",
        Some("with care"),
        3,
        Status::Done,
        200,
        Some("friday"),
    ));
    list.add_task(fixed_task("id-3", "", Some(""), -7, Status::Pending, -5, None));
    let text = encode_list(&list);
    let back = decode_list(&text).expect("encoded collection must decode");
    assert_same(&list, &back);
}

#[test]
fn round_trip_through_add() {
    let mut list = TodoList::default();
    list.add("alpha", 2, Some("note".to_string()));
    list.add("beta", 1, None);
    let back = decode_list(&encode_list(&list)).expect("must decode");
    assert_same(&list, &back);
}

#[test]
fn encoding_is_exact() {
    let mut list = TodoList::default();
    list.add_task(fixed_task("a", "T", None, 2, Status::Pending, 5, None));
    assert_eq!(encode_list(&list), "1\n1:a1:T-2|P5|-\n");

    let mut two = TodoList::default();
    two.add_task(fixed_task("ab", "x\ny", Some("n"), -3, Status::Done, 12, Some("tf")));
    assert_eq!(encode_list(&two), "1\n2:ab3:x\ny+1:n-3|D12|+2:tf\n");
}

#[test]
fn decode_accepts_exact_encodings_only() {
    assert!(decode_list("1\n1:a1:T-2|P5|-\n").is_some());
    // not a document at all
    assert!(decode_list("").is_none());
    assert!(decode_list("garbage").is_none());
    // count does not match the records
    assert!(decode_list("2\n1:a1:T-2|P5|-\n").is_none());
    assert!(decode_list("0\n1:a1:T-2|P5|-\n").is_none());
    // missing header newline
    assert!(decode_list("1").is_none());
    // field length overruns the input
    assert!(decode_list("1\n9:a1:T-2|P5|-\n").is_none());
    // bad status tag
    assert!(decode_list("1\n1:a1:T-2|X5|-\n").is_none());
    // non-canonical numbers
    assert!(decode_list("01\n1:a1:T-2|P5|-\n").is_none());
    assert!(decode_list("1\n1:a1:T--0|P5|-\n").is_none());
    // priority outside the stored width
    assert!(decode_list("1\n1:a1:T-9999|P5|-\n").is_none());
    // missing final newline
    assert!(decode_list("1\n1:a1:T-2|P5|-").is_none());
    // trailing garbage
    assert!(decode_list("1\n1:a1:T-2|P5|-\nx").is_none());
}

#[test]
fn decode_handles_extreme_stored_values() {
    let mut list = TodoList::default();
    list.add_task(fixed_task(
        "m",
        "edge",
        None,
        i8::MIN,
        Status::Pending,
        i64::MIN,
        None,
    ));
    list.add_task(fixed_task("M", "edge2", None, i8::MAX, Status::Done, i64::MAX, None));
    let back = decode_list(&encode_list(&list)).expect("extremes must round-trip");
    assert_same(&list, &back);
}

#[test]
fn unicode_text_round_trips() {
    let mut list = TodoList::default();
    list.add_task(fixed_task(
        "u",
        "caf\u{e9} \u{2713} \u{1f600}",
        Some("colon: pipe| plus+ minus-"),
        2,
        Status::Pending,
        7,
        Some("ma\u{f1}ana"),
    ));
    let back = decode_list(&encode_list(&list)).expect("unicode must round-trip");
    assert_same(&list, &back);
}
