use lean_goalview::json::Json;
use lean_goalview::publish::{wait_left, Publisher, SETTLE_NANOS};
use lean_goalview::state::{same_cursor, Cursor, State};

fn cursor(line: u64) -> Option<Cursor> {
    Some(Cursor { uri: "file:///w/A.lean".to_string(), line, character: 0 })
}

#[test]
fn asks_once_per_position() {
    let mut s = State::new();
    let mut p = Publisher::new();
    assert!(p.fetch(&mut s).is_none());
    s.cursor = cursor(1);
    assert!(p.fetch(&mut s).is_some());
    assert_eq!(s.next_id, 2);
    assert!(same_cursor(&s.fetched_for, &s.cursor));
    assert!(p.fetch(&mut s).is_none());
    s.cursor = cursor(2);
    assert!(p.fetch(&mut s).is_some());
    assert_eq!(s.next_id, 4);
    assert!(s.pending.get("gv:3").is_some() && s.pending.get("gv:4").is_some());
    assert!(s.pending.get("gv:5").is_none());
}

#[test]
fn a_turn_settles() {
    let mut s = State::new();
    let mut p = Publisher::new();
    s.cursor = cursor(0);
    s.out_path = Some("/w/.goalview.md".to_string());
    p.fetch(&mut s);
    let w = p.file(&s).unwrap();
    p.wrote(w.content);
    let (snap, moved) = p.news(&s).unwrap();
    assert!(snap.starts_with("{\"busy\":false,\"file\":\"A.lean\""));
    assert_eq!(
        moved.as_deref(),
        Some("{\"loc\":{\"range\":{\"end\":{\"character\":0,\"line\":0},\"start\":{\"character\":0,\"line\":0}},\"uri\":\"file:///w/A.lean\"},\"t\":\"cursor\"}")
    );
    assert!(p.fetch(&mut s).is_none());
    assert!(p.file(&s).is_none());
    assert!(p.news(&s).is_none());
    assert!(p.push_cursor(&s).is_none());

    s.plain_goal = Some(Json::parse(br#"{"goals":["G"]}"#).unwrap());
    assert!(p.file(&s).is_some());
    assert!(p.news(&s).is_some());
}

#[test]
fn a_file_that_could_not_be_written_is_tried_again() {
    let mut s = State::new();
    let p = Publisher::new();
    s.out_path = Some("o".to_string());
    assert!(p.file(&s).is_some());
    assert!(p.file(&s).is_some());
}

#[test]
fn without_cursor_nothing_is_said_of_it() {
    let s = State::new();
    let mut p = Publisher::new();
    let (_, moved) = p.news(&s).unwrap();
    assert!(moved.is_none());
    assert!(p.push_cursor(&s).is_none());
}

#[test]
fn a_moved_cursor_is_pushed_though_the_goals_stay() {
    let mut s = State::new();
    let mut p = Publisher::new();
    s.cursor = cursor(3);
    assert!(p.news(&s).is_some());
    assert!(p.push_cursor(&s).is_none());

    // Another column of the same line.
    s.cursor = Some(Cursor { uri: "file:///w/A.lean".to_string(), line: 3, character: 5 });
    assert!(p.news(&s).is_none());
    assert_eq!(
        p.push_cursor(&s).as_deref(),
        Some("{\"loc\":{\"range\":{\"end\":{\"character\":5,\"line\":3},\"start\":{\"character\":5,\"line\":3}},\"uri\":\"file:///w/A.lean\"},\"t\":\"cursor\"}")
    );
    assert!(p.push_cursor(&s).is_none());

    // A file of the same name elsewhere.
    s.cursor = Some(Cursor { uri: "file:///v/A.lean".to_string(), line: 3, character: 5 });
    assert!(p.news(&s).is_none());
    assert!(p.push_cursor(&s).unwrap().contains("file:///v/A.lean"));

    // New goals at the same place say where they are once more.
    s.plain_goal = Some(Json::parse(br#"{"goals":["G"]}"#).unwrap());
    assert!(p.news(&s).unwrap().1.is_some());
    assert!(p.push_cursor(&s).is_none());
}

#[test]
fn events_settle_for_a_moment() {
    assert_eq!(SETTLE_NANOS, 120_000_000);
    assert_eq!(wait_left(0), Some(120_000_000));
    assert_eq!(wait_left(119_999_999), Some(1));
    assert_eq!(wait_left(120_000_000), Some(0));
    assert_eq!(wait_left(120_000_001), None);
    assert_eq!(wait_left(u64::MAX), None);
}
