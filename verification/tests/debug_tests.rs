use lean_goalview::debug::{parse_goal, rebuild, single_line, Model, Var};
use lean_goalview::json::Json;
use lean_goalview::snapshot;
use lean_goalview::state::{Cursor, State};

fn pairs(vars: &[Var]) -> Vec<(String, String, i64)> {
    vars.iter().map(|v| (v.name.clone(), v.value.clone(), v.reference)).collect()
}

fn leaf(name: &str, value: &str) -> (String, String, i64) {
    (name.to_string(), value.to_string(), 0)
}

fn model(snap: &str) -> Model {
    let mut m = Model::new();
    rebuild(&mut m, &Json::parse(snap.as_bytes()).unwrap());
    m
}

#[test]
fn puts_a_text_on_one_line() {
    assert_eq!(single_line("  a\n\t b  c\r\n"), "a b c");
    assert_eq!(single_line(" \n "), "");
    let once = single_line("x  y\n z");
    assert_eq!(single_line(&once), once);
}

#[test]
fn reads_a_printed_goal_back() {
    assert_eq!(
        pairs(&parse_goal("case inl\nx y : Nat\nh : x = y : Prop\n⊢ y = x")),
        vec![
            leaf("case", "inl"),
            leaf("x y", "Nat"),
            leaf("h", "x = y : Prop"),
            leaf("⊢", "y = x"),
        ]
    );
}

#[test]
fn wrapped_lines_continue_the_one_before() {
    assert_eq!(
        pairs(&parse_goal("  lost\n\nh : a ∧\n    b : c \n⊢ p\nq\n")),
        vec![leaf("h", "a ∧ b : c"), leaf("⊢", "p q")]
    );
    assert_eq!(parse_goal("").len(), 0);
}

#[test]
fn a_goal_without_target_shows_none() {
    let m = model(r#"{"goals":["h : p"]}"#);
    assert_eq!(pairs(&m.root), vec![("goal".to_string(), "⊢ ".to_string(), 100)]);
}

#[test]
fn a_model_without_goals() {
    let m = model(r#"{"goals":[],"line":0}"#);
    assert_eq!(pairs(&m.root), vec![leaf("state", "no goals at this position")]);
    assert_eq!(m.line, 1);
    let m = model(r#"{"busy":true,"line":-4,"termGoal":"⊢ Nat →\n Nat"}"#);
    assert_eq!(
        pairs(&m.root),
        vec![leaf("state", "⏳ elaborating…"), leaf("expected type", "Nat → Nat")]
    );
    assert_eq!(m.line, 1);
}

#[test]
fn goals_open_into_their_variables() {
    let m = model(
        r#"{"file":"A.lean","path":"/w/A.lean","line":7,"goals":["h : p\n⊢ q\n  r",3,"⊢ s"],"messages":[{"severity":1,"line":2,"text":"a\n b"},{}]}"#,
    );
    assert_eq!((m.file.as_str(), m.path.as_str(), m.line), ("A.lean", "/w/A.lean", 7));
    assert_eq!(
        pairs(&m.root),
        vec![
            ("goal 1".to_string(), "⊢ q r".to_string(), 100),
            ("goal 2".to_string(), "⊢ s".to_string(), 101),
        ]
    );
    assert_eq!(pairs(m.children(100).unwrap()), vec![leaf("h", "p"), leaf("⊢", "q r")]);
    assert_eq!(pairs(m.children(101).unwrap()), vec![leaf("⊢", "s")]);
    assert_eq!(pairs(m.children(1).unwrap()), pairs(&m.root));
    assert_eq!(
        pairs(m.children(2).unwrap()),
        vec![leaf("❌ line 2", "a b"), leaf("ℹ️ line 0", "")]
    );
    assert!(m.children(0).is_none() && m.children(102).is_none() && m.children(-1).is_none());
}

#[test]
fn the_panel_shows_the_snapshot_of_the_proxy() {
    let mut s = State::new();
    s.cursor = Some(Cursor { uri: "file:///w/A.lean".to_string(), line: 4, character: 0 });
    s.plain_goal = Some(Json::parse(r#"{"goals":["⊢ p"]}"#.as_bytes()).unwrap());
    s.diagnostics.insert("file:///w/A.lean", Json::parse(br#"[{"message":"m"}]"#).unwrap());
    let m = model(&snapshot::goal_json(&s));
    assert_eq!((m.file.as_str(), m.line), ("A.lean", 5));
    assert_eq!(pairs(&m.root), vec![("goal".to_string(), "⊢ p".to_string(), 100)]);
    assert_eq!(pairs(&m.messages), vec![leaf("ℹ️ line 1", "m")]);
}

#[test]
fn the_socket_fills_the_panel() {
    let mut s = State::new();
    s.cursor = Some(Cursor { uri: "file:///w/A.lean".to_string(), line: 4, character: 0 });
    s.plain_goal = Some(Json::parse("{\"goals\":[\"h : p\\n⊢ q\"]}".as_bytes()).unwrap());
    let line = snapshot::socket_line(&snapshot::goal_json(&s));
    assert_eq!(line.lines().count(), 1);
    assert_eq!(snapshot::sse_event(line.trim_end()).lines().count(), 2);
    let mut session = lean_goalview::adapter::Session::new();
    session.on_snapshot(&line);
    assert_eq!(session.model.file, "A.lean");
    assert_eq!(pairs(&session.model.goals[0]), vec![leaf("h", "p"), leaf("⊢", "q")]);
}
