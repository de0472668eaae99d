use lean_goalview::json::Json;
use lean_goalview::render;
use lean_goalview::snapshot;
use lean_goalview::state::{Cursor, State};

fn parse(s: &str) -> Json {
    Json::parse(s.as_bytes()).unwrap()
}

fn at(uri: &str, line: u64) -> State {
    let mut s = State::new();
    s.cursor = Some(Cursor { uri: uri.to_string(), line, character: 4 });
    s
}

#[test]
fn shows_the_file_name_of_a_uri() {
    assert_eq!(render::uri_to_display("file:///home/u/A.lean"), "A.lean");
    assert_eq!(render::uri_to_display("A.lean"), "A.lean");
    assert_eq!(render::uri_to_display("file://"), "");
}

#[test]
fn marks_severities() {
    assert_eq!(render::severity_icon(1), "❌");
    assert_eq!(render::severity_icon(2), "⚠️");
    assert_eq!(render::severity_icon(3), "ℹ️");
    assert_eq!(render::severity_icon(0), "ℹ️");
}

#[test]
fn indents_a_code_block() {
    let mut out = String::from("x");
    render::code_block(&mut out, "a\n\n  b\r\n");
    assert_eq!(out, "x    a\n    \n      b\n\n");
}

#[test]
fn a_code_block_shows_its_lines() {
    let mut out = String::new();
    render::code_block(&mut out, "h : T\n⊢ G");
    let lines: Vec<&str> = out.lines().collect();
    assert_eq!(lines, vec!["    h : T", "    ⊢ G", ""]);
    let mut out = String::new();
    render::code_block(&mut out, "a\r\r\nb\r");
    let pieces: Vec<&str> = out.split('\n').collect();
    assert_eq!(pieces, vec!["    a\r", "    b\r", "", ""]);
}

#[test]
fn a_blank_page_without_cursor() {
    let s = State::new();
    assert_eq!(
        render::render(&s),
        "# Lean Goal View\n\n*Move the cursor into a Lean file…*\n"
    );
    assert_eq!(render::render(&at("", 3)), render::render(&s));
}

#[test]
fn a_page_without_goals() {
    let mut s = at("file:///w/A.lean", 4);
    assert_eq!(render::render(&s), "# A.lean:5\n\n*No tactic goals at this position.*\n\n");
    s.plain_goal = Some(Json::Null);
    s.processing.insert("file:///w/A.lean", true);
    assert_eq!(render::render(&s), "# A.lean:5  ⏳\n\n*No tactic goals at this position.*\n\n");
    s.plain_goal = Some(parse(r#"{"goals":[]}"#));
    assert_eq!(render::render(&s), "# A.lean:5  ⏳\n\n## Goals accomplished 🎉\n\n");
    s.plain_goal = Some(parse("7"));
    assert_eq!(render::render(&s), "# A.lean:5  ⏳\n\n## Goals accomplished 🎉\n\n");
}

#[test]
fn a_page_with_everything() {
    let mut s = at("file:///w/A.lean", 0);
    s.plain_goal = Some(parse(r#"{"goals":["⊢ p",3,"h : q\n⊢ r"]}"#));
    s.term_goal = Some(parse(r#"{"goal":"⊢ Nat"}"#));
    s.diagnostics.insert(
        "file:///w/A.lean",
        parse(r#"[{"range":{"start":{"line":2}},"severity":1,"message":"bad"},{}]"#),
    );
    s.diagnostics.insert("file:///w/B.lean", parse(r#"[{"message":"other"}]"#));
    assert_eq!(
        render::render(&s),
        "# A.lean:1\n\n## Tactic state · 2 goals\n\n**goal 1 / 2**\n\n    ⊢ p\n\n\
         **goal 2 / 2**\n\n    h : q\n    ⊢ r\n\n## Expected type\n\n    ⊢ Nat\n\n\
         ## Messages\n\n**❌ line 3**\n\n    bad\n\n**ℹ️ line 1**\n\n\n"
    );
}

#[test]
fn a_single_goal_is_not_numbered() {
    let mut s = at("file:///w/A.lean", 0);
    s.plain_goal = Some(parse(r#"{"goals":["⊢ p"]}"#));
    assert_eq!(render::render(&s), "# A.lean:1\n\n## Tactic state · 1 goal\n\n    ⊢ p\n\n");
}

#[test]
fn a_line_at_the_end_of_the_numbers_starts_over() {
    assert_eq!(render::from_one(u64::MAX), 0);
    assert_eq!(render::from_one(0), 1);
}

#[test]
fn the_goal_file_is_written_once() {
    let mut s = at("file:///w/A.lean", 0);
    assert!(render::write_out(&s, "").is_none());
    s.out_path = Some("/w/.goalview.md".to_string());
    let w = render::write_out(&s, "").unwrap();
    assert_eq!(w.path, "/w/.goalview.md");
    assert_eq!(w.temporary, "/w/.goalview.md.tmp");
    assert!(w.content.starts_with(&render::render(&s)));
    assert!(w.content.ends_with(
        "\n---\n\nLean: infoview window (⌘⌥I) · Lean: goals in terminal (⌘⌥L)\n"
    ));
    assert!(render::write_out(&s, &w.content).is_none());
}

#[test]
fn hover_markdown_of_the_goal() {
    let mut s = State::new();
    assert!(render::goal_hover_markdown(&s).is_none());
    s.plain_goal = Some(Json::Null);
    assert!(render::goal_hover_markdown(&s).is_none());
    s.plain_goal = Some(parse(r#"{"goals":[]}"#));
    assert_eq!(render::goal_hover_markdown(&s).unwrap(), "**Goals accomplished** 🎉");
    s.plain_goal = Some(parse(r#"{"goals":["⊢ p"]}"#));
    assert_eq!(render::goal_hover_markdown(&s).unwrap(), "```lean\n⊢ p\n```\n");
    s.plain_goal = Some(parse(r#"{"goals":["⊢ p","⊢ q"]}"#));
    assert_eq!(
        render::goal_hover_markdown(&s).unwrap(),
        "*goal 1 / 2*\n```lean\n⊢ p\n```\n*goal 2 / 2*\n```lean\n⊢ q\n```\n"
    );
}

#[test]
fn the_goal_joins_a_hover_of_any_shape() {
    let mut m = parse(r#"{"id":1,"result":null}"#);
    render::inject_goal_into_hover(&mut m, "G");
    assert_eq!(
        m.to_text(),
        r#"{"id":1,"result":{"contents":{"kind":"markdown","value":"**⊢ Goal**\n\nG"}}}"#
    );
    let mut m = parse(r#"{"id":1,"result":{"contents":{"kind":"markdown","value":"old"},"range":5}}"#);
    render::inject_goal_into_hover(&mut m, "G");
    assert_eq!(
        m.to_text(),
        r#"{"id":1,"result":{"contents":{"kind":"markdown","value":"old\n\n---\n\n**⊢ Goal**\n\nG"},"range":5}}"#
    );
    let mut m = parse(r#"{"id":1,"result":{"contents":"bare"}}"#);
    render::inject_goal_into_hover(&mut m, "G");
    assert_eq!(
        m.at("result").at("contents").at("value").as_str(),
        Some("bare\n\n---\n\n**⊢ Goal**\n\nG")
    );
    let mut m = parse(r#"{"id":1,"result":{"contents":["x"]}}"#);
    render::inject_goal_into_hover(&mut m, "G");
    assert_eq!(m.at("result").at("contents").at("value").as_str(), Some("**⊢ Goal**\n\nG"));
}

#[test]
fn snapshot_of_nothing() {
    let s = State::new();
    assert_eq!(
        snapshot::goal_json(&s),
        r#"{"busy":false,"file":"","goals":[],"line":0,"messages":[],"termGoal":null}"#
    );
    assert_eq!(snapshot::cursor_location(&s).to_text(), "null");
}

#[test]
fn snapshot_of_everything() {
    let mut s = at("file:///w/A.lean", 6);
    s.plain_goal = Some(parse(r#"{"goals":["⊢ p",3]}"#));
    s.term_goal = Some(parse(r#"{"goal":"⊢ Nat"}"#));
    s.processing.insert("file:///w/A.lean", true);
    s.diagnostics.insert(
        "file:///w/A.lean",
        parse(r#"[{"range":{"start":{"line":2}},"severity":2,"message":"m"},{}]"#),
    );
    assert_eq!(
        snapshot::goal_json(&s),
        "{\"busy\":true,\"file\":\"A.lean\",\"goals\":[\"⊢ p\",3],\"line\":7,\"messages\":\
         [{\"line\":3,\"severity\":2,\"text\":\"m\"},{\"line\":1,\"severity\":3,\"text\":\"\"}],\
         \"termGoal\":\"⊢ Nat\"}"
    );
    assert_eq!(
        snapshot::cursor_location(&s).to_text(),
        "{\"range\":{\"end\":{\"character\":4,\"line\":6},\"start\":{\"character\":4,\"line\":6}},\
         \"uri\":\"file:///w/A.lean\"}"
    );
}

#[test]
fn lines_of_the_streams() {
    assert_eq!(snapshot::socket_line("{}"), "{}\n");
    assert_eq!(snapshot::sse_event("{}"), "data: {}\n\n");
}
