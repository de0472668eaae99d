use lean_goalview::bridge::Bridge;
use lean_goalview::frame::{read_frame, write_frame};
use lean_goalview::json::Json;
use lean_goalview::publish::Publisher;
use lean_goalview::session::{from_editor, from_server, ServerStep};
use lean_goalview::state::State;

fn editor(state: &mut State, body: &str) -> lean_goalview::session::EditorStep {
    from_editor(state, body.as_bytes(), &None)
}

fn server(state: &mut State, bridge: &mut Bridge, body: &str) -> ServerStep {
    from_server(state, bridge, body.as_bytes()).unwrap()
}

fn body_of(frame: &[u8]) -> String {
    let (body, used) = read_frame(frame).unwrap();
    assert_eq!(used, frame.len());
    String::from_utf8(body).unwrap()
}

const HOVER: &str = r#"{"id":7,"method":"textDocument/hover","params":{"textDocument":{"uri":"file:///w/A.lean"},"position":{"line":3,"character":9}}}"#;

#[test]
fn initialize_sets_the_goal_file() {
    let mut s = State::new();
    let body = r#"{"id":0,"method":"initialize","params":{"rootUri":"file:///w"}}"#;
    let step = editor(&mut s, body);
    assert_eq!(step.to_server, Some(write_frame(body.as_bytes())));
    assert!(step.to_editor.is_none() && !step.tick && !step.open_window);
    assert_eq!(s.out_path.as_deref(), Some("/w/.goalview.md"));
    assert_eq!(s.init_id.as_ref().unwrap().as_u64(), Some(0));

    let mut s = State::new();
    editor(&mut s, r#"{"method":"initialize","params":{"workspaceFolders":[{"uri":"file:///v"}]}}"#);
    assert_eq!(s.out_path.as_deref(), Some("/v/.goalview.md"));
    editor(&mut s, r#"{"method":"initialize","params":{"rootUri":"untitled:x"}}"#);
    assert_eq!(s.out_path.as_deref(), Some("./.goalview.md"));
    editor(&mut s, r#"{"method":"initialize"}"#);
    assert_eq!(s.out_path.as_deref(), Some("./.goalview.md"));
    from_editor(&mut s, br#"{"method":"initialize"}"#, &Some("/x/out.md".to_string()));
    assert_eq!(s.out_path.as_deref(), Some("/x/out.md"));
}

#[test]
fn the_cursor_leaks_out_of_three_requests() {
    let mut s = State::new();
    let step = editor(&mut s, HOVER);
    assert!(step.tick);
    assert_eq!(step.to_server, Some(write_frame(HOVER.as_bytes())));
    let c = s.cursor.as_ref().unwrap();
    assert_eq!((c.uri.as_str(), c.line, c.character), ("file:///w/A.lean", 3, 9));
    assert!(s.pending_hovers.contains(&7));

    let step = editor(&mut s, r#"{"id":8,"method":"textDocument/codeAction","params":{"textDocument":{"uri":"B.lean"},"range":{"start":{"line":1,"character":2}}}}"#);
    assert!(step.tick);
    let c = s.cursor.as_ref().unwrap();
    assert_eq!((c.uri.as_str(), c.line, c.character), ("B.lean", 1, 2));
    assert!(s.pending_actions.contains(&Json::Unsigned(8)) && !s.pending_hovers.contains(&8));

    let step = editor(&mut s, r#"{"id":9,"method":"textDocument/documentHighlight","params":{"textDocument":{"uri":"C.lean"},"position":{}}}"#);
    assert!(step.tick);
    let c = s.cursor.as_ref().unwrap();
    assert_eq!((c.uri.as_str(), c.line, c.character), ("C.lean", 0, 0));
}

#[test]
fn other_files_and_other_methods_move_nothing() {
    let mut s = State::new();
    assert!(!editor(&mut s, r#"{"id":8,"method":"textDocument/hover","params":{"textDocument":{"uri":"a.md"}}}"#).tick);
    assert!(!editor(&mut s, r#"{"id":8,"method":"textDocument/definition","params":{"textDocument":{"uri":"a.lean"}}}"#).tick);
    assert!(s.cursor.is_none() && s.pending_hovers.is_empty());
}

#[test]
fn what_is_no_json_passes_both_ways() {
    let mut s = State::new();
    let mut b = Bridge::new();
    let step = editor(&mut s, "nonsense");
    assert_eq!(step.to_server, Some(write_frame(b"nonsense")));
    let step = server(&mut s, &mut b, "nonsense");
    assert_eq!(step.to_editor, Some(write_frame(b"nonsense")));
    assert!(step.to_all.is_none() && step.to_client.is_none() && !step.tick);
}

#[test]
fn the_own_command_is_answered_here() {
    let mut s = State::new();
    let step = editor(&mut s, r#"{"id":5,"method":"workspace/executeCommand","params":{"command":"lean-goalview.openInfoview"}}"#);
    assert!(step.open_window && step.to_server.is_none());
    assert_eq!(body_of(&step.to_editor.unwrap()), r#"{"id":5,"jsonrpc":"2.0","result":null}"#);
    let other = r#"{"id":6,"method":"workspace/executeCommand","params":{"command":"x"}}"#;
    let step = editor(&mut s, other);
    assert!(!step.open_window);
    assert_eq!(step.to_server, Some(write_frame(other.as_bytes())));
}

#[test]
fn goals_arrive_and_are_not_forwarded() {
    let mut s = State::new();
    let mut b = Bridge::new();
    let mut p = Publisher::new();
    editor(&mut s, HOVER);
    let (goal, term) = p.fetch(&mut s).unwrap();
    assert_eq!(
        body_of(&goal),
        "{\"id\":\"gv:1\",\"jsonrpc\":\"2.0\",\"method\":\"$/lean/plainGoal\",\"params\":\
         {\"position\":{\"character\":9,\"line\":3},\"textDocument\":{\"uri\":\"file:///w/A.lean\"}}}"
    );
    assert_eq!(
        body_of(&term),
        "{\"id\":\"gv:2\",\"jsonrpc\":\"2.0\",\"method\":\"$/lean/plainTermGoal\",\"params\":\
         {\"position\":{\"character\":9,\"line\":3},\"textDocument\":{\"uri\":\"file:///w/A.lean\"}}}"
    );
    assert!(p.fetch(&mut s).is_none());

    let step = server(&mut s, &mut b, r#"{"id":"gv:1","result":{"goals":["⊢ p"]}}"#);
    assert!(step.tick && step.to_editor.is_none());
    assert_eq!(s.plain_goal.as_ref().unwrap().to_text(), r#"{"goals":["⊢ p"]}"#);
    let step = server(&mut s, &mut b, r#"{"id":"gv:2","result":{"goal":"⊢ q"}}"#);
    assert!(step.tick && step.to_editor.is_none());
    assert_eq!(s.term_goal.as_ref().unwrap().to_text(), r#"{"goal":"⊢ q"}"#);

    // The same answer again finds nobody waiting.
    let step = server(&mut s, &mut b, r#"{"id":"gv:1","result":null}"#);
    assert!(!step.tick && step.to_editor.is_none());
    assert_eq!(s.plain_goal.as_ref().unwrap().to_text(), r#"{"goals":["⊢ p"]}"#);
}

#[test]
fn an_empty_answer_clears_the_expected_type() {
    let mut s = State::new();
    let mut b = Bridge::new();
    let mut p = Publisher::new();
    editor(&mut s, HOVER);
    p.fetch(&mut s);
    s.term_goal = Some(Json::Unsigned(1));
    server(&mut s, &mut b, r#"{"id":"gv:2","result":null}"#);
    assert!(s.term_goal.is_none());
    server(&mut s, &mut b, r#"{"id":"gv:1"}"#);
    assert!(s.plain_goal.as_ref().unwrap().is_null());
}

#[test]
fn a_request_of_the_server_under_an_own_looking_id_passes() {
    let mut s = State::new();
    let mut b = Bridge::new();
    let body = r#"{"id":"gv:1","method":"workspace/configuration"}"#;
    let step = server(&mut s, &mut b, body);
    assert_eq!(step.to_editor, Some(write_frame(body.as_bytes())));
    assert!(step.to_all.is_none());
}

#[test]
fn hover_answers_are_enriched_once() {
    let mut s = State::new();
    let mut b = Bridge::new();
    editor(&mut s, HOVER);
    s.plain_goal = Some(Json::parse(br#"{"goals":["G"]}"#).unwrap());
    let body = r#"{"id":7,"result":null}"#;
    let step = server(&mut s, &mut b, body);
    assert_eq!(
        body_of(&step.to_editor.unwrap()),
        r#"{"id":7,"result":{"contents":{"kind":"markdown","value":"**⊢ Goal**\n\n```lean\nG\n```\n"}}}"#
    );
    let step = server(&mut s, &mut b, body);
    assert_eq!(step.to_editor, Some(write_frame(body.as_bytes())));
}

#[test]
fn a_hover_without_goal_passes_as_it_is() {
    let mut s = State::new();
    let mut b = Bridge::new();
    editor(&mut s, HOVER);
    let body = r#"{"id":7,  "result":[1]}"#;
    let step = server(&mut s, &mut b, body);
    assert_eq!(step.to_editor, Some(write_frame(body.as_bytes())));
    assert!(s.pending_hovers.is_empty());
}

#[test]
fn a_hover_without_room_changes_nothing() {
    let mut s = State::new();
    let mut b = Bridge::new();
    editor(&mut s, HOVER);
    s.plain_goal = Some(Json::parse(br#"{"goals":["G"]}"#).unwrap());
    assert!(from_server(&mut s, &mut b, br#"{"id":7,"result":[1]}"#).is_none());
    assert!(s.pending_hovers.contains(&7));
}

#[test]
fn code_action_answers_get_one_action_more() {
    let request = |id: u64, context: &str| {
        format!(
            "{{\"id\":{id},\"method\":\"textDocument/codeAction\",\"params\":{{\"textDocument\":\
             {{\"uri\":\"A.lean\"}},\"range\":{{}},\"context\":{context}}}}}"
        )
    };
    let mut s = State::new();
    let mut b = Bridge::new();
    editor(&mut s, &request(1, "{}"));
    let step = server(&mut s, &mut b, r#"{"id":1,"result":[{"title":"fix"}]}"#);
    assert_eq!(
        body_of(&step.to_editor.unwrap()),
        "{\"id\":1,\"result\":[{\"title\":\"fix\"},{\"command\":{\"command\":\
         \"lean-goalview.openInfoview\",\"title\":\"Lean: open infoview\"},\
         \"title\":\"Lean: open infoview\"}]}"
    );
    editor(&mut s, &request(2, "{\"triggerKind\":1}"));
    let step = server(&mut s, &mut b, r#"{"id":2,"result":null}"#);
    let answer = Json::parse(body_of(&step.to_editor.unwrap()).as_bytes()).unwrap();
    assert_eq!(answer.at("result").count(), 1);

    // An automatic request and an error are left alone.
    editor(&mut s, &request(3, "{\"triggerKind\":2}"));
    let body = r#"{"id":3,"result":[]}"#;
    assert_eq!(server(&mut s, &mut b, body).to_editor, Some(write_frame(body.as_bytes())));
    editor(&mut s, &request(4, "{}"));
    let body = r#"{"id":4,"error":{"code":1}}"#;
    assert_eq!(server(&mut s, &mut b, body).to_editor, Some(write_frame(body.as_bytes())));
    assert!(s.pending_actions.items.is_empty());
}

#[test]
fn diagnostics_and_progress_are_noted_and_mirrored() {
    let mut s = State::new();
    let mut b = Bridge::new();
    editor(&mut s, HOVER);
    let body = r#"{"method":"textDocument/publishDiagnostics","params":{"uri":"file:///w/A.lean","diagnostics":[1]}}"#;
    let step = server(&mut s, &mut b, body);
    assert!(step.tick);
    assert_eq!(step.to_editor, Some(write_frame(body.as_bytes())));
    assert_eq!(
        step.to_all.as_deref(),
        Some("{\"method\":\"textDocument/publishDiagnostics\",\"params\":{\"diagnostics\":[1],\"uri\":\"file:///w/A.lean\"},\"t\":\"srvNot\"}")
    );
    assert_eq!(s.diagnostics.get("file:///w/A.lean").unwrap().to_text(), "[1]");

    let step = server(&mut s, &mut b, r#"{"method":"textDocument/publishDiagnostics","params":{"uri":"x","diagnostics":[]}}"#);
    assert!(!step.tick);

    let step = server(&mut s, &mut b, r#"{"method":"$/lean/fileProgress","params":{"textDocument":{"uri":"u"},"processing":[{}]}}"#);
    assert!(step.tick);
    assert_eq!(s.processing.get("u"), Some(&true));
    server(&mut s, &mut b, r#"{"method":"$/lean/fileProgress","params":{"textDocument":{"uri":"u"},"processing":[]}}"#);
    assert_eq!(s.processing.get("u"), Some(&false));
}

#[test]
fn the_initialize_result_reaches_the_clients() {
    let mut s = State::new();
    let mut b = Bridge::new();
    editor(&mut s, r#"{"id":"abc","method":"initialize","params":{}}"#);
    let body = r#"{"id":"abc","result":{"capabilities":{}}}"#;
    let step = server(&mut s, &mut b, body);
    assert_eq!(step.to_editor, Some(write_frame(body.as_bytes())));
    assert_eq!(
        step.to_all.as_deref(),
        Some(r#"{"initResult":{"capabilities":{}},"t":"restart"}"#)
    );
    assert_eq!(
        lean_goalview::bridge::hello(&s),
        r#"{"initResult":{"capabilities":{}},"loc":null,"t":"hello"}"#
    );
    // An error or another id is no such answer.
    let mut s = State::new();
    editor(&mut s, r#"{"id":1,"method":"initialize","params":{}}"#);
    assert!(server(&mut s, &mut b, r#"{"id":1,"error":{}}"#).to_all.is_none());
    assert!(server(&mut s, &mut b, r#"{"id":2,"result":{}}"#).to_all.is_none());
    assert!(s.init_result.is_none());
}

#[test]
fn a_quiet_message_leaves_the_view_alone() {
    let mut s = State::new();
    let mut b = Bridge::new();
    editor(&mut s, HOVER);
    let before = lean_goalview::render::render(&s);
    let step = server(&mut s, &mut b, r#"{"method":"textDocument/publishDiagnostics","params":{"uri":"other.lean","diagnostics":[{}]}}"#);
    assert!(!step.tick);
    assert_eq!(lean_goalview::render::render(&s), before);
}

#[test]
fn code_action_requests_may_have_any_id() {
    for id in ["\"abc\"", "-7", "0", "18446744073709551615", "\"\""] {
        let mut s = State::new();
        let mut b = Bridge::new();
        editor(
            &mut s,
            &format!(
                "{{\"id\":{id},\"method\":\"textDocument/codeAction\",\"params\":\
                 {{\"textDocument\":{{\"uri\":\"A.lean\"}}}}}}"
            ),
        );
        let other = r#"{"id":"other","result":[]}"#;
        assert_eq!(server(&mut s, &mut b, other).to_editor, Some(write_frame(other.as_bytes())));
        let body = format!("{{\"id\":{id},\"result\":[]}}");
        let step = server(&mut s, &mut b, &body);
        let answer = Json::parse(body_of(&step.to_editor.unwrap()).as_bytes()).unwrap();
        assert_eq!(answer.at("result").count(), 1);
        let step = server(&mut s, &mut b, &body);
        assert_eq!(step.to_editor, Some(write_frame(body.as_bytes())));
    }
}

#[test]
fn a_request_of_the_server_is_no_answer() {
    let mut s = State::new();
    let mut b = Bridge::new();
    editor(&mut s, HOVER);
    editor(&mut s, r#"{"id":8,"method":"textDocument/codeAction","params":{"textDocument":{"uri":"A.lean"}}}"#);
    s.plain_goal = Some(Json::parse(br#"{"goals":["G"]}"#).unwrap());
    for id in [7, 8] {
        let body = format!("{{\"id\":{id},\"method\":\"workspace/configuration\"}}");
        let step = server(&mut s, &mut b, &body);
        assert_eq!(step.to_editor, Some(write_frame(body.as_bytes())));
    }
    assert!(s.pending_hovers.contains(&7));
    assert!(s.pending_actions.contains(&Json::Unsigned(8)));
}
