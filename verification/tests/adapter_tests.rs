use lean_goalview::adapter::Session;
use lean_goalview::frame::read_frame;

fn bodies(frames: &[Vec<u8>]) -> Vec<String> {
    frames.iter().map(|f| String::from_utf8(read_frame(f).unwrap().0).unwrap()).collect()
}

fn ask(s: &mut Session, body: &str) -> Vec<String> {
    bodies(&s.handle(body.as_bytes()).frames)
}

fn command(name: &str) -> String {
    format!("{{\"type\":\"request\",\"seq\":9,\"command\":\"{name}\"}}")
}

#[test]
fn initialize_is_answered_and_announced() {
    let mut s = Session::new();
    assert_eq!(
        ask(&mut s, &command("initialize")),
        vec![
            "{\"body\":{\"supportsConfigurationDoneRequest\":true,\"supportsTerminateRequest\":true},\
             \"command\":\"initialize\",\"request_seq\":9,\"seq\":1,\"success\":true,\"type\":\"response\"}"
                .to_string(),
            r#"{"body":{},"event":"initialized","seq":2,"type":"event"}"#.to_string(),
        ]
    );
    assert_eq!(s.seq, 3);
}

#[test]
fn simple_commands_get_simple_answers() {
    let mut s = Session::new();
    for (name, body) in [
        ("launch", "{}"),
        ("attach", "{}"),
        ("setBreakpoints", r#"{"breakpoints":[]}"#),
        ("setExceptionBreakpoints", r#"{"breakpoints":[]}"#),
        ("threads", r#"{"threads":[{"id":1,"name":"Lean"}]}"#),
        (
            "scopes",
            "{\"scopes\":[{\"expensive\":false,\"name\":\"Tactic State\",\"variablesReference\":1},\
             {\"expensive\":false,\"name\":\"Messages\",\"variablesReference\":2}]}",
        ),
        ("evaluate", "{}"),
    ] {
        let seq = s.seq;
        let out = ask(&mut s, &command(name));
        assert_eq!(
            out,
            vec![format!(
                "{{\"body\":{body},\"command\":\"{name}\",\"request_seq\":9,\"seq\":{seq},\
                 \"success\":true,\"type\":\"response\"}}"
            )]
        );
    }
}

#[test]
fn the_session_stays_paused() {
    let mut s = Session::new();
    assert!(s.on_snapshot("{}").is_none());
    let out = ask(&mut s, &command("configurationDone"));
    assert_eq!(
        out[1],
        "{\"body\":{\"allThreadsStopped\":true,\"description\":\"Lean goal state\",\
         \"preserveFocusHint\":true,\"reason\":\"entry\",\"threadId\":1},\
         \"event\":\"stopped\",\"seq\":2,\"type\":\"event\"}"
    );
    assert!(s.configured);
    let out = ask(&mut s, &command("continue"));
    assert!(out[0].contains(r#""body":{"allThreadsContinued":true}"#));
    assert!(out[1].contains(r#""reason":"pause""#) && out[1].contains(r#""event":"stopped""#));
}

#[test]
fn a_snapshot_refreshes_a_configured_session() {
    let mut s = Session::new();
    ask(&mut s, &command("configurationDone"));
    let frame = s.on_snapshot("{\"file\":\"A.lean\",\"line\":3,\"goals\":[\"⊢ p\"]}\n").unwrap();
    assert_eq!(
        bodies(&[frame]),
        vec![
            "{\"body\":{\"allThreadsStopped\":true,\"description\":\"Lean goal state\",\
             \"preserveFocusHint\":true,\"reason\":\"pause\",\"threadId\":1},\
             \"event\":\"stopped\",\"seq\":3,\"type\":\"event\"}"
                .to_string()
        ]
    );
    assert!(s.on_snapshot("nonsense").is_none());
    assert_eq!(s.model.file, "A.lean");
    let out = ask(&mut s, &command("stackTrace"));
    assert!(out[0].starts_with(
        r#"{"body":{"stackFrames":[{"column":1,"id":1,"line":3,"name":"A.lean:3"}],"totalFrames":1}"#
    ));
    let out = ask(
        &mut s,
        r#"{"type":"request","seq":1,"command":"variables","arguments":{"variablesReference":100}}"#,
    );
    assert!(out[0].starts_with(
        "{\"body\":{\"variables\":[{\"name\":\"⊢\",\"value\":\"p\",\"variablesReference\":0}]}"
    ));
    let out = ask(&mut s, &command("variables"));
    assert!(out[0].starts_with("{\"body\":{\"variables\":[]}"));
}

#[test]
fn the_frame_has_a_source_where_the_path_is_known() {
    let mut s = Session::new();
    let out = ask(&mut s, &command("stackTrace"));
    assert!(out[0].starts_with(
        r#"{"body":{"stackFrames":[{"column":1,"id":1,"line":0,"name":"Lean"}],"totalFrames":1}"#
    ));
    s.on_snapshot(r#"{"file":"A.lean","path":"/w/A.lean","line":3}"#);
    let out = ask(&mut s, &command("stackTrace"));
    assert!(out[0].contains(r#""source":{"name":"A.lean","path":"/w/A.lean"}"#));
}

#[test]
fn the_session_ends_on_request() {
    for name in ["disconnect", "terminate"] {
        let mut s = Session::new();
        let step = s.handle(command(name).as_bytes());
        assert!(step.exit);
        let out = bodies(&step.frames);
        assert_eq!(out.len(), 2);
        assert_eq!(out[1], r#"{"body":{},"event":"terminated","seq":2,"type":"event"}"#);
    }
    let mut s = Session::new();
    assert!(!s.handle(command("launch").as_bytes()).exit);
}

#[test]
fn what_is_no_request_draws_nothing() {
    let mut s = Session::new();
    assert!(ask(&mut s, "nonsense").is_empty());
    assert!(ask(&mut s, r#"{"type":"event","command":"launch"}"#).is_empty());
    assert!(ask(&mut s, r#"{"command":"disconnect"}"#).is_empty());
    assert_eq!(s.seq, 1);
}

#[test]
fn messages_are_numbered_one_after_the_other() {
    let mut s = Session::new();
    ask(&mut s, &command("initialize"));
    ask(&mut s, &command("launch"));
    assert_eq!(s.seq, 4);
    s.seq = i64::MAX;
    ask(&mut s, &command("launch"));
    assert_eq!(s.seq, i64::MIN);
}

#[test]
fn a_request_without_command_is_acknowledged() {
    let mut s = Session::new();
    assert_eq!(
        ask(&mut s, r#"{"type":"request"}"#),
        vec![
            r#"{"body":{},"command":null,"request_seq":null,"seq":1,"success":true,"type":"response"}"#
                .to_string()
        ]
    );
}
