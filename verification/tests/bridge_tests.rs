use lean_goalview::bridge::{
    handle_ws_message, hello, message_frame, serve_ws, Bridge, SocketAction, SocketEvent,
};
use lean_goalview::frame::{read_frame, write_frame};
use lean_goalview::json::Json;
use lean_goalview::session::from_server;
use lean_goalview::state::{Cursor, State};

fn body_of(frame: &[u8]) -> String {
    String::from_utf8(read_frame(frame).unwrap().0).unwrap()
}

#[test]
fn a_request_goes_down_and_its_answer_comes_back() {
    let mut s = State::new();
    let mut b = Bridge::new();
    let sent = handle_ws_message(
        r#"{"t":"req","seq":41,"method":"$/lean/rpc/call","params":{"p":1}}"#,
        &mut b,
        3,
    )
    .unwrap();
    assert_eq!(
        body_of(&sent),
        r#"{"id":"iv:0","jsonrpc":"2.0","method":"$/lean/rpc/call","params":{"p":1}}"#
    );
    let other = handle_ws_message(r#"{"t":"req","method":"m"}"#, &mut b, 4).unwrap();
    assert_eq!(body_of(&other), r#"{"id":"iv:1","jsonrpc":"2.0","method":"m","params":null}"#);

    let step = from_server(&mut s, &mut b, br#"{"id":"iv:0","result":[7]}"#).unwrap();
    assert!(step.to_editor.is_none() && !step.tick);
    assert_eq!(step.to_client, Some((3, r#"{"result":[7],"seq":41,"t":"res"}"#.to_string())));
    let step = from_server(&mut s, &mut b, br#"{"id":"iv:1","error":{"code":-1}}"#).unwrap();
    assert_eq!(step.to_client, Some((4, r#"{"error":{"code":-1},"seq":0,"t":"res"}"#.to_string())));

    // Nobody waits for it any more.
    let step = from_server(&mut s, &mut b, br#"{"id":"iv:0","result":[7]}"#).unwrap();
    assert!(step.to_client.is_none() && step.to_editor.is_none());
}

#[test]
fn a_notification_passes_and_the_rest_does_not() {
    let mut b = Bridge::new();
    let sent = handle_ws_message(r#"{"t":"not","method":"m","params":[1]}"#, &mut b, 0).unwrap();
    assert_eq!(body_of(&sent), r#"{"jsonrpc":"2.0","method":"m","params":[1]}"#);
    assert!(handle_ws_message(r#"{"t":"sub","method":"m"}"#, &mut b, 0).is_none());
    assert!(handle_ws_message(r#"{"method":"m"}"#, &mut b, 0).is_none());
    assert!(handle_ws_message("{", &mut b, 0).is_none());
    assert_eq!(b.counter, 0);
}

#[test]
fn the_counter_starts_over_at_its_end() {
    let mut b = Bridge::new();
    b.counter = u64::MAX;
    let sent = handle_ws_message(r#"{"t":"req"}"#, &mut b, 0).unwrap();
    assert!(body_of(&sent).contains("\"iv:18446744073709551615\""));
    assert_eq!(b.counter, 0);
}

#[test]
fn a_frame_carries_its_value() {
    let j = Json::parse(br#"{"a":["x",-1,{}]}"#).unwrap();
    let bytes = message_frame(&j);
    assert_eq!(bytes, write_frame(br#"{"a":["x",-1,{}]}"#));
    let (body, used) = read_frame(&bytes).unwrap();
    assert_eq!(used, bytes.len());
    assert!(Json::parse(&body).unwrap().same(&j));
}

#[test]
fn a_client_is_greeted_with_the_cursor() {
    let mut s = State::new();
    s.cursor = Some(Cursor { uri: "u".to_string(), line: 1, character: 2 });
    assert_eq!(
        hello(&s),
        "{\"initResult\":null,\"loc\":{\"range\":{\"end\":{\"character\":2,\"line\":1},\
         \"start\":{\"character\":2,\"line\":1}},\"uri\":\"u\"},\"t\":\"hello\"}"
    );
}

#[test]
fn answers_under_unknown_bridge_ids_are_held_back() {
    let mut s = State::new();
    let mut b = Bridge::new();
    let step = from_server(&mut s, &mut b, br#"{"id":"iv:x","result":1}"#).unwrap();
    assert!(step.to_editor.is_none() && step.to_client.is_none());
}

#[test]
fn a_connection_ends_when_the_client_hangs_up() {
    let mut b = Bridge::new();
    let text = |s: &str| SocketEvent::Message(s.to_string());
    assert!(matches!(
        serve_ws(&text(r#"{"t":"req","seq":2}"#), &mut b, 5),
        SocketAction::Relay(bytes)
            if body_of(&bytes) == r#"{"id":"iv:0","jsonrpc":"2.0","method":null,"params":null}"#
    ));
    assert_eq!(b.counter, 1);
    assert!(matches!(serve_ws(&text("x"), &mut b, 5), SocketAction::Wait));
    assert!(matches!(serve_ws(&text(r#"{"t":"sub"}"#), &mut b, 5), SocketAction::Wait));
    assert!(matches!(serve_ws(&SocketEvent::Other, &mut b, 5), SocketAction::Wait));
    assert!(matches!(serve_ws(&SocketEvent::Idle, &mut b, 5), SocketAction::Wait));
    assert!(matches!(serve_ws(&SocketEvent::Closed, &mut b, 5), SocketAction::End));
    assert!(matches!(serve_ws(&SocketEvent::Failed, &mut b, 5), SocketAction::End));
}
