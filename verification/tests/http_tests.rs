use lean_goalview::http::{
    content_type, events_head, file_head, handshake, missing_head, read_header, request_path,
    requested,
    route, Route, END_PORT, FIRST_PORT,
};

#[test]
fn media_types_go_by_extension() {
    assert_eq!(content_type("a/index.html"), "text/html; charset=utf-8");
    assert_eq!(content_type("x.js"), "text/javascript; charset=utf-8");
    assert_eq!(content_type("x.min.css"), "text/css; charset=utf-8");
    assert_eq!(content_type("x.ttf"), "font/ttf");
    assert_eq!(content_type("x.svg"), "image/svg+xml");
    assert_eq!(content_type("x.json"), "application/json");
    assert_eq!(content_type("x.HTML"), "application/octet-stream");
    assert_eq!(content_type("html"), "text/html; charset=utf-8");
}

#[test]
fn reads_the_request_line() {
    assert_eq!(request_path("GET /ws HTTP/1.1\r\n"), "/ws");
    assert_eq!(request_path("GET\r\n"), "/");
    assert_eq!(request_path(""), "/");
}

#[test]
fn keeps_the_last_handshake_key() {
    let mut key = String::new();
    assert!(read_header(&mut key, "Host: x\r\n"));
    assert!(read_header(&mut key, "Sec-WebSocket-Key: a \r\n"));
    assert!(read_header(&mut key, "Sec-WebSocket-Key:b\r\n"));
    assert!(read_header(&mut key, "sec-websocket-key: c\r\n"));
    assert!(!read_header(&mut key, "\r\n"));
    assert_eq!(key, "b");
}

#[test]
fn accepts_the_handshake_of_the_protocol() {
    match route("/ws", "dGhlIHNhbXBsZSBub25jZQ==") {
        Route::Bridge(head) => {
            assert_eq!(head, handshake("s3pPLMBiTxaQ9kYGzzhZRbK+xOo="));
            assert_eq!(
                head,
                "HTTP/1.1 101 Switching Protocols\r\nUpgrade: websocket\r\nConnection: Upgrade\r\n\
                 Sec-WebSocket-Accept: s3pPLMBiTxaQ9kYGzzhZRbK+xOo=\r\n\r\n"
            );
        }
        _ => panic!("no bridge"),
    }
}

#[test]
fn routes_by_path() {
    assert!(matches!(route("/ws", ""), Route::File(f) if f == "ws"));
    assert!(matches!(route("/events", "k"), Route::Events));
    assert!(matches!(route("/", ""), Route::File(f) if f == "index.html"));
    assert!(matches!(route("/?v=1", ""), Route::File(f) if f == "index.html"));
    assert!(matches!(route("//a/b.js?x?y", ""), Route::File(f) if f == "a/b.js"));
    assert!(matches!(route("/events?x", ""), Route::File(f) if f == "events"));
}

#[test]
fn refuses_to_leave_the_directory() {
    assert!(matches!(route("/../etc/passwd", ""), Route::Missing));
    assert!(matches!(route("/a..b", ""), Route::Missing));
    assert!(matches!(route("/a?..", ""), Route::File(f) if f == "a"));
}

#[test]
fn heads_of_the_answers() {
    assert_eq!(
        events_head(),
        "HTTP/1.1 200 OK\r\nContent-Type: text/event-stream\r\nCache-Control: no-cache\r\n\
         Connection: keep-alive\r\n\r\n"
    );
    assert_eq!(
        file_head("a.css", 12),
        "HTTP/1.1 200 OK\r\nContent-Type: text/css; charset=utf-8\r\nContent-Length: 12\r\n\
         Connection: close\r\n\r\n"
    );
    assert_eq!(missing_head(), "HTTP/1.1 404 Not Found\r\nContent-Length: 0\r\n\r\n");
}

#[test]
fn ten_ports_are_tried() {
    assert_eq!(END_PORT - FIRST_PORT, 10);
    assert_eq!(FIRST_PORT, 6237);
}

#[test]
fn a_whole_request_is_routed() {
    let headers = |lines: &[&str]| lines.iter().map(|l| l.to_string()).collect::<Vec<String>>();
    let key = "Sec-WebSocket-Key: dGhlIHNhbXBsZSBub25jZQ==\r\n";
    assert!(matches!(
        requested("GET /ws HTTP/1.1\r\n", &headers(&["Host: x\r\n", key, "\r\n"])),
        Route::Bridge(h) if h == handshake("s3pPLMBiTxaQ9kYGzzhZRbK+xOo=")
    ));
    assert!(matches!(
        requested("GET /ws HTTP/1.1\r\n", &headers(&["\r\n", key])),
        Route::File(f) if f == "ws"
    ));
    assert!(matches!(requested("", &Vec::new()), Route::File(f) if f == "index.html"));
}
