use lean_goalview::window::{
    docked, load_frame, on_control_line, on_event, on_page_message, opening_frame, save_frame,
    summon_line, Frame, Key, Screen, WindowAction, WindowEvent,
};

fn frame(x: i32, y: i32, width: u32, height: u32) -> Frame {
    Frame { x, y, width, height }
}

#[test]
fn a_saved_frame_is_found_again() {
    let f = frame(-12, 34, 400, 900);
    assert_eq!(save_frame(&f), r#"{"h":900,"w":400,"x":-12,"y":34}"#);
    assert_eq!(load_frame(&save_frame(&f)), Some(f));
}

#[test]
fn a_frame_that_is_too_small_is_not() {
    assert_eq!(load_frame(&save_frame(&frame(0, 0, 199, 900))), None);
    assert_eq!(load_frame(&save_frame(&frame(0, 0, 900, 199))), None);
    assert_eq!(load_frame(&save_frame(&frame(0, 0, 200, 200))), Some(frame(0, 0, 200, 200)));
}

#[test]
fn a_broken_frame_file_is_ignored() {
    assert_eq!(load_frame(""), None);
    assert_eq!(load_frame("{}"), None);
    assert_eq!(load_frame(r#"{"x":1,"y":2,"w":300}"#), None);
    assert_eq!(load_frame(r#"{"x":1.5,"y":2,"w":300,"h":300}"#), None);
    assert_eq!(load_frame(r#"{"x":1,"y":2,"w":-300,"h":300}"#), None);
    assert_eq!(
        load_frame(r#"{"x":4294967297,"y":2,"w":4294967596,"h":300}"#),
        Some(frame(1, 2, 300, 300))
    );
}

#[test]
fn a_new_window_docks_to_the_right() {
    let s = Screen { x: 0, y: 0, width: 2560, height: 1600 };
    assert_eq!(docked(&s, 840, 50), frame(1720, 50, 840, 1550));
    let s = Screen { x: -1920, y: 100, width: 1920, height: 20 };
    assert_eq!(docked(&s, 420, 25), frame(-420, 125, 420, 0));
    let s = Screen { x: i32::MAX, y: i32::MAX, width: 421, height: 100 };
    assert_eq!(docked(&s, 420, 25), frame(i32::MIN, i32::MIN + 24, 420, 75));
}

#[test]
fn the_window_opens_where_it_was() {
    let a = frame(1, 2, 300, 400);
    let b = frame(5, 6, 700, 800);
    assert_eq!(opening_frame(&Some(a), &Some(b)), a);
    assert_eq!(opening_frame(&None, &Some(b)), b);
    assert_eq!(opening_frame(&None, &None), frame(100, 100, 460, 720));
}

#[test]
fn the_page_and_the_keys_toggle_floating() {
    let mut floating = true;
    let toggle = on_page_message("toggle-float").unwrap();
    assert_eq!(on_event(&mut floating, &toggle), WindowAction::SetFloat(false));
    assert!(!floating);
    let key = WindowEvent::KeyPressed(true, Key::Text("T".to_string()));
    assert_eq!(on_event(&mut floating, &key), WindowAction::SetFloat(true));
    assert!(floating);
    let plain = WindowEvent::KeyPressed(false, Key::Text("t".to_string()));
    assert_eq!(on_event(&mut floating, &plain), WindowAction::Nothing);
    assert!(floating);
}

#[test]
fn hiding_does_not_end_the_window() {
    let mut floating = true;
    for key in [Key::Text("w".to_string()), Key::Text("W".to_string()), Key::Escape] {
        let e = WindowEvent::KeyPressed(true, key);
        assert_eq!(on_event(&mut floating, &e), WindowAction::Hide);
    }
    let e = WindowEvent::KeyPressed(false, Key::Escape);
    assert_eq!(on_event(&mut floating, &e), WindowAction::Hide);
    let e = WindowEvent::KeyPressed(true, Key::Other);
    assert_eq!(on_event(&mut floating, &e), WindowAction::Nothing);
    assert_eq!(on_event(&mut floating, &WindowEvent::CloseRequested), WindowAction::SaveAndExit);
    assert!(floating);
}

#[test]
fn another_launch_summons_the_window() {
    assert_eq!(summon_line(), "show\n");
    let mut floating = false;
    let e = on_control_line(&summon_line()).unwrap();
    assert_eq!(on_event(&mut floating, &e), WindowAction::Show);
    assert!(!floating);
    assert!(on_control_line("  show \r\n").is_some());
    assert!(on_control_line("shown").is_none());
    assert!(on_control_line("").is_none());
}

#[test]
fn frames_are_saved_now_and_then() {
    let mut floating = true;
    assert_eq!(on_event(&mut floating, &WindowEvent::Changed(500_000_000)), WindowAction::Nothing);
    assert_eq!(on_event(&mut floating, &WindowEvent::Changed(500_000_001)), WindowAction::Save);
}

#[test]
fn other_messages_of_the_page_do_nothing() {
    let mut floating = true;
    let e = on_page_message("minimize").unwrap();
    assert_eq!(on_event(&mut floating, &e), WindowAction::Minimize);
    assert_eq!(on_event(&mut floating, &WindowEvent::SelfTest), WindowAction::ClickPin);
    assert!(on_page_message("log:clicked").is_none());
}
