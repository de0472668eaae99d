//! The native window around the infoview: where it opens, and what it does on
//! what happens to it.

use crate::json::{self, Json, JsonView, Object};
use crate::text;
use vstd::prelude::*;
use vstd::utf8::*;

verus! {

// ------------------------------------------------------------------ frame --

/// Where the window is and how large, in physical pixels.
#[derive(Clone, Copy, PartialEq, Eq, Debug, Structural)]
pub struct Frame {
    pub x: i32,
    pub y: i32,
    pub width: u32,
    pub height: u32,
}

/// A screen, in physical pixels.
#[derive(Clone, Copy, PartialEq, Eq, Debug, Structural)]
pub struct Screen {
    pub x: i32,
    pub y: i32,
    pub width: u32,
    pub height: u32,
}

/// The least width and height of a frame worth going back to.
pub const LEAST_SIDE: u32 = 200;

/// The frame is worth going back to.
pub open spec fn usable(f: Frame) -> bool {
    f.width >= LEAST_SIDE && f.height >= LEAST_SIDE
}

/// A frame as JSON.
pub open spec fn frame_json(f: Frame) -> JsonView {
    JsonView::Object(
        map![
            "x"@ => JsonView::Int(f.x as int),
            "y"@ => JsonView::Int(f.y as int),
            "w"@ => JsonView::Int(f.width as int),
            "h"@ => JsonView::Int(f.height as int),
        ],
    )
}

/// The frame that a JSON value describes, if it is worth going back to. Numbers
/// that are too large lose their upper bits.
pub open spec fn frame_in(j: JsonView) -> Option<Frame> {
    match (j.at("x"@).sint(), j.at("y"@).sint(), j.at("w"@).uint(), j.at("h"@).uint()) {
        (Some(x), Some(y), Some(w), Some(h)) => {
            let f = Frame { x: x as i32, y: y as i32, width: w as u32, height: h as u32 };
            if usable(f) {
                Some(f)
            } else {
                None
            }
        },
        _ => None,
    }
}

/// The frame that a file describes.
pub open spec fn frame_of(content: Seq<char>) -> Option<Frame> {
    match json::json_of(encode_utf8(content)) {
        Some(j) => frame_in(j),
        None => None,
    }
}

/// The frame that a JSON value describes.
pub fn read_frame(j: &Json) -> (r: Option<Frame>)
    ensures
        r == frame_in(j@),
{
    let x: i64 = j.at("x").as_i64()?;
    let y: i64 = j.at("y").as_i64()?;
    let w: u64 = j.at("w").as_u64()?;
    let h: u64 = j.at("h").as_u64()?;
    let f = Frame {
        x: #[verifier::truncate] (x as i32),
        y: #[verifier::truncate] (y as i32),
        width: #[verifier::truncate] (w as u32),
        height: #[verifier::truncate] (h as u32),
    };
    if f.width >= LEAST_SIDE && f.height >= LEAST_SIDE {
        Some(f)
    } else {
        None
    }
}

/// The frame that the content of the saved file describes.
pub fn load_frame(content: &str) -> (r: Option<Frame>)
    ensures
        r == frame_of(content@),
{
    match Json::parse(content.as_bytes()) {
        Some(j) => read_frame(&j),
        None => None,
    }
}

/// A frame read back from its JSON is that frame, if it is worth going back to.
pub proof fn law_frame_json(f: Frame)
    ensures
        frame_in(frame_json(f)) == if usable(f) {
            Some(f)
        } else {
            None::<Frame>
        },
{
    lemma_frame_keys();
    let j = frame_json(f);
    assert(j.at("x"@) == JsonView::Int(f.x as int));
    assert(j.at("y"@) == JsonView::Int(f.y as int));
    assert(j.at("w"@) == JsonView::Int(f.width as int));
    assert(j.at("h"@) == JsonView::Int(f.height as int));
}

proof fn lemma_frame_keys()
    ensures
        "x"@ != "y"@,
        "x"@ != "w"@,
        "x"@ != "h"@,
        "y"@ != "w"@,
        "y"@ != "h"@,
        "w"@ != "h"@,
{
    reveal_strlit("x");
    reveal_strlit("y");
    reveal_strlit("w");
    reveal_strlit("h");
    assert("x"@[0] == 'x' && "y"@[0] == 'y' && "w"@[0] == 'w' && "h"@[0] == 'h');
}

/// What the saved file holds. The window that opens next reads this frame back,
/// unless it is too small.
pub fn save_frame(f: &Frame) -> (r: String)
    ensures
        r@ == json::json_text(frame_json(*f)),
        frame_of(r@) == if usable(*f) {
            Some(*f)
        } else {
            None::<Frame>
        },
{
    let mut o = Object::new();
    o.set("x", Json::Negative(f.x as i64));
    o.set("y", Json::Negative(f.y as i64));
    o.set("w", Json::Unsigned(f.width as u64));
    o.set("h", Json::Unsigned(f.height as u64));
    let j = Json::Object(o);
    proof {
        assert(j@ =~= frame_json(*f));
        assert(json::plain(j@, json::max_depth())) by {
            reveal_with_fuel(json::plain, 2);
        }
        law_frame_json(*f);
    }
    j.to_text()
}

/// The right edge of the screen, below the menu bar, at full height. `width` is
/// how wide the window is to be. Coordinates wrap around as machine integers do.
pub open spec fn docked_at(s: Screen, width: u32, menubar: i32) -> Frame {
    Frame {
        x: (s.x + s.width - width) as i32,
        y: (s.y + menubar) as i32,
        width,
        height: if s.height >= (menubar as u32) {
            (s.height - (menubar as u32)) as u32
        } else {
            0
        },
    }
}

/// The frame at the right edge of the screen.
pub fn docked(s: &Screen, width: u32, menubar: i32) -> (r: Frame)
    ensures
        r == docked_at(*s, width, menubar),
{
    let x: i64 = s.x as i64 + s.width as i64 - width as i64;
    let y: i64 = s.y as i64 + menubar as i64;
    let bar: u32 = #[verifier::truncate] (menubar as u32);
    Frame {
        x: #[verifier::truncate] (x as i32),
        y: #[verifier::truncate] (y as i32),
        width,
        height: s.height.saturating_sub(bar),
    }
}

/// Where the window opens: where it was, else at the edge of the screen, else
/// at a fixed place.
pub fn opening_frame(saved: &Option<Frame>, edge: &Option<Frame>) -> (r: Frame)
    ensures
        r == match *saved {
            Some(f) => f,
            None => match *edge {
                Some(f) => f,
                None => (Frame { x: 100, y: 100, width: 460, height: 720 }),
            },
        },
{
    match saved {
        Some(f) => *f,
        None => match edge {
            Some(f) => *f,
            None => Frame { x: 100, y: 100, width: 460, height: 720 },
        },
    }
}

/// A docked window ends where the screen ends and starts below the menu bar, and
/// it reaches down to the end of the screen.
pub proof fn law_docked(s: Screen, width: u32, menubar: i32)
    requires
        0 <= menubar <= s.height,
        i32::MIN <= s.x + s.width - width <= i32::MAX,
        s.y + menubar <= i32::MAX,
    ensures
        docked_at(s, width, menubar).x + docked_at(s, width, menubar).width == s.x + s.width,
        docked_at(s, width, menubar).width == width,
        docked_at(s, width, menubar).y == s.y + menubar,
        docked_at(s, width, menubar).y + docked_at(s, width, menubar).height == s.y + s.height,
{
}

// ----------------------------------------------------------------- events --

/// A key that was pressed.
pub enum Key {
    /// One that stands for a text.
    Text(String),
    Escape,
    Other,
}

/// What can happen to the window.
pub enum WindowEvent {
    /// The page or a key asks to flip whether the window floats.
    ToggleFloat,
    /// The page asks to minimize it.
    Minimize,
    /// Another launch asks it to come to the front.
    Summon,
    /// The self test is due.
    SelfTest,
    /// The user closes it.
    CloseRequested,
    /// It was moved or resized; how long ago its frame was last saved, in
    /// nanoseconds.
    Changed(u128),
    /// A key was pressed, with or without the command modifier.
    KeyPressed(bool, Key),
}

/// What the window is to do.
#[derive(Clone, Copy, PartialEq, Eq, Debug, Structural)]
pub enum WindowAction {
    Nothing,
    /// Float above the other windows, or stop to.
    SetFloat(bool),
    Minimize,
    /// Become visible again, restored and focused.
    Show,
    Hide,
    /// Click the pin of the page.
    ClickPin,
    /// Save the frame.
    Save,
    /// Save the frame and end.
    SaveAndExit,
}

/// How long the saved frame is left alone while the window moves, in
/// nanoseconds.
pub const SAVE_PAUSE: u128 = 500_000_000;

/// What a key does.
pub open spec fn key_action(floating: bool, command: bool, key: Key) -> WindowAction {
    match key {
        Key::Text(c) => if command && (c@ == "t"@ || c@ == "T"@) {
            WindowAction::SetFloat(!floating)
        } else if command && (c@ == "w"@ || c@ == "W"@) {
            WindowAction::Hide
        } else {
            WindowAction::Nothing
        },
        Key::Escape => WindowAction::Hide,
        Key::Other => WindowAction::Nothing,
    }
}

/// What the window does on an event while it floats or does not.
pub open spec fn action_on(floating: bool, e: WindowEvent) -> WindowAction {
    match e {
        WindowEvent::ToggleFloat => WindowAction::SetFloat(!floating),
        WindowEvent::Minimize => WindowAction::Minimize,
        WindowEvent::Summon => WindowAction::Show,
        WindowEvent::SelfTest => WindowAction::ClickPin,
        WindowEvent::CloseRequested => WindowAction::SaveAndExit,
        WindowEvent::Changed(since) => if since > SAVE_PAUSE {
            WindowAction::Save
        } else {
            WindowAction::Nothing
        },
        WindowEvent::KeyPressed(command, key) => key_action(floating, command, key),
    }
}

/// Whether the window floats after an event.
pub open spec fn floating_after(floating: bool, e: WindowEvent) -> bool {
    match action_on(floating, e) {
        WindowAction::SetFloat(on) => on,
        _ => floating,
    }
}

/// Takes an event; returns what the window is to do.
pub fn on_event(floating: &mut bool, e: &WindowEvent) -> (r: WindowAction)
    ensures
        r == action_on(*old(floating), *e),
        *final(floating) == floating_after(*old(floating), *e),
{
    let action = match e {
        WindowEvent::ToggleFloat => WindowAction::SetFloat(!*floating),
        WindowEvent::Minimize => WindowAction::Minimize,
        WindowEvent::Summon => WindowAction::Show,
        WindowEvent::SelfTest => WindowAction::ClickPin,
        WindowEvent::CloseRequested => WindowAction::SaveAndExit,
        WindowEvent::Changed(since) => if *since > SAVE_PAUSE {
            WindowAction::Save
        } else {
            WindowAction::Nothing
        },
        WindowEvent::KeyPressed(command, key) => on_key(*floating, *command, key),
    };
    if let WindowAction::SetFloat(on) = action {
        *floating = on;
    }
    action
}

fn on_key(floating: bool, command: bool, key: &Key) -> (r: WindowAction)
    ensures
        r == key_action(floating, command, *key),
{
    match key {
        Key::Text(c) => {
            let c = c.as_str();
            if command && (text::same_text(c, "t") || text::same_text(c, "T")) {
                WindowAction::SetFloat(!floating)
            } else if command && (text::same_text(c, "w") || text::same_text(c, "W")) {
                WindowAction::Hide
            } else {
                WindowAction::Nothing
            }
        },
        Key::Escape => WindowAction::Hide,
        Key::Other => WindowAction::Nothing,
    }
}

/// What a message of the page asks for.
pub open spec fn page_event(message: Seq<char>) -> Option<WindowEvent> {
    if message == "toggle-float"@ {
        Some(WindowEvent::ToggleFloat)
    } else if message == "minimize"@ {
        Some(WindowEvent::Minimize)
    } else {
        None
    }
}

/// What a message of the page asks for.
pub fn on_page_message(message: &str) -> (r: Option<WindowEvent>)
    ensures
        r == page_event(message@),
{
    if text::same_text(message, "toggle-float") {
        Some(WindowEvent::ToggleFloat)
    } else if text::same_text(message, "minimize") {
        Some(WindowEvent::Minimize)
    } else {
        None
    }
}

/// What a line from another launch asks for.
pub open spec fn launch_event(line: Seq<char>) -> Option<WindowEvent> {
    if text::trimmed(line) == "show"@ {
        Some(WindowEvent::Summon)
    } else {
        None
    }
}

/// What a line from another launch asks for.
pub fn on_control_line(line: &str) -> (r: Option<WindowEvent>)
    ensures
        r == launch_event(line@),
{
    let chars = text::chars_of(line);
    let word = text::text_of(text::trim(chars.as_slice()));
    if text::same_text(word.as_str(), "show") {
        Some(WindowEvent::Summon)
    } else {
        None
    }
}

/// The line that another launch sends to a window that is already there.
pub fn summon_line() -> (r: String)
    ensures
        r@ == "show\n"@,
        launch_event(r@) == Some(WindowEvent::Summon),
{
    proof {
        law_summon_heard();
    }
    "show\n".to_owned()
}

/// The line that another launch sends summons the window.
pub proof fn law_summon_heard()
    ensures
        launch_event("show\n"@) == Some(WindowEvent::Summon),
{
    reveal_strlit("show\n");
    reveal_strlit("show");
    let s = "show\n"@;
    assert(s.last() == '\n');
    assert(s.drop_last() =~= "show"@);
    assert(text::trimmed_end(s) == text::trimmed_end("show"@));
    assert(!text::is_space("show"@.last()));
    assert(text::trimmed_end("show"@) == "show"@);
    assert(!text::is_space("show"@[0]));
    assert(text::trimmed_start("show"@) == "show"@);
}

/// Only closing the window ends it; hiding it leaves it running, and floating as
/// it was.
pub proof fn law_only_close_exits(floating: bool, e: WindowEvent)
    ensures
        action_on(floating, e) == WindowAction::SaveAndExit <==> e is CloseRequested,
        action_on(floating, e) == WindowAction::Hide ==> floating_after(floating, e) == floating,
{
}

/// A summons shows the window and leaves it floating as it was.
pub proof fn law_summon_keeps_float(floating: bool)
    ensures
        action_on(floating, WindowEvent::Summon) == WindowAction::Show,
        floating_after(floating, WindowEvent::Summon) == floating,
{
}

/// To flip twice is to change nothing.
pub proof fn law_toggle_twice(floating: bool)
    ensures
        floating_after(
            floating_after(floating, WindowEvent::ToggleFloat),
            WindowEvent::ToggleFloat,
        ) == floating,
{
}

/// The key does what the button of the page does.
pub proof fn law_key_is_button(floating: bool, key: String)
    requires
        key@ == "t"@ || key@ == "T"@,
    ensures
        action_on(floating, WindowEvent::KeyPressed(true, Key::Text(key))) == action_on(
            floating,
            WindowEvent::ToggleFloat,
        ),
{
}

/// A frame is saved by its place and its size.
pub proof fn law_frame_members(f: Frame)
    ensures
        frame_json(f).at("x"@) == JsonView::Int(f.x as int),
        frame_json(f).at("y"@) == JsonView::Int(f.y as int),
        frame_json(f).at("w"@) == JsonView::Int(f.width as int),
        frame_json(f).at("h"@) == JsonView::Int(f.height as int),
{
    lemma_frame_keys();
}

/// A frame is loaded from the members of that name, whatever else the value holds;
/// one that is narrower or lower than two hundred, or that lacks a member, is not.
pub proof fn law_frame_loaded(j: JsonView, f: Frame)
    ensures
        j.at("x"@) == JsonView::Int(f.x as int) && j.at("y"@) == JsonView::Int(f.y as int) && j.at(
            "w"@,
        ) == JsonView::Int(f.width as int) && j.at("h"@) == JsonView::Int(f.height as int)
            ==> frame_in(j) == if f.width >= 200 && f.height >= 200 {
            Some(f)
        } else {
            None::<Frame>
        },
        !(j.at("x"@) is Int) || !(j.at("y"@) is Int) || !(j.at("w"@) is Int) || !(j.at(
            "h"@,
        ) is Int) ==> frame_in(j) is None,
{
}

/// What each event makes of the window.
pub proof fn law_window_events(floating: bool, since: u128)
    ensures
        action_on(floating, WindowEvent::ToggleFloat) == WindowAction::SetFloat(!floating),
        action_on(floating, WindowEvent::Minimize) == WindowAction::Minimize,
        action_on(floating, WindowEvent::SelfTest) == WindowAction::ClickPin,
        action_on(floating, WindowEvent::CloseRequested) == WindowAction::SaveAndExit,
        since > 500_000_000 ==> action_on(floating, WindowEvent::Changed(since))
            == WindowAction::Save,
        since <= 500_000_000 ==> action_on(floating, WindowEvent::Changed(since))
            == WindowAction::Nothing,
        floating_after(floating, WindowEvent::ToggleFloat) == !floating,
        floating_after(floating, WindowEvent::Minimize) == floating,
        floating_after(floating, WindowEvent::CloseRequested) == floating,
        floating_after(floating, WindowEvent::Changed(since)) == floating,
{
}

/// With the command modifier T flips whether the window floats and W hides it; Escape
/// hides it with or without; no other key does anything.
pub proof fn law_window_keys(floating: bool, command: bool, key: String)
    ensures
        action_on(floating, WindowEvent::KeyPressed(command, Key::Escape)) == WindowAction::Hide,
        action_on(floating, WindowEvent::KeyPressed(command, Key::Other))
            == WindowAction::Nothing,
        key@ == "w"@ || key@ == "W"@ ==> action_on(
            floating,
            WindowEvent::KeyPressed(true, Key::Text(key)),
        ) == WindowAction::Hide,
        key@ == "t"@ || key@ == "T"@ ==> action_on(
            floating,
            WindowEvent::KeyPressed(true, Key::Text(key)),
        ) == WindowAction::SetFloat(!floating),
        action_on(floating, WindowEvent::KeyPressed(false, Key::Text(key)))
            == WindowAction::Nothing,
        key@ != "t"@ && key@ != "T"@ && key@ != "w"@ && key@ != "W"@ ==> action_on(
            floating,
            WindowEvent::KeyPressed(true, Key::Text(key)),
        ) == WindowAction::Nothing,
{
    reveal_strlit("t");
    reveal_strlit("T");
    reveal_strlit("w");
    reveal_strlit("W");
    assert("t"@[0] == 't' && "T"@[0] == 'T' && "w"@[0] == 'w' && "W"@[0] == 'W');
}

/// The words of the page and of another launch.
pub proof fn law_window_words(t: Seq<char>, lead: Seq<char>, trail: Seq<char>)
    requires
        forall|i: int| 0 <= i < lead.len() ==> text::is_space(#[trigger] lead[i]),
        forall|i: int| 0 <= i < trail.len() ==> text::is_space(#[trigger] trail[i]),
    ensures
        page_event("toggle-float"@) == Some(WindowEvent::ToggleFloat),
        page_event("minimize"@) == Some(WindowEvent::Minimize),
        t != "toggle-float"@ && t != "minimize"@ ==> page_event(t) is None,
        launch_event(lead + "show"@ + trail) == Some(WindowEvent::Summon),
        text::trimmed(t) != "show"@ ==> launch_event(t) is None,
{
    reveal_strlit("toggle-float");
    reveal_strlit("minimize");
    assert("toggle-float"@.len() != "minimize"@.len());
    reveal_strlit("show");
    text::law_trimmed(lead, "show"@, trail);
}

} // verus!
