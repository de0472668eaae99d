//! The goal state as JSON, for the views that lay it out themselves.

use crate::json::{self, Json, JsonView, Object};
use crate::render;
use crate::state::{CursorView, State, StateView};
use crate::text;
use vstd::prelude::*;
use vstd::string::*;

verus! {

/// One diagnostic, as the snapshot lists it.
pub open spec fn message_json(d: JsonView) -> JsonView {
    JsonView::Object(
        map![
            "line"@ => JsonView::Int(render::diagnostic_line(d) as int),
            "severity"@ => JsonView::Int(d.at("severity"@).uint_or(3) as int),
            "text"@ => JsonView::Text(d.at("message"@).text_or(""@)),
        ],
    )
}

/// The file at the cursor, its line counted from one and whether it is busy;
/// an empty name and line zero where there is no cursor.
pub open spec fn place(s: StateView) -> (Seq<char>, u64, bool) {
    match s.cursor {
        Some(c) => (
            text::after_last(c.uri, '/'),
            render::one_based(c.line),
            render::is_busy(s, c.uri),
        ),
        None => (Seq::empty(), 0, false),
    }
}

/// The goals of the tactic state, as the server sent them.
pub open spec fn raw_goals(s: StateView) -> Seq<JsonView> {
    match s.plain_goal {
        Some(pg) => pg.at("goals"@).items(),
        None => Seq::empty(),
    }
}

/// The expected type, or null.
pub open spec fn term_json(s: StateView) -> JsonView {
    match s.term_goal {
        Some(t) => match t.at("goal"@).text() {
            Some(goal) => JsonView::Text(goal),
            None => JsonView::Null,
        },
        None => JsonView::Null,
    }
}

/// The messages of the file at the cursor.
pub open spec fn messages_json(s: StateView) -> Seq<JsonView> {
    match s.cursor {
        Some(c) => render::diagnostics_of(s, c.uri).map_values(|d: JsonView| message_json(d)),
        None => Seq::empty(),
    }
}

/// The whole goal state.
pub open spec fn snapshot(s: StateView) -> JsonView {
    JsonView::Object(
        map![
            "file"@ => JsonView::Text(place(s).0),
            "line"@ => JsonView::Int(place(s).1 as int),
            "busy"@ => JsonView::Bool(place(s).2),
            "goals"@ => JsonView::List(raw_goals(s)),
            "termGoal"@ => term_json(s),
            "messages"@ => JsonView::List(messages_json(s)),
        ],
    )
}

fn message(d: &Json) -> (r: Json)
    ensures
        r@ == message_json(d@),
{
    let mut o = Object::new();
    o.set(
        "line",
        Json::Unsigned(render::from_one(d.at("range").at("start").at("line").u64_or(0))),
    );
    o.set("severity", Json::Unsigned(d.at("severity").u64_or(3)));
    o.set("text", Json::string(d.at("message").str_or("")));
    Json::Object(o)
}

fn messages(ds: &Json) -> (r: Json)
    ensures
        r@ == JsonView::List(ds@.items().map_values(|d: JsonView| message_json(d))),
{
    let n = ds.count();
    let ghost all = ds@.items().map_values(|d: JsonView| message_json(d));
    let mut out: Vec<Json> = Vec::new();
    let mut i: usize = 0;
    proof {
        assert(json::list_view(out@) =~= all.take(0));
    }
    while i < n
        invariant
            i <= n,
            n == all.len(),
            all == ds@.items().map_values(|d: JsonView| message_json(d)),
            json::list_view(out@) == all.take(i as int),
        decreases n - i,
    {
        json::push_item(&mut out, message(ds.item(i)));
        proof {
            assert(all.take(i + 1) =~= all.take(i as int).push(all[i as int]));
        }
        i += 1;
    }
    proof {
        assert(all.take(i as int) =~= all);
    }
    Json::List(out)
}

/// The goal state as a JSON value.
pub fn goal_snapshot(state: &State) -> (r: Json)
    requires
        state.wf(),
    ensures
        r@ == snapshot(state@),
{
    let mut file = String::new();
    let mut line: u64 = 0;
    let mut busy = false;
    let mut found: Json = Json::List(Vec::new());
    proof {
        assert(found@ =~= JsonView::List(Seq::empty()));
    }
    if let Some(c) = &state.cursor {
        let chars = text::chars_of(c.uri.as_str());
        file = text::text_of(text::behind_last(chars.as_slice(), '/'));
        line = render::from_one(c.line);
        if let Some(b) = state.processing.get(c.uri.as_str()) {
            busy = *b;
        }
        if let Some(ds) = state.diagnostics.get(c.uri.as_str()) {
            found = messages(ds);
        } else {
            proof {
                assert(messages_json(state@) =~= Seq::<JsonView>::empty());
            }
        }
        proof {
            assert(found@ =~= JsonView::List(messages_json(state@)));
        }
    }
    let goals = match &state.plain_goal {
        Some(pg) => pg.at("goals").items(),
        None => Json::List(Vec::new()),
    };
    let term = match &state.term_goal {
        Some(t) => match t.at("goal").as_str() {
            Some(goal) => Json::string(goal),
            None => Json::Null,
        },
        None => Json::Null,
    };
    let mut o = Object::new();
    o.set("file", Json::Text(file));
    o.set("line", Json::Unsigned(line));
    o.set("busy", Json::Bool(busy));
    o.set("goals", goals);
    o.set("termGoal", term);
    o.set("messages", found);
    Json::Object(o)
}

/// The goal state as JSON text, on one line.
pub fn goal_json(state: &State) -> (r: String)
    requires
        state.wf(),
    ensures
        json::prints(r@, snapshot(state@)),
        json::unbroken(r@),
{
    goal_snapshot(state).to_text()
}

/// A position.
pub open spec fn position_json(c: CursorView) -> JsonView {
    JsonView::Object(
        map![
            "line"@ => JsonView::Int(c.line as int),
            "character"@ => JsonView::Int(c.character as int),
        ],
    )
}

/// A location: the file and an empty range at the cursor; null without one.
pub open spec fn location(cursor: Option<CursorView>) -> JsonView {
    match cursor {
        Some(c) => JsonView::Object(
            map![
                "uri"@ => JsonView::Text(c.uri),
                "range"@ => JsonView::Object(
                    map!["start"@ => position_json(c), "end"@ => position_json(c)],
                ),
            ],
        ),
        None => JsonView::Null,
    }
}

/// A line and a column as a JSON position.
pub fn position(line: u64, character: u64) -> (r: Json)
    ensures
        forall|uri: Seq<char>| r@ == #[trigger] position_json(CursorView { uri, line, character }),
{
    let mut o = Object::new();
    o.set("line", Json::Unsigned(line));
    o.set("character", Json::Unsigned(character));
    Json::Object(o)
}

/// Where the cursor is, as the infoview takes it.
pub fn cursor_location(state: &State) -> (r: Json)
    ensures
        r@ == location(state@.cursor),
{
    match &state.cursor {
        Some(c) => {
            let mut range = Object::new();
            range.set("start", position(c.line, c.character));
            range.set("end", position(c.line, c.character));
            let mut o = Object::new();
            o.set("uri", Json::string(c.uri.as_str()));
            o.set("range", Json::Object(range));
            proof {
                assert(range@ == map!["start"@ => position_json(c@), "end"@ => position_json(c@)]);
            }
            Json::Object(o)
        },
        None => Json::Null,
    }
}

/// A line of the socket that the debug adapter reads.
pub fn socket_line(json: &str) -> (r: String)
    ensures
        r@ == json@ + "\n"@,
{
    let mut out = json.to_owned();
    out.append("\n");
    out
}

/// An event of the stream that a browser reads.
pub fn sse_event(json: &str) -> (r: String)
    ensures
        r@ == "data: "@ + json@ + "\n\n"@,
{
    let mut out = String::new();
    out.append("data: ");
    out.append(json);
    out.append("\n\n");
    proof {
        assert(out@ =~= "data: "@ + json@ + "\n\n"@);
    }
    out
}

// ------------------------------------------------------------------- laws --

proof fn lemma_keys()
    ensures
        "file"@ != "line"@,
        "file"@ != "busy"@,
        "line"@ != "busy"@,
        "file"@.len() == 4,
        "line"@.len() == 4,
        "busy"@.len() == 4,
        "goals"@.len() == 5,
        "termGoal"@.len() == 8,
        "messages"@.len() == 8,
        "termGoal"@ != "messages"@,
{
    reveal_strlit("file");
    reveal_strlit("line");
    reveal_strlit("busy");
    reveal_strlit("goals");
    reveal_strlit("termGoal");
    reveal_strlit("messages");
    assert("file"@[0] == 'f' && "line"@[0] == 'l' && "busy"@[0] == 'b');
    assert("termGoal"@[0] == 't' && "messages"@[0] == 'm');
}

/// A snapshot has six members; the goals and the messages are lists. Without a
/// cursor it names no file, line zero, nothing busy and no messages.
pub proof fn law_snapshot_members(s: StateView)
    ensures
        snapshot(s) matches JsonView::Object(m) && m.dom() == set![
            "file"@,
            "line"@,
            "busy"@,
            "goals"@,
            "termGoal"@,
            "messages"@,
        ],
        snapshot(s).at("goals"@) is List,
        snapshot(s).at("messages"@) is List,
        s.cursor is None ==> {
            &&& snapshot(s).at("file"@) == JsonView::Text(Seq::empty())
            &&& snapshot(s).at("line"@) == JsonView::Int(0)
            &&& snapshot(s).at("busy"@) == JsonView::Bool(false)
            &&& snapshot(s).at("messages"@) == JsonView::List(Seq::empty())
        },
{
    lemma_keys();
    assert(snapshot(s)->Object_0.dom() =~= set![
        "file"@,
        "line"@,
        "busy"@,
        "goals"@,
        "termGoal"@,
        "messages"@,
    ]);
}

/// A snapshot whose goals hold no fractions and are not nested too deep, such as
/// texts, reads back from its text.
pub proof fn law_snapshot_plain(s: StateView)
    requires
        forall|i: int|
            0 <= i < raw_goals(s).len() ==> json::plain(#[trigger] raw_goals(s)[i], 125),
    ensures
        json::plain(snapshot(s), json::max_depth()),
{
    reveal_with_fuel(json::plain, 2);
    assert forall|i: int| 0 <= i < messages_json(s).len() implies json::plain(
        #[trigger] messages_json(s)[i],
        125,
    ) by {
        let d = render::diagnostics_of(s, s.cursor->0.uri)[i];
        assert(messages_json(s)[i] == message_json(d));
    }
    assert(json::plain(JsonView::List(messages_json(s)), 126));
    assert(json::plain(JsonView::List(raw_goals(s)), 126));
    assert(json::plain(term_json(s), 126));
}

/// The text of a value is one line of the socket, and one line of data in an
/// event, which an empty line ends.
pub proof fn law_streamed_lines(t: Seq<char>)
    requires
        json::unbroken(t),
    ensures
        text::lines(t + "\n"@) == seq![t],
        text::lines("data: "@ + t + "\n\n"@) == seq!["data: "@ + t, Seq::empty()],
{
    reveal_strlit("data: ");
    reveal_strlit("\n");
    reveal_strlit("\n\n");
    let none = Seq::<char>::empty();
    assert(text::lines(none) =~= Seq::<Seq<char>>::empty());
    assert(text::is_line(t));
    text::law_first_line(t, none);
    assert(t + "\n"@ + none =~= t + "\n"@);
    assert(seq![t] + text::lines(none) =~= seq![t]);
    let d = "data: "@ + t;
    assert forall|i: int| 0 <= i < d.len() implies #[trigger] d[i] != '\n' && d[i] != '\r' by {
        if i >= 6 {
            assert(d[i] == t[i - 6]);
        }
    }
    assert(text::is_line(d));
    text::law_first_line(d, "\n"@);
    text::law_first_line(none, none);
    assert(none + "\n"@ + none =~= "\n"@);
    assert(d + "\n"@ + "\n"@ =~= d + "\n\n"@);
    assert(seq![d] + (seq![none] + text::lines(none)) =~= seq![d, none]);
}

/// A location names the file, and its range is empty and at the cursor. Without a
/// cursor there is none.
pub proof fn law_location(c: CursorView)
    ensures
        location(None) is Null,
        ({
            let l = location(Some(c));
            &&& l.at("uri"@) == JsonView::Text(c.uri)
            &&& l.at("range"@).at("start"@).at("line"@) == JsonView::Int(c.line as int)
            &&& l.at("range"@).at("start"@).at("character"@) == JsonView::Int(c.character as int)
            &&& l.at("range"@).at("end"@).at("line"@) == JsonView::Int(c.line as int)
            &&& l.at("range"@).at("end"@).at("character"@) == JsonView::Int(c.character as int)
        }),
{
    reveal_strlit("uri");
    reveal_strlit("range");
    reveal_strlit("start");
    reveal_strlit("end");
    reveal_strlit("line");
    reveal_strlit("character");
    assert("uri"@.len() == 3 && "range"@.len() == 5 && "start"@.len() == 5 && "end"@.len() == 3);
    assert("line"@.len() == 4 && "character"@.len() == 9);
}

/// A snapshot shows where the cursor is: the name of the file, the line counted
/// from one, and whether the file is still being elaborated.
pub proof fn law_snapshot_place(s: StateView, c: CursorView, dir: Seq<char>, name: Seq<char>)
    requires
        s.cursor == Some(c),
        c.uri == dir.push('/') + name || c.uri == name,
        forall|i: int| 0 <= i < name.len() ==> #[trigger] name[i] != '/',
        c.line < u64::MAX,
    ensures
        snapshot(s).at("file"@) == JsonView::Text(name),
        snapshot(s).at("line"@) == JsonView::Int(c.line + 1),
        s.processing.dom().contains(c.uri) ==> snapshot(s).at("busy"@) == JsonView::Bool(
            s.processing[c.uri],
        ),
        !s.processing.dom().contains(c.uri) ==> snapshot(s).at("busy"@) == JsonView::Bool(false),
{
    lemma_keys();
    text::law_after_last(dir, '/', name);
}

/// A snapshot shows the goals as the server sent them, whatever else it holds, and
/// the expected type where there is one.
pub proof fn law_snapshot_goals(s: StateView)
    ensures
        s.plain_goal matches Some(pg) ==> pg.at("goals"@) is List ==> snapshot(s).at("goals"@)
            == pg.at("goals"@),
        s.plain_goal matches Some(pg) ==> !(pg.at("goals"@) is List) ==> snapshot(s).at("goals"@)
            == JsonView::List(Seq::empty()),
        s.plain_goal is None ==> snapshot(s).at("goals"@) == JsonView::List(Seq::empty()),
        s.term_goal matches Some(t) ==> t.at("goal"@) is Text ==> snapshot(s).at("termGoal"@)
            == t.at("goal"@),
        s.term_goal matches Some(t) ==> !(t.at("goal"@) is Text) ==> snapshot(s).at(
            "termGoal"@,
        ) is Null,
        s.term_goal is None ==> snapshot(s).at("termGoal"@) is Null,
{
    lemma_keys();
}

/// A snapshot lists every diagnostic of the file at the cursor, in order: its line
/// counted from one, its severity and its text.
pub proof fn law_snapshot_messages(s: StateView, c: CursorView, ds: Seq<JsonView>)
    requires
        s.cursor == Some(c),
        s.diagnostics.dom().contains(c.uri),
        s.diagnostics[c.uri] == JsonView::List(ds),
    ensures
        snapshot(s).at("messages"@) is List,
        snapshot(s).at("messages"@).items().len() == ds.len(),
        forall|i: int|
            0 <= i < ds.len() ==> {
                let m = #[trigger] snapshot(s).at("messages"@).items()[i];
                let d = ds[i];
                &&& d.at("message"@) is Text ==> m.at("text"@) == d.at("message"@)
                &&& d.at("severity"@).uint() is Some ==> m.at("severity"@) == d.at("severity"@)
                &&& d.at("severity"@).uint() is None ==> m.at("severity"@) == JsonView::Int(3)
                &&& d.at("range"@).at("start"@).at("line"@) matches JsonView::Int(n) ==> 0 <= n
                    < u64::MAX ==> m.at("line"@) == JsonView::Int(n + 1)
                &&& d.at("range"@).at("start"@).at("line"@).uint() is None ==> m.at("line"@)
                    == JsonView::Int(1)
                &&& !(d.at("message"@) is Text) ==> m.at("text"@) == JsonView::Text(""@)
            },
{
    lemma_keys();
    reveal_strlit("line");
    reveal_strlit("severity");
    reveal_strlit("text");
    assert("severity"@.len() == 8);
    assert("text"@.len() == 4 && "text"@[0] == 't' && "line"@[0] == 'l');
    let list = snapshot(s).at("messages"@).items();
    assert(list == messages_json(s));
    assert forall|i: int| 0 <= i < ds.len() implies #[trigger] list[i] == message_json(ds[i]) by {}
}

/// A file of which no diagnostics were published has no messages.
pub proof fn law_snapshot_no_messages(s: StateView, c: CursorView)
    requires
        s.cursor == Some(c),
        !s.diagnostics.dom().contains(c.uri) || !(s.diagnostics[c.uri] is List),
    ensures
        snapshot(s).at("messages"@) == JsonView::List(Seq::empty()),
{
    lemma_keys();
    assert(messages_json(s) =~= Seq::empty());
}

} // verus!
