//! The debug adapter: how it answers the requests of an editor's debug panel.

use crate::bridge;
use crate::debug::{self, Model, ModelView, Var, VarView};
use crate::json::{self, Json, JsonView, Object};
use crate::text;
use vstd::prelude::*;
use vstd::string::*;
use vstd::utf8::*;

verus! {

/// A debug session.
pub struct Session {
    /// The number of the next message.
    pub seq: i64,
    /// The editor has finished its configuration.
    pub configured: bool,
    pub model: Model,
}

/// What a session is.
#[verifier::ext_equal]
pub struct SessionView {
    pub seq: i64,
    pub configured: bool,
    pub model: ModelView,
}

impl View for Session {
    type V = SessionView;

    open spec fn view(&self) -> SessionView {
        SessionView { seq: self.seq, configured: self.configured, model: self.model@ }
    }
}

/// The number after `n`; the numbers start over at their end.
pub open spec fn next_seq(n: i64) -> i64 {
    if n == i64::MAX {
        i64::MIN
    } else {
        (n + 1) as i64
    }
}

/// A message of the adapter before it is numbered.
pub enum Out {
    /// The answer to a request, with this body.
    Response(JsonView),
    /// An event of this name, with this body.
    Event(Seq<char>, JsonView),
}

/// The message under its number; an answer names its request.
pub open spec fn out_json(req: JsonView, out: Out, seq: i64) -> JsonView {
    match out {
        Out::Response(body) => JsonView::Object(
            map![
                "type"@ => JsonView::Text("response"@),
                "seq"@ => JsonView::Int(seq as int),
                "request_seq"@ => req.at("seq"@),
                "command"@ => req.at("command"@),
                "success"@ => JsonView::Bool(true),
                "body"@ => body,
            ],
        ),
        Out::Event(name, body) => JsonView::Object(
            map![
                "type"@ => JsonView::Text("event"@),
                "seq"@ => JsonView::Int(seq as int),
                "event"@ => JsonView::Text(name),
                "body"@ => body,
            ],
        ),
    }
}

/// An object without members.
pub open spec fn nothing() -> JsonView {
    JsonView::Object(Map::empty())
}

/// What the adapter can do.
pub open spec fn capabilities() -> JsonView {
    JsonView::Object(
        map![
            "supportsConfigurationDoneRequest"@ => JsonView::Bool(true),
            "supportsTerminateRequest"@ => JsonView::Bool(true),
        ],
    )
}

/// No breakpoints were set.
pub open spec fn no_breakpoints() -> JsonView {
    JsonView::Object(map!["breakpoints"@ => JsonView::List(Seq::empty())])
}

/// The program has stopped, which asks the editor to fetch everything again.
pub open spec fn stopped(reason: Seq<char>) -> JsonView {
    JsonView::Object(
        map![
            "reason"@ => JsonView::Text(reason),
            "description"@ => JsonView::Text("Lean goal state"@),
            "threadId"@ => JsonView::Int(1),
            "allThreadsStopped"@ => JsonView::Bool(true),
            "preserveFocusHint"@ => JsonView::Bool(true),
        ],
    )
}

/// The one thread.
pub open spec fn threads() -> JsonView {
    JsonView::Object(
        map![
            "threads"@ => JsonView::List(
                seq![
                    JsonView::Object(
                        map!["id"@ => JsonView::Int(1), "name"@ => JsonView::Text("Lean"@)],
                    ),
                ],
            ),
        ],
    )
}

/// The name of the one frame: the file and line at the cursor.
pub open spec fn frame_name(m: ModelView) -> Seq<char> {
    if m.file.len() == 0 {
        "Lean"@
    } else {
        m.file + ":"@ + text::decimal(m.line as nat)
    }
}

/// The one frame, without its source.
pub open spec fn bare_frame(m: ModelView) -> Map<Seq<char>, JsonView> {
    map![
        "id"@ => JsonView::Int(1),
        "name"@ => JsonView::Text(frame_name(m)),
        "line"@ => JsonView::Int(m.line as int),
        "column"@ => JsonView::Int(1),
    ]
}

/// The one frame; its source is known where the path is.
pub open spec fn stack_frame(m: ModelView) -> JsonView {
    JsonView::Object(
        if m.path.len() == 0 {
            bare_frame(m)
        } else {
            bare_frame(m).insert(
                "source"@,
                JsonView::Object(
                    map!["name"@ => JsonView::Text(m.file), "path"@ => JsonView::Text(m.path)],
                ),
            )
        },
    )
}

/// The stack: that one frame.
pub open spec fn stack(m: ModelView) -> JsonView {
    JsonView::Object(
        map![
            "stackFrames"@ => JsonView::List(seq![stack_frame(m)]),
            "totalFrames"@ => JsonView::Int(1),
        ],
    )
}

/// A scope of the frame.
pub open spec fn scope(name: Seq<char>, reference: i64) -> JsonView {
    JsonView::Object(
        map![
            "name"@ => JsonView::Text(name),
            "variablesReference"@ => JsonView::Int(reference as int),
            "expensive"@ => JsonView::Bool(false),
        ],
    )
}

/// The two scopes of the frame.
pub open spec fn scopes() -> JsonView {
    JsonView::Object(
        map![
            "scopes"@ => JsonView::List(
                seq![
                    scope("Tactic State"@, debug::REF_TACTIC),
                    scope("Messages"@, debug::REF_MESSAGES),
                ],
            ),
        ],
    )
}

/// A variable as the panel takes it.
pub open spec fn var_json(v: VarView) -> JsonView {
    JsonView::Object(
        map![
            "name"@ => JsonView::Text(v.name),
            "value"@ => JsonView::Text(v.value),
            "variablesReference"@ => JsonView::Int(v.reference as int),
        ],
    )
}

/// Variables as the panel takes them.
pub open spec fn variables(vs: Seq<VarView>) -> JsonView {
    JsonView::Object(
        map!["variables"@ => JsonView::List(vs.map_values(|v: VarView| var_json(v)))],
    )
}

/// The command of a request; empty where it has none.
pub open spec fn command_of(m: JsonView) -> Seq<char> {
    m.at("command"@).text_or(""@)
}

/// The message is a request.
pub open spec fn is_request(m: JsonView) -> bool {
    m.at("type"@) == JsonView::Text("request"@)
}

/// The request ends the session.
pub open spec fn ends_session(m: JsonView) -> bool {
    is_request(m) && (command_of(m) == "disconnect"@ || command_of(m) == "terminate"@)
}

/// The body of the answer to a command.
pub open spec fn body_for(model: ModelView, m: JsonView) -> JsonView {
    let command = command_of(m);
    if command == "initialize"@ {
        capabilities()
    } else if command == "setBreakpoints"@ || command == "setExceptionBreakpoints"@ {
        no_breakpoints()
    } else if command == "threads"@ {
        threads()
    } else if command == "stackTrace"@ {
        stack(model)
    } else if command == "scopes"@ {
        scopes()
    } else if command == "variables"@ {
        variables(
            debug::children_of(model, m.at("arguments"@).at("variablesReference"@).sint_or(0)),
        )
    } else if command == "continue"@ {
        JsonView::Object(map!["allThreadsContinued"@ => JsonView::Bool(true)])
    } else {
        nothing()
    }
}

/// The event that follows the answer to a command, where one does.
pub open spec fn event_for(m: JsonView) -> Option<Out> {
    let command = command_of(m);
    if command == "initialize"@ {
        Some(Out::Event("initialized"@, nothing()))
    } else if command == "configurationDone"@ {
        Some(Out::Event("stopped"@, stopped("entry"@)))
    } else if command == "continue"@ {
        // Nothing runs, so the panel goes straight back to its paused state.
        Some(Out::Event("stopped"@, stopped("pause"@)))
    } else if command == "disconnect"@ || command == "terminate"@ {
        Some(Out::Event("terminated"@, nothing()))
    } else {
        None
    }
}

/// The model that a line of the proxy's socket gives, if it is a snapshot.
pub open spec fn model_in(line: Seq<char>) -> Option<ModelView> {
    match json::json_of(encode_utf8(line)) {
        Some(snap) => Some(debug::model_of(snap)),
        None => None,
    }
}

/// The messages that a message of the editor draws, numbered from `seq`.
pub open spec fn outputs(s: SessionView, m: JsonView) -> Seq<JsonView> {
    if !is_request(m) {
        Seq::empty()
    } else {
        let response = out_json(m, Out::Response(body_for(s.model, m)), s.seq);
        match event_for(m) {
            Some(event) => seq![response, out_json(m, event, next_seq(s.seq))],
            None => seq![response],
        }
    }
}

/// The session after a message of the editor.
pub open spec fn session_after(s: SessionView, m: JsonView) -> SessionView {
    if !is_request(m) {
        s
    } else {
        SessionView {
            seq: match event_for(m) {
                Some(_) => next_seq(next_seq(s.seq)),
                None => next_seq(s.seq),
            },
            configured: s.configured || command_of(m) == "configurationDone"@,
            ..s
        }
    }
}

/// The frames that carry messages.
pub open spec fn frames_of(msgs: Seq<JsonView>) -> Seq<Seq<u8>> {
    msgs.map_values(|m: JsonView| bridge::message_bytes(m))
}

/// What frames hold.
pub open spec fn frame_bytes(frames: Seq<Vec<u8>>) -> Seq<Seq<u8>> {
    frames.map_values(|f: Vec<u8>| f@)
}

/// What a message of the editor leads to.
pub struct AdapterStep {
    /// Frames for the editor, in order.
    pub frames: Vec<Vec<u8>>,
    /// The session is over.
    pub exit: bool,
}

fn stop_body(reason: &str) -> (r: Json)
    ensures
        r@ == stopped(reason@),
{
    let mut o = Object::new();
    o.set("reason", Json::string(reason));
    o.set("description", Json::string("Lean goal state"));
    o.set("threadId", Json::Unsigned(1));
    o.set("allThreadsStopped", Json::Bool(true));
    o.set("preserveFocusHint", Json::Bool(true));
    Json::Object(o)
}

fn capabilities_body() -> (r: Json)
    ensures
        r@ == capabilities(),
{
    let mut o = Object::new();
    o.set("supportsConfigurationDoneRequest", Json::Bool(true));
    o.set("supportsTerminateRequest", Json::Bool(true));
    Json::Object(o)
}

fn breakpoints_body() -> (r: Json)
    ensures
        r@ == no_breakpoints(),
{
    let list: Vec<Json> = Vec::new();
    let mut o = Object::new();
    o.set("breakpoints", Json::List(list));
    proof {
        assert(json::list_view(list@) =~= Seq::<JsonView>::empty());
    }
    Json::Object(o)
}

fn threads_body() -> (r: Json)
    ensures
        r@ == threads(),
{
    let mut thread = Object::new();
    thread.set("id", Json::Unsigned(1));
    thread.set("name", Json::string("Lean"));
    let mut list: Vec<Json> = Vec::new();
    json::push_item(&mut list, Json::Object(thread));
    let mut o = Object::new();
    o.set("threads", Json::List(list));
    proof {
        assert(json::list_view(list@) =~= seq![
            JsonView::Object(
                map!["id"@ => JsonView::Int(1), "name"@ => JsonView::Text("Lean"@)],
            ),
        ]);
    }
    Json::Object(o)
}

fn stack_body(m: &Model) -> (r: Json)
    requires
        m.line >= 0,
    ensures
        r@ == stack(m@),
{
    let mut name = String::new();
    if m.file.as_str().is_empty() {
        name.append("Lean");
    } else {
        name.append(m.file.as_str());
        name.append(":");
        text::push_decimal(&mut name, m.line as u64);
    }
    proof {
        assert(name@ =~= frame_name(m@));
    }
    let mut frame = Object::new();
    frame.set("id", Json::Unsigned(1));
    frame.set("name", Json::Text(name));
    frame.set("line", Json::Negative(m.line));
    frame.set("column", Json::Unsigned(1));
    if !m.path.as_str().is_empty() {
        let mut source = Object::new();
        source.set("name", Json::string(m.file.as_str()));
        source.set("path", Json::string(m.path.as_str()));
        frame.set("source", Json::Object(source));
    }
    let mut list: Vec<Json> = Vec::new();
    json::push_item(&mut list, Json::Object(frame));
    let mut o = Object::new();
    o.set("stackFrames", Json::List(list));
    o.set("totalFrames", Json::Unsigned(1));
    proof {
        assert(json::list_view(list@) =~= seq![stack_frame(m@)]);
    }
    Json::Object(o)
}

fn scope_body(name: &str, reference: i64) -> (r: Json)
    ensures
        r@ == scope(name@, reference),
{
    let mut o = Object::new();
    o.set("name", Json::string(name));
    o.set("variablesReference", Json::Negative(reference));
    o.set("expensive", Json::Bool(false));
    Json::Object(o)
}

fn scopes_body() -> (r: Json)
    ensures
        r@ == scopes(),
{
    let mut list: Vec<Json> = Vec::new();
    json::push_item(&mut list, scope_body("Tactic State", debug::REF_TACTIC));
    json::push_item(&mut list, scope_body("Messages", debug::REF_MESSAGES));
    let mut o = Object::new();
    o.set("scopes", Json::List(list));
    proof {
        assert(json::list_view(list@) =~= seq![
            scope("Tactic State"@, debug::REF_TACTIC),
            scope("Messages"@, debug::REF_MESSAGES),
        ]);
    }
    Json::Object(o)
}

fn variable_body(v: &Var) -> (r: Json)
    ensures
        r@ == var_json(v@),
{
    let mut o = Object::new();
    o.set("name", Json::string(v.name.as_str()));
    o.set("value", Json::string(v.value.as_str()));
    o.set("variablesReference", Json::Negative(v.reference));
    Json::Object(o)
}

fn variables_body(m: &Model, reference: i64) -> (r: Json)
    ensures
        r@ == variables(debug::children_of(m@, reference)),
{
    let ghost children = debug::children_of(m@, reference);
    let ghost all = children.map_values(|v: VarView| var_json(v));
    let mut list: Vec<Json> = Vec::new();
    proof {
        assert(json::list_view(list@) =~= all.take(0));
    }
    if let Some(vs) = m.children(reference) {
        let mut i: usize = 0;
        while i < vs.len()
            invariant
                i <= vs.len(),
                children == debug::vars(vs@),
                all == children.map_values(|v: VarView| var_json(v)),
                json::list_view(list@) == all.take(i as int),
            decreases vs.len() - i,
        {
            json::push_item(&mut list, variable_body(&vs[i]));
            proof {
                assert(all[i as int] == var_json(vs@[i as int]@));
                assert(all.take(i + 1) =~= all.take(i as int).push(all[i as int]));
            }
            i += 1;
        }
        proof {
            assert(all.take(i as int) =~= all);
        }
    }
    let mut o = Object::new();
    o.set("variables", Json::List(list));
    proof {
        assert(json::list_view(list@) =~= all);
    }
    Json::Object(o)
}

fn answer_body(model: &Model, m: &Json) -> (r: Json)
    requires
        model.line >= 0,
    ensures
        r@ == body_for(model@, m@),
{
    let command = m.at("command").str_or("");
    if text::same_text(command, "initialize") {
        capabilities_body()
    } else if text::same_text(command, "setBreakpoints") || text::same_text(
        command,
        "setExceptionBreakpoints",
    ) {
        breakpoints_body()
    } else if text::same_text(command, "threads") {
        threads_body()
    } else if text::same_text(command, "stackTrace") {
        stack_body(model)
    } else if text::same_text(command, "scopes") {
        scopes_body()
    } else if text::same_text(command, "variables") {
        variables_body(model, m.at("arguments").at("variablesReference").i64_or(0))
    } else if text::same_text(command, "continue") {
        let mut o = Object::new();
        o.set("allThreadsContinued", Json::Bool(true));
        Json::Object(o)
    } else {
        Json::Object(Object::new())
    }
}

fn follow_up(m: &Json) -> (r: Option<(String, Json)>)
    ensures
        match (r, event_for(m@)) {
            (Some((name, body)), Some(out)) => out == Out::Event(name@, body@),
            (None, None) => true,
            _ => false,
        },
{
    let command = m.at("command").str_or("");
    if text::same_text(command, "initialize") {
        Some(("initialized".to_owned(), Json::Object(Object::new())))
    } else if text::same_text(command, "configurationDone") {
        Some(("stopped".to_owned(), stop_body("entry")))
    } else if text::same_text(command, "continue") {
        Some(("stopped".to_owned(), stop_body("pause")))
    } else if text::same_text(command, "disconnect") || text::same_text(command, "terminate") {
        Some(("terminated".to_owned(), Json::Object(Object::new())))
    } else {
        None
    }
}

impl Session {
    /// The line of the model is no negative number.
    pub open spec fn wf(&self) -> bool {
        self.model.line >= 0
    }

    /// A session that has not begun.
    pub fn new() -> (r: Session)
        ensures
            r.wf(),
            r@.seq == 1,
            !r@.configured,
            r@.model == (ModelView {
                path: Seq::empty(),
                file: Seq::empty(),
                line: 0,
                root: Seq::empty(),
                goals: Seq::empty(),
                messages: Seq::empty(),
            }),
    {
        Session { seq: 1, configured: false, model: Model::new() }
    }

    /// Answers a request.
    pub fn respond(&mut self, req: &Json, body: Json) -> (r: Json)
        ensures
            r@ == out_json(req@, Out::Response(body@), old(self)@.seq),
            final(self)@ == (SessionView { seq: next_seq(old(self)@.seq), ..old(self)@ }),
            final(self).model == old(self).model,
    {
        let mut o = Object::new();
        o.set("type", Json::string("response"));
        o.set("seq", Json::Negative(self.seq));
        o.set("request_seq", req.at("seq").copy());
        o.set("command", req.at("command").copy());
        o.set("success", Json::Bool(true));
        o.set("body", body);
        self.seq = self.seq.wrapping_add(1);
        Json::Object(o)
    }

    /// Reports an event.
    pub fn event(&mut self, name: &str, body: Json) -> (r: Json)
        ensures
            forall|req: JsonView|
                r@ == #[trigger] out_json(req, Out::Event(name@, body@), old(self)@.seq),
            final(self)@ == (SessionView { seq: next_seq(old(self)@.seq), ..old(self)@ }),
            final(self).model == old(self).model,
    {
        let mut o = Object::new();
        o.set("type", Json::string("event"));
        o.set("seq", Json::Negative(self.seq));
        o.set("event", Json::string(name));
        o.set("body", body);
        self.seq = self.seq.wrapping_add(1);
        Json::Object(o)
    }

    /// Takes a message of the editor; returns the messages that it draws. One
    /// that is no request draws none.
    pub fn react(&mut self, m: &Json) -> (r: Vec<Json>)
        requires
            old(self).wf(),
        ensures
            final(self).wf(),
            json::list_view(r@) == outputs(old(self)@, m@),
            final(self)@ == session_after(old(self)@, m@),
    {
        let mut out: Vec<Json> = Vec::new();
        proof {
            assert(json::list_view(out@) =~= Seq::<JsonView>::empty());
            reveal_strlit("");
            reveal_strlit("request");
            assert("request"@.len() > ""@.len());
        }
        if !text::same_text(m.at("type").str_or(""), "request") {
            return out;
        }
        let body = answer_body(&self.model, m);
        let response = self.respond(m, body);
        json::push_item(&mut out, response);
        if let Some((name, event_body)) = follow_up(m) {
            let event = self.event(name.as_str(), event_body);
            proof {
                assert(event@ == out_json(m@, Out::Event(name@, event_body@), next_seq(
                    old(self)@.seq,
                )));
            }
            json::push_item(&mut out, event);
        }
        if text::same_text(m.at("command").str_or(""), "configurationDone") {
            self.configured = true;
        }
        proof {
            assert(json::list_view(out@) =~= outputs(old(self)@, m@));
            assert(self@ =~= session_after(old(self)@, m@));
        }
        out
    }

    /// Takes the body of one message of the editor; returns the frames that go
    /// back, and whether the session is over. A body that is no JSON draws
    /// nothing.
    pub fn handle(&mut self, body: &[u8]) -> (r: AdapterStep)
        requires
            old(self).wf(),
        ensures
            final(self).wf(),
            match json::json_of(body@) {
                None => {
                    &&& final(self)@ == old(self)@
                    &&& frame_bytes(r.frames@) == Seq::<Seq<u8>>::empty()
                    &&& !r.exit
                },
                Some(m) => {
                    &&& final(self)@ == session_after(old(self)@, m)
                    &&& frame_bytes(r.frames@) == frames_of(outputs(old(self)@, m))
                    &&& forall|i: int|
                        0 <= i < r.frames@.len() ==> bridge::readable(
                            (#[trigger] r.frames@[i])@,
                            outputs(old(self)@, m)[i],
                        )
                    &&& r.exit == ends_session(m)
                },
            },
    {
        let mut frames: Vec<Vec<u8>> = Vec::new();
        let m = match Json::parse(body) {
            Some(m) => m,
            None => {
                proof {
                    assert(frame_bytes(frames@) =~= Seq::<Seq<u8>>::empty());
                }
                return AdapterStep { frames, exit: false };
            },
        };
        let out = self.react(&m);
        let ghost all = frames_of(outputs(old(self)@, m@));
        let mut i: usize = 0;
        proof {
            json::lemma_list_view(out@);
            assert(frame_bytes(frames@) =~= all.take(0));
        }
        while i < out.len()
            invariant
                i <= out.len(),
                json::list_view(out@).len() == out@.len(),
                forall|k: int|
                    0 <= k < out@.len() ==> #[trigger] json::list_view(out@)[k] == json::json_view(
                        out@[k],
                    ),
                all == frames_of(json::list_view(out@)),
                frame_bytes(frames@) == all.take(i as int),
                frames@.len() == i,
                forall|k: int|
                    0 <= k < i ==> bridge::readable(
                        (#[trigger] frames@[k])@,
                        json::list_view(out@)[k],
                    ),
            decreases out.len() - i,
        {
            let ghost before = frames@;
            frames.push(bridge::message_frame(&out[i]));
            proof {
                assert(json::list_view(out@)[i as int] == out@[i as int]@);
                assert(all[i as int] == frames@.last()@);
                assert(frame_bytes(frames@) =~= frame_bytes(before).push(frames@.last()@));
                assert(all.take(i + 1) =~= all.take(i as int).push(all[i as int]));
            }
            i += 1;
        }
        proof {
            assert(all.take(i as int) =~= all);
            reveal_strlit("");
            reveal_strlit("request");
            assert("request"@.len() > ""@.len());
        }
        let command = m.at("command").str_or("");
        let exit = text::same_text(m.at("type").str_or(""), "request") && (text::same_text(
            command,
            "disconnect",
        ) || text::same_text(command, "terminate"));
        AdapterStep { frames, exit }
    }

    /// Takes a line of the proxy's socket: a snapshot fills the model, and once
    /// the editor is configured a stop makes it fetch everything again.
    pub fn on_snapshot(&mut self, line: &str) -> (r: Option<Vec<u8>>)
        requires
            old(self).wf(),
        ensures
            final(self).wf(),
            match model_in(line@) {
                None => r is None && final(self)@ == old(self)@,
                Some(model) => {
                    &&& final(self)@.model == model
                    &&& final(self)@.configured == old(self)@.configured
                    &&& if old(self)@.configured {
                        &&& final(self)@.seq == next_seq(old(self)@.seq)
                        &&& r matches Some(bytes) && bytes@ == bridge::message_bytes(
                            out_json(
                                JsonView::Null,
                                Out::Event("stopped"@, stopped("pause"@)),
                                old(self)@.seq,
                            ),
                        ) && bridge::readable(
                            bytes@,
                            out_json(
                                JsonView::Null,
                                Out::Event("stopped"@, stopped("pause"@)),
                                old(self)@.seq,
                            ),
                        )
                    } else {
                        final(self)@.seq == old(self)@.seq && r is None
                    }
                },
            },
    {
        let snap = match Json::parse(line.as_bytes()) {
            Some(snap) => snap,
            None => return None,
        };
        debug::rebuild(&mut self.model, &snap);
        proof {
            assert(self.model.line == self.model@.line);
        }
        if self.configured {
            let event = self.event("stopped", stop_body("pause"));
            proof {
                assert(event@ == out_json(
                    JsonView::Null,
                    Out::Event("stopped"@, stopped("pause"@)),
                    old(self)@.seq,
                ));
            }
            Some(bridge::message_frame(&event))
        } else {
            None
        }
    }
}

// ------------------------------------------------------------------- laws --

proof fn lemma_commands()
    ensures
        ""@.len() == 0,
        "initialize"@.len() == 10,
        "stackTrace"@.len() == 10,
        "disconnect"@.len() == 10,
        "initialize"@ != "stackTrace"@,
        "initialize"@ != "disconnect"@,
        "stackTrace"@ != "disconnect"@,
        "threads"@.len() == 7,
        "scopes"@.len() == 6,
        "variables"@.len() == 9,
        "terminate"@.len() == 9,
        "variables"@ != "terminate"@,
        "continue"@.len() == 8,
        "setBreakpoints"@.len() == 14,
        "setExceptionBreakpoints"@.len() == 23,
        "configurationDone"@.len() == 17,
{
    reveal_strlit("");
    reveal_strlit("initialize");
    reveal_strlit("stackTrace");
    reveal_strlit("disconnect");
    reveal_strlit("threads");
    reveal_strlit("scopes");
    reveal_strlit("variables");
    reveal_strlit("terminate");
    reveal_strlit("continue");
    reveal_strlit("setBreakpoints");
    reveal_strlit("setExceptionBreakpoints");
    reveal_strlit("configurationDone");
    assert("initialize"@[0] == 'i' && "stackTrace"@[0] == 's' && "disconnect"@[0] == 'd');
    assert("variables"@[0] == 'v' && "terminate"@[0] == 't');
}

proof fn lemma_names()
    ensures
        "id"@.len() == 2,
        "name"@.len() == 4,
        "line"@.len() == 4,
        "path"@.len() == 4,
        "name"@ != "line"@,
        "name"@ != "path"@,
        "line"@ != "path"@,
        "value"@.len() == 5,
        "column"@.len() == 6,
        "source"@.len() == 6,
        "reason"@.len() == 6,
        "column"@ != "source"@,
        "column"@ != "reason"@,
        "source"@ != "reason"@,
        "threadId"@.len() == 8,
        "expensive"@.len() == 9,
        "stackFrames"@.len() == 11,
        "totalFrames"@.len() == 11,
        "description"@.len() == 11,
        "stackFrames"@ != "totalFrames"@,
        "stackFrames"@ != "description"@,
        "totalFrames"@ != "description"@,
        "allThreadsStopped"@.len() == 17,
        "preserveFocusHint"@.len() == 17,
        "allThreadsStopped"@ != "preserveFocusHint"@,
        "variablesReference"@.len() == 18,
        "supportsTerminateRequest"@.len() == 24,
        "supportsConfigurationDoneRequest"@.len() == 32,
{
    reveal_strlit("id");
    reveal_strlit("name");
    reveal_strlit("line");
    reveal_strlit("path");
    reveal_strlit("value");
    reveal_strlit("column");
    reveal_strlit("source");
    reveal_strlit("reason");
    reveal_strlit("threadId");
    reveal_strlit("expensive");
    reveal_strlit("stackFrames");
    reveal_strlit("totalFrames");
    reveal_strlit("description");
    reveal_strlit("allThreadsStopped");
    reveal_strlit("preserveFocusHint");
    reveal_strlit("variablesReference");
    reveal_strlit("supportsTerminateRequest");
    reveal_strlit("supportsConfigurationDoneRequest");
    assert("name"@[0] == 'n' && "line"@[0] == 'l' && "path"@[0] == 'p');
    assert("column"@[0] == 'c' && "source"@[0] == 's' && "reason"@[0] == 'r');
    assert("stackFrames"@[0] == 's' && "totalFrames"@[0] == 't' && "description"@[0] == 'd');
    assert("allThreadsStopped"@[0] == 'a' && "preserveFocusHint"@[0] == 'p');
}

/// The answer to a request for variables lists the children of the number that it
/// names, in order, each with its name, its value and its own number.
pub proof fn law_variables_listed(model: ModelView, m: JsonView, reference: i64)
    requires
        m.at("command"@) == JsonView::Text("variables"@),
        m.at("arguments"@).at("variablesReference"@) == JsonView::Int(reference as int) || (m.at(
            "arguments"@,
        ).at("variablesReference"@).sint() is None && reference == 0),
    ensures
        ({
            let list = body_for(model, m).at("variables"@);
            let vs = debug::children_of(model, reference);
            &&& list is List
            &&& list.items().len() == vs.len()
            &&& forall|i: int|
                0 <= i < vs.len() ==> (#[trigger] list.items()[i]).at("name"@) == JsonView::Text(
                    vs[i].name,
                ) && list.items()[i].at("value"@) == JsonView::Text(vs[i].value)
                    && list.items()[i].at("variablesReference"@) == JsonView::Int(
                    vs[i].reference as int,
                )
        }),
{
    lemma_commands();
    lemma_names();
    let vs = debug::children_of(model, reference);
    let list = body_for(model, m).at("variables"@);
    assert(list.items() == vs.map_values(|v: VarView| var_json(v)));
    assert forall|i: int| 0 <= i < vs.len() implies #[trigger] list.items()[i] == var_json(
        vs[i],
    ) by {}
}

/// A goal of the tactic state can be opened: a request with the number that its row
/// was answered with is answered with the variables of that goal.
pub proof fn law_goal_opens(snap: JsonView, top: JsonView, open: JsonView, i: int)
    requires
        top.at("command"@) == JsonView::Text("variables"@),
        top.at("arguments"@).at("variablesReference"@) == JsonView::Int(1),
        0 <= i < debug::model_of(snap).goals.len() <= i64::MAX - 100,
        open.at("command"@) == JsonView::Text("variables"@),
        open.at("arguments"@).at("variablesReference"@) == body_for(
            debug::model_of(snap),
            top,
        ).at("variables"@).items()[i].at("variablesReference"@),
    ensures
        ({
            let vs = debug::model_of(snap).goals[i];
            let list = body_for(debug::model_of(snap), open).at("variables"@).items();
            &&& list.len() == vs.len()
            &&& forall|k: int|
                0 <= k < vs.len() ==> (#[trigger] list[k]).at("name"@) == JsonView::Text(vs[k].name)
                    && list[k].at("value"@) == JsonView::Text(vs[k].value)
        }),
{
    let m = debug::model_of(snap);
    law_variables_listed(m, top, 1);
    debug::law_references(m, i);
    debug::law_goal_children(snap, i);
    let vs = debug::children_of(m, 1);
    assert(vs[i].reference == m.root[i].reference);
    let list = body_for(m, top).at("variables"@).items();
    assert(list[i].at("variablesReference"@) == JsonView::Int(vs[i].reference as int));
    law_variables_listed(m, open, m.root[i].reference);
}

/// The stack is one frame at the cursor: it is named by file and line, at that line
/// and the first column, with a source where the path is known.
pub proof fn law_one_frame(model: ModelView, m: JsonView)
    requires
        m.at("command"@) == JsonView::Text("stackTrace"@),
        model.line >= 0,
    ensures
        ({
            let body = body_for(model, m);
            let f = body.at("stackFrames"@).item(0);
            &&& body.at("stackFrames"@).items().len() == 1
            &&& body.at("totalFrames"@) == JsonView::Int(1)
            &&& f.at("id"@) == JsonView::Int(1)
            &&& f.at("line"@) == JsonView::Int(model.line as int)
            &&& f.at("column"@) == JsonView::Int(1)
            &&& model.file.len() == 0 ==> f.at("name"@) == JsonView::Text("Lean"@)
            &&& model.file.len() > 0 ==> f.at("name"@) == JsonView::Text(
                model.file + ":"@ + text::decimal(model.line as nat),
            )
            &&& model.path.len() == 0 ==> f.at("source"@) is Null
            &&& model.path.len() > 0 ==> f.at("source"@).at("path"@) == JsonView::Text(model.path)
                && f.at("source"@).at("name"@) == JsonView::Text(model.file)
        }),
{
    lemma_commands();
    lemma_names();
}

/// The frame has two scopes, which ask for the top level and for the messages.
pub proof fn law_two_scopes(model: ModelView, m: JsonView)
    requires
        m.at("command"@) == JsonView::Text("scopes"@),
    ensures
        ({
            let list = body_for(model, m).at("scopes"@);
            &&& list.items().len() == 2
            &&& list.item(0).at("name"@) == JsonView::Text("Tactic State"@)
            &&& list.item(0).at("variablesReference"@) == JsonView::Int(1)
            &&& list.item(0).at("expensive"@) == JsonView::Bool(false)
            &&& list.item(1).at("name"@) == JsonView::Text("Messages"@)
            &&& list.item(1).at("variablesReference"@) == JsonView::Int(2)
            &&& list.item(1).at("expensive"@) == JsonView::Bool(false)
        }),
{
    lemma_commands();
    lemma_names();
}

/// The bodies of the other answers: one thread, no breakpoints, what the adapter
/// can do, that all threads go on, and nothing for anything else.
pub proof fn law_plain_answers(model: ModelView, m: JsonView)
    ensures
        m.at("command"@) == JsonView::Text("threads"@) ==> body_for(model, m).at(
            "threads"@,
        ).items().len() == 1 && body_for(model, m).at("threads"@).item(0).at("id"@)
            == JsonView::Int(1) && body_for(model, m).at("threads"@).item(0).at("name"@)
            == JsonView::Text("Lean"@),
        m.at("command"@) == JsonView::Text("setBreakpoints"@) || m.at("command"@)
            == JsonView::Text("setExceptionBreakpoints"@) ==> body_for(model, m).at(
            "breakpoints"@,
        ) == JsonView::List(Seq::empty()),
        m.at("command"@) == JsonView::Text("initialize"@) ==> body_for(model, m).at(
            "supportsConfigurationDoneRequest"@,
        ) == JsonView::Bool(true) && body_for(model, m).at("supportsTerminateRequest"@)
            == JsonView::Bool(true),
        m.at("command"@) == JsonView::Text("continue"@) ==> body_for(model, m).at(
            "allThreadsContinued"@,
        ) == JsonView::Bool(true),
        !(m.at("command"@) is Text) || !seq![
            "threads"@,
            "setBreakpoints"@,
            "setExceptionBreakpoints"@,
            "initialize"@,
            "continue"@,
            "stackTrace"@,
            "scopes"@,
            "variables"@,
        ].contains(m.at("command"@)->Text_0) ==> body_for(model, m) == JsonView::Object(
            Map::empty(),
        ),
{
    lemma_commands();
    lemma_names();
    let all = seq![
        "threads"@,
        "setBreakpoints"@,
        "setExceptionBreakpoints"@,
        "initialize"@,
        "continue"@,
        "stackTrace"@,
        "scopes"@,
        "variables"@,
    ];
    assert(all[0] == "threads"@ && all[1] == "setBreakpoints"@ && all[2]
        == "setExceptionBreakpoints"@ && all[3] == "initialize"@ && all[4] == "continue"@ && all[5]
        == "stackTrace"@ && all[6] == "scopes"@ && all[7] == "variables"@);
}

/// What the editor is told of a stop: why, and that the one thread and with it all
/// have stopped, without taking the focus.
pub proof fn law_stop_members(reason: Seq<char>)
    ensures
        stopped(reason).at("reason"@) == JsonView::Text(reason),
        stopped(reason).at("description"@) == JsonView::Text("Lean goal state"@),
        stopped(reason).at("threadId"@) == JsonView::Int(1),
        stopped(reason).at("allThreadsStopped"@) == JsonView::Bool(true),
        stopped(reason).at("preserveFocusHint"@) == JsonView::Bool(true),
{
    lemma_names();
}

/// Which requests are followed by an event, and by which; only those two end the
/// session, and only one configures it.
pub proof fn law_events_follow(s: SessionView, m: JsonView)
    requires
        m.at("type"@) == JsonView::Text("request"@),
    ensures
        ({
            let out = outputs(s, m);
            let c = m.at("command"@);
            let ends = c == JsonView::Text("disconnect"@) || c == JsonView::Text("terminate"@);
            &&& c == JsonView::Text("initialize"@) ==> out.len() == 2 && out[1].at("type"@)
                == JsonView::Text("event"@) && out[1].at("event"@) == JsonView::Text(
                "initialized"@,
            )
            &&& c == JsonView::Text("configurationDone"@) ==> out.len() == 2 && out[1].at(
                "event"@,
            ) == JsonView::Text("stopped"@) && out[1].at("body"@).at("reason"@) == JsonView::Text(
                "entry"@,
            )
            &&& c == JsonView::Text("continue"@) ==> out.len() == 2 && out[1].at("event"@)
                == JsonView::Text("stopped"@) && out[1].at("body"@).at("reason"@)
                == JsonView::Text("pause"@)
            &&& ends ==> out.len() == 2 && out[1].at("event"@) == JsonView::Text("terminated"@)
            &&& ends || c == JsonView::Text("initialize"@) ==> out[1].at("body"@)
                == JsonView::Object(Map::empty())
            &&& out.len() == 2 ==> out[1].at("type"@) == JsonView::Text("event"@)
            &&& c != JsonView::Text("initialize"@) && c != JsonView::Text("configurationDone"@)
                && c != JsonView::Text("continue"@) && !ends ==> out.len() == 1
            &&& ends_session(m) <==> ends
            &&& session_after(s, m).configured <==> s.configured || c == JsonView::Text(
                "configurationDone"@,
            )
        }),
{
    lemma_commands();
    lemma_names();
    law_stop_members("entry"@);
    law_stop_members("pause"@);
    reveal_strlit("type");
    reveal_strlit("seq");
    reveal_strlit("event");
    reveal_strlit("body");
    assert("type"@.len() == 4 && "type"@[0] == 't' && "body"@.len() == 4 && "body"@[0] == 'b');
    assert("seq"@.len() == 3 && "event"@.len() == 5);
}

/// A message that is no request changes nothing and ends nothing.
pub proof fn law_only_requests(s: SessionView, m: JsonView)
    requires
        m.at("type"@) != JsonView::Text("request"@),
    ensures
        outputs(s, m).len() == 0,
        session_after(s, m) == s,
        !ends_session(m),
{
}

/// At their end the numbers of the messages start over.
pub proof fn law_numbers_start_over(s: SessionView, m: JsonView)
    requires
        s.seq == i64::MAX,
    ensures
        outputs(s, m).len() == 1 ==> session_after(s, m).seq == i64::MIN,
        outputs(s, m).len() == 2 ==> session_after(s, m).seq == i64::MIN + 1 && outputs(s, m)[1].at(
            "seq"@,
        ) == JsonView::Int(i64::MIN as int),
{
    lemma_names();
    reveal_strlit("type");
    reveal_strlit("seq");
    reveal_strlit("event");
    reveal_strlit("body");
    assert("type"@.len() == 4 && "type"@[0] == 't' && "body"@.len() == 4 && "body"@[0] == 'b');
    assert("seq"@.len() == 3 && "event"@.len() == 5);
}

} // verus!
