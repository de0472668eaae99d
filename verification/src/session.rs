//! The proxy between editor and server: what each message changes, and where
//! it goes.

use crate::bridge::{self, Bridge, BridgeView};
use crate::frame;
use crate::ids;
use crate::json::{self, Json, JsonView, Object};
use crate::render;
use crate::state::{self, Asked, Cursor, CursorView, State, StateView};
use crate::text;
use vstd::prelude::*;
use vstd::slice::slice_subrange;
use vstd::string::*;

verus! {

broadcast use vstd::std_specs::hash::group_hash_axioms;

// --------------------------------------------------------- editor messages --

/// What a message of the editor leads to.
pub struct EditorStep {
    /// Bytes for the server.
    pub to_server: Option<Vec<u8>>,
    /// Bytes for the editor.
    pub to_editor: Option<Vec<u8>>,
    /// The infoview window is to come up.
    pub open_window: bool,
    /// The goal view has something to catch up with.
    pub tick: bool,
}

/// The title of the code action that opens the infoview.
pub open spec fn action_title() -> Seq<char> {
    "Lean: open infoview"@
}

/// The command that the code action carries.
pub open spec fn action_command() -> Seq<char> {
    "lean-goalview.openInfoview"@
}

/// The method of a message; empty where it has none.
pub open spec fn method_of(m: JsonView) -> Seq<char> {
    m.at("method"@).text_or(""@)
}

/// The root of the workspace that `initialize` names.
pub open spec fn workspace_root(m: JsonView) -> Seq<char> {
    match m.at("params"@).at("rootUri"@).text() {
        Some(root) => root,
        None => m.at("params"@).at("workspaceFolders"@).item(0).at("uri"@).text_or(""@),
    }
}

/// Where the goal file goes: where the user wants it, else into the workspace,
/// else into the current directory.
pub open spec fn goal_path(m: JsonView, wanted: Option<Seq<char>>) -> Seq<char> {
    match wanted {
        Some(path) => path,
        None => (if text::begins(workspace_root(m), "file://"@) {
            workspace_root(m).skip(7)
        } else {
            "."@
        }) + "/.goalview.md"@,
    }
}

/// The requests that carry the cursor position.
pub open spec fn carries_cursor(method: Seq<char>) -> bool {
    ||| method == "textDocument/documentHighlight"@
    ||| method == "textDocument/hover"@
    ||| method == "textDocument/codeAction"@
}

/// The position in such a request: its own, or the start of its range.
pub open spec fn cursor_in(m: JsonView) -> CursorView {
    let p = m.at("params"@);
    let pos = if p.at("position"@) is Object {
        p.at("position"@)
    } else {
        p.at("range"@).at("start"@)
    };
    CursorView {
        uri: p.at("textDocument"@).at("uri"@).text_or(""@),
        line: pos.at("line"@).uint_or(0),
        character: pos.at("character"@).uint_or(0),
    }
}

/// The message is about the cursor in a Lean file.
pub open spec fn observes(m: JsonView) -> bool {
    carries_cursor(method_of(m)) && text::ends(cursor_in(m).uri, ".lean"@)
}

/// The request was marked as one that no user invoked.
pub open spec fn automatic(m: JsonView) -> bool {
    m.at("params"@).at("context"@).at("triggerKind"@).uint() == Some(2u64)
}

/// The message runs the command of the proxy's own code action.
pub open spec fn own_command(m: JsonView) -> bool {
    method_of(m) == "workspace/executeCommand"@ && m.at("params"@).at("command"@)
        == JsonView::Text(action_command())
}

/// A set with one more number, where there is one.
pub open spec fn with_number(s: Set<u64>, n: Option<u64>) -> Set<u64> {
    match n {
        Some(n) => s.insert(n),
        None => s,
    }
}

/// The state after a message of the editor.
pub open spec fn editor_state(s: StateView, m: JsonView, wanted: Option<Seq<char>>) -> StateView {
    if method_of(m) == "initialize"@ {
        StateView {
            init_id: Some(m.at("id"@)),
            out_path: Some(goal_path(m, wanted)),
            ..s
        }
    } else if observes(m) {
        StateView {
            cursor: Some(cursor_in(m)),
            pending_hovers: if method_of(m) == "textDocument/hover"@ {
                with_number(s.pending_hovers, m.at("id"@).uint())
            } else {
                s.pending_hovers
            },
            pending_actions: if method_of(m) == "textDocument/codeAction"@ && !automatic(m)
                && ids::is_id(m.at("id"@)) {
                s.pending_actions.insert(m.at("id"@))
            } else {
                s.pending_actions
            },
            ..s
        }
    } else {
        s
    }
}

/// The answer to the proxy's own command.
pub open spec fn command_done(m: JsonView) -> JsonView {
    JsonView::Object(
        map![
            "jsonrpc"@ => JsonView::Text("2.0"@),
            "id"@ => m.at("id"@),
            "result"@ => JsonView::Null,
        ],
    )
}

proof fn lemma_methods_differ()
    ensures
        "initialize"@ != "textDocument/documentHighlight"@,
        "initialize"@ != "textDocument/hover"@,
        "initialize"@ != "textDocument/codeAction"@,
        "initialize"@ != "workspace/executeCommand"@,
        "textDocument/hover"@ != "textDocument/codeAction"@,
        "textDocument/hover"@ != "textDocument/documentHighlight"@,
        "textDocument/documentHighlight"@ != "textDocument/codeAction"@,
        "workspace/executeCommand"@ != "textDocument/documentHighlight"@,
        "workspace/executeCommand"@ != "textDocument/hover"@,
        "workspace/executeCommand"@ != "textDocument/codeAction"@,
        ""@.len() == 0,
        "initialize"@.len() > 0,
        "textDocument/hover"@.len() > 0,
{
    reveal_strlit("");
    reveal_strlit("initialize");
    reveal_strlit("textDocument/documentHighlight");
    reveal_strlit("textDocument/hover");
    reveal_strlit("textDocument/codeAction");
    reveal_strlit("workspace/executeCommand");
    assert("initialize"@.len() == 10);
    assert("textDocument/documentHighlight"@.len() == 30);
    assert("textDocument/hover"@.len() == 18);
    assert("textDocument/codeAction"@.len() == 23);
    assert("workspace/executeCommand"@.len() == 24);
}

fn goal_file_path(m: &Json, wanted: &Option<String>) -> (r: String)
    ensures
        r@ == goal_path(m@, state::opt_text(*wanted)),
{
    if let Some(path) = wanted {
        return path.clone();
    }
    let params = m.at("params");
    let root = match params.at("rootUri").as_str() {
        Some(root) => root,
        None => params.at("workspaceFolders").item(0).at("uri").str_or(""),
    };
    let chars = text::chars_of(root);
    let scheme = text::chars_of("file://");
    let mut path = if text::starts_with(chars.as_slice(), scheme.as_slice()) {
        proof {
            reveal_strlit("file://");
            assert(chars@.subrange(7, chars@.len() as int) =~= chars@.skip(7));
        }
        text::text_of(slice_subrange(chars.as_slice(), 7, chars.len()))
    } else {
        ".".to_owned()
    };
    path.append("/.goalview.md");
    path
}

fn read_cursor(m: &Json) -> (r: Cursor)
    ensures
        r@ == cursor_in(m@),
{
    let params = m.at("params");
    let pos = if params.at("position").is_object() {
        params.at("position")
    } else {
        params.at("range").at("start")
    };
    Cursor {
        uri: params.at("textDocument").at("uri").str_or("").to_owned(),
        line: pos.at("line").u64_or(0),
        character: pos.at("character").u64_or(0),
    }
}

fn is_lean(uri: &str) -> (r: bool)
    ensures
        r == text::ends(uri@, ".lean"@),
{
    let chars = text::chars_of(uri);
    let suffix = text::chars_of(".lean");
    text::ends_with(chars.as_slice(), suffix.as_slice())
}

/// Takes note of a message of the editor; returns whether the goal view has
/// something to catch up with. `wanted` is where the user wants the goal file.
pub fn note_editor_message(state: &mut State, m: &Json, wanted: &Option<String>) -> (r: bool)
    requires
        old(state).wf(),
    ensures
        final(state).wf(),
        final(state)@ == editor_state(old(state)@, m@, state::opt_text(*wanted)),
        r == (method_of(m@) != "initialize"@ && observes(m@)),
{
    proof {
        lemma_methods_differ();
    }
    let method = m.at("method").str_or("");
    if text::same_text(method, "initialize") {
        state.init_id = Some(m.at("id").copy());
        state.out_path = Some(goal_file_path(m, wanted));
        proof {
            assert(state@ =~= editor_state(old(state)@, m@, state::opt_text(*wanted)));
        }
        return false;
    }
    let hover = text::same_text(method, "textDocument/hover");
    let action = text::same_text(method, "textDocument/codeAction");
    if !hover && !action && !text::same_text(method, "textDocument/documentHighlight") {
        return false;
    }
    let cursor = read_cursor(m);
    if !is_lean(cursor.uri.as_str()) {
        return false;
    }
    state.cursor = Some(cursor);
    if hover {
        if let Some(id) = m.at("id").as_u64() {
            state.pending_hovers.insert(id);
        }
    }
    if action && ids::usable(m.at("id")) {
        let automatic = match m.at("params").at("context").at("triggerKind").as_u64() {
            Some(kind) => kind == 2,
            None => false,
        };
        if !automatic {
            state.pending_actions.insert(m.at("id"));
        }
    }
    proof {
        assert(state@ =~= editor_state(old(state)@, m@, state::opt_text(*wanted)));
    }
    true
}

/// Takes the body of one message of the editor. Everything passes on to the
/// server as it is, but for the proxy's own command: that one is answered here
/// and brings the window up.
pub fn from_editor(state: &mut State, body: &[u8], wanted: &Option<String>) -> (r: EditorStep)
    requires
        old(state).wf(),
    ensures
        final(state).wf(),
        match json::json_of(body@) {
            None => {
                &&& final(state)@ == old(state)@
                &&& r.to_server matches Some(bytes) && bytes@ == frame::framed(body@)
                &&& r.to_editor is None
                &&& !r.open_window
                &&& !r.tick
            },
            Some(m) => {
                &&& final(state)@ == editor_state(old(state)@, m, state::opt_text(*wanted))
                &&& r.tick == (method_of(m) != "initialize"@ && observes(m))
                &&& r.open_window == own_command(m)
                &&& own_command(m) ==> r.to_server is None && (r.to_editor matches Some(bytes)
                    && bytes@ == bridge::message_bytes(command_done(m)) && bridge::readable(
                    bytes@,
                    command_done(m),
                ))
                &&& !own_command(m) ==> r.to_editor is None && (r.to_server matches Some(bytes)
                    && bytes@ == frame::framed(body@))
            },
        },
{
    let m = match Json::parse(body) {
        Some(m) => m,
        None => return EditorStep {
            to_server: Some(frame::write_frame(body)),
            to_editor: None,
            open_window: false,
            tick: false,
        },
    };
    let tick = note_editor_message(state, &m, wanted);
    let own = text::same_text(m.at("method").str_or(""), "workspace/executeCommand")
        && text::same_text(
        m.at("params").at("command").str_or(""),
        "lean-goalview.openInfoview",
    );
    proof {
        reveal_strlit("");
        reveal_strlit("lean-goalview.openInfoview");
        assert("lean-goalview.openInfoview"@.len() > ""@.len());
        assert(own == own_command(m@));
    }
    if own {
        let mut o = Object::new();
        o.set("jsonrpc", Json::string("2.0"));
        o.set("id", m.at("id").copy());
        o.set("result", Json::Null);
        EditorStep {
            to_server: None,
            to_editor: Some(bridge::message_frame(&Json::Object(o))),
            open_window: true,
            tick,
        }
    } else {
        EditorStep {
            to_server: Some(frame::write_frame(body)),
            to_editor: None,
            open_window: false,
            tick,
        }
    }
}

// --------------------------------------------------------- server messages --

/// What a message of the server leads to.
pub struct ServerStep {
    /// Bytes for the editor.
    pub to_editor: Option<Vec<u8>>,
    /// A text for one infoview client.
    pub to_client: Option<(u64, String)>,
    /// A text for every infoview client.
    pub to_all: Option<String>,
    /// The goal view has something to catch up with.
    pub tick: bool,
}

/// What such a step is.
#[verifier::ext_equal]
pub struct ServerStepView {
    pub to_editor: Option<Seq<u8>>,
    pub to_client: Option<(u64, Seq<char>)>,
    pub to_all: Option<Seq<char>>,
    pub tick: bool,
}

impl View for ServerStep {
    type V = ServerStepView;

    open spec fn view(&self) -> ServerStepView {
        ServerStepView {
            to_editor: match self.to_editor {
                Some(b) => Some(b@),
                None => None,
            },
            to_client: match self.to_client {
                Some((c, t)) => Some((c, t@)),
                None => None,
            },
            to_all: state::opt_text(self.to_all),
            tick: self.tick,
        }
    }
}

/// The message answers the editor's `initialize`.
pub open spec fn answers_initialize(s: StateView, m: JsonView) -> bool {
    &&& !(m.at("id"@) is Null)
    &&& s.init_id matches Some(id)
    &&& json::json_same(id, m.at("id"@))
    &&& !(m.at("result"@) is Null)
}

/// The message has a result, and the very id of the editor's `initialize`.
pub open spec fn has_init_id(s: StateView, m: JsonView) -> bool {
    !(m.at("id"@) is Null) && s.init_id == Some(m.at("id"@)) && !(m.at("result"@) is Null)
}

/// To answer `initialize` is to have its id, whatever the id is but a value with
/// fractions in it.
pub open spec fn recognized(s: StateView, m: JsonView) -> bool {
    &&& has_init_id(s, m) ==> answers_initialize(s, m)
    &&& answers_initialize(s, m) && json::plain(s.init_id->0, json::max_depth()) ==> has_init_id(
        s,
        m,
    )
}

/// The state once an answer to `initialize` has been noted.
pub open spec fn greeted(s: StateView, m: JsonView) -> StateView {
    if answers_initialize(s, m) {
        StateView { init_result: Some(m.at("result"@)), ..s }
    } else {
        s
    }
}

/// What every client hears of it.
pub open spec fn greeting(s: StateView, m: JsonView) -> Option<Seq<char>> {
    if answers_initialize(s, m) {
        Some(json::json_text(bridge::restart_json(m.at("result"@))))
    } else {
        None
    }
}

/// The kinds of server messages, by what becomes of them.
pub enum ServerKind {
    /// An answer to an infoview client.
    Bridged(Seq<char>),
    /// An answer to a hover of the editor that is to be enriched.
    Hover(u64),
    /// An answer to the code action request with this id, which is to be extended.
    Action(JsonView),
    /// An answer to a request of the proxy's own.
    Own(Seq<char>),
    /// Anything else.
    Other,
}

/// The kind of a server message.
pub open spec fn kind_of(s: StateView, m: JsonView) -> ServerKind {
    let id = m.at("id"@);
    if id is Text && text::begins(id->Text_0, "iv:"@) {
        ServerKind::Bridged(id->Text_0)
    } else if !(m.at("method"@) is Null) {
        ServerKind::Other
    } else if id is Text && text::begins(id->Text_0, "gv:"@) {
        ServerKind::Own(id->Text_0)
    } else if id.uint() is Some && s.pending_hovers.contains(id.uint()->0) {
        ServerKind::Hover(id.uint()->0)
    } else if s.pending_actions.contains(id) {
        ServerKind::Action(id)
    } else {
        ServerKind::Other
    }
}

/// The goal would have to be added to a hover answer that has no room for it:
/// its result is neither null nor an object.
pub open spec fn stuck(s: StateView, m: JsonView) -> bool {
    kind_of(s, m) is Hover && render::hover_goal(s) is Some && !render::enrichable(m)
}

/// The code action that opens the infoview: a command and no edit.
pub open spec fn action_json() -> JsonView {
    JsonView::Object(
        map![
            "title"@ => JsonView::Text(action_title()),
            "command"@ => JsonView::Object(
                map![
                    "title"@ => JsonView::Text(action_title()),
                    "command"@ => JsonView::Text(action_command()),
                ],
            ),
        ],
    )
}

/// An answer to a code action request can take one action more: it is no
/// error, and its result is a list or nothing.
pub open spec fn extendable(m: JsonView) -> bool {
    m.at("error"@) is Null && (m.at("result"@) is Null || m.at("result"@) is List)
}

/// The answer with the proxy's action at the end.
pub open spec fn with_action(m: JsonView) -> JsonView {
    render::with_member(
        m,
        "result"@,
        JsonView::List(m.at("result"@).items().push(action_json())),
    )
}

/// The state after a notification of the server.
pub open spec fn notified(s: StateView, m: JsonView) -> StateView {
    let p = m.at("params"@);
    if method_of(m) == "textDocument/publishDiagnostics"@ {
        StateView {
            diagnostics: s.diagnostics.insert(p.at("uri"@).text_or(""@), p.at("diagnostics"@)),
            ..s
        }
    } else if method_of(m) == "$/lean/fileProgress"@ {
        StateView {
            processing: s.processing.insert(
                p.at("textDocument"@).at("uri"@).text_or(""@),
                p.at("processing"@).items().len() > 0,
            ),
            ..s
        }
    } else {
        s
    }
}

/// The goal view has to catch up with a notification: with new diagnostics of
/// the file at the cursor, and with any progress.
pub open spec fn notice(s: StateView, m: JsonView) -> bool {
    if method_of(m) == "textDocument/publishDiagnostics"@ {
        s.cursor matches Some(c) && c.uri == m.at("params"@).at("uri"@).text_or(""@)
    } else {
        method_of(m) == "$/lean/fileProgress"@
    }
}

/// What the clients hear of any other message: a notification, mirrored.
pub open spec fn mirrored(m: JsonView) -> Option<Seq<char>> {
    if method_of(m).len() > 0 && m.at("id"@) is Null {
        Some(json::json_text(bridge::mirror_json(method_of(m), m.at("params"@))))
    } else {
        None
    }
}

/// The state after a message of the server.
pub open spec fn server_state(s0: StateView, m: JsonView) -> StateView {
    let s = greeted(s0, m);
    match kind_of(s0, m) {
        ServerKind::Bridged(_) => s,
        ServerKind::Hover(n) => StateView { pending_hovers: s.pending_hovers.remove(n), ..s },
        ServerKind::Action(id) => StateView { pending_actions: s.pending_actions.remove(id), ..s },
        ServerKind::Own(id) => if s.pending.dom().contains(id) {
            match s.pending[id] {
                Asked::Goal => StateView {
                    pending: s.pending.remove(id),
                    plain_goal: Some(m.at("result"@)),
                    ..s
                },
                Asked::Term => StateView {
                    pending: s.pending.remove(id),
                    term_goal: if m.at("result"@) is Null {
                        None
                    } else {
                        Some(m.at("result"@))
                    },
                    ..s
                },
            }
        } else {
            s
        },
        ServerKind::Other => notified(s, m),
    }
}

/// The bridge after a message of the server.
pub open spec fn server_bridge(s: StateView, b: BridgeView, m: JsonView) -> BridgeView {
    match kind_of(s, m) {
        ServerKind::Bridged(id) => BridgeView { pending: b.pending.remove(id), ..b },
        _ => b,
    }
}

/// Where a message of the server goes, and what else it leads to.
pub open spec fn server_step(
    s: StateView,
    b: BridgeView,
    m: JsonView,
    body: Seq<u8>,
) -> ServerStepView {
    match kind_of(s, m) {
        ServerKind::Bridged(id) => ServerStepView {
            to_editor: None,
            to_client: if b.pending.dom().contains(id) {
                Some(
                    (
                        b.pending[id].client,
                        json::json_text(bridge::reply_json(b.pending[id].seq, m)),
                    ),
                )
            } else {
                None
            },
            to_all: greeting(s, m),
            tick: false,
        },
        ServerKind::Hover(_) => ServerStepView {
            to_editor: Some(
                match render::hover_goal(s) {
                    Some(md) => bridge::message_bytes(render::hover_with_goal(m, md)),
                    None => frame::framed(body),
                },
            ),
            to_client: None,
            to_all: greeting(s, m),
            tick: false,
        },
        ServerKind::Action(_) => ServerStepView {
            to_editor: Some(
                if extendable(m) {
                    bridge::message_bytes(with_action(m))
                } else {
                    frame::framed(body)
                },
            ),
            to_client: None,
            to_all: greeting(s, m),
            tick: false,
        },
        ServerKind::Own(id) => ServerStepView {
            to_editor: None,
            to_client: None,
            to_all: greeting(s, m),
            tick: s.pending.dom().contains(id),
        },
        ServerKind::Other => ServerStepView {
            to_editor: Some(frame::framed(body)),
            to_client: None,
            to_all: match greeting(s, m) {
                Some(t) => Some(t),
                None => mirrored(m),
            },
            tick: notice(s, m),
        },
    }
}

/// Whoever gets what the proxy made of a message can read it: the editor an
/// answer that was enriched, and the clients what they are told.
pub open spec fn legible(step: ServerStepView, s: StateView, b: BridgeView, m: JsonView) -> bool {
    &&& kind_of(s, m) is Hover && render::hover_goal(s) is Some ==> bridge::readable(
        step.to_editor->0,
        render::hover_with_goal(m, render::hover_goal(s)->0),
    )
    &&& kind_of(s, m) is Action && extendable(m) ==> bridge::readable(
        step.to_editor->0,
        with_action(m),
    )
    &&& kind_of(s, m) matches ServerKind::Bridged(id) ==> b.pending.dom().contains(id)
        ==> json::prints((step.to_client->0).1, bridge::reply_json(b.pending[id].seq, m))
    &&& answers_initialize(s, m) ==> json::prints(
        step.to_all->0,
        bridge::restart_json(m.at("result"@)),
    )
    &&& kind_of(s, m) is Other && mirrored(m) is Some ==> json::prints(
        step.to_all->0,
        bridge::mirror_json(method_of(m), m.at("params"@)),
    )
}

fn note_initialize(state: &mut State, m: &Json) -> (r: Option<String>)
    requires
        old(state).wf(),
    ensures
        final(state).wf(),
        final(state)@ == greeted(old(state)@, m@),
        state::opt_text(r) == greeting(old(state)@, m@),
        r matches Some(t) ==> json::prints(t@, bridge::restart_json(m@.at("result"@))),
        recognized(old(state)@, m@),
{
    if m.at("id").is_null() || m.at("result").is_null() {
        return None;
    }
    let hit = match &state.init_id {
        Some(id) => id.same(m.at("id")),
        None => false,
    };
    if !hit {
        return None;
    }
    state.init_result = Some(m.at("result").copy());
    proof {
        assert(state@ =~= greeted(old(state)@, m@));
    }
    Some(bridge::restart(m.at("result")))
}

fn own_answer(state: &mut State, id: &str, m: &Json) -> (r: bool)
    requires
        old(state).wf(),
        kind_of(old(state)@, m@) == ServerKind::Own(id@),
        greeted(old(state)@, m@) == old(state)@,
    ensures
        final(state).wf(),
        final(state)@ == server_state(old(state)@, m@),
        r == old(state)@.pending.dom().contains(id@),
{
    let kind = match state.pending.remove(id) {
        Some(k) => k,
        None => {
            proof {
                assert(old(state)@.pending.remove(id@) =~= old(state)@.pending);
                assert(state@ =~= old(state)@);
            }
            return false;
        },
    };
    match kind {
        Asked::Goal => {
            state.plain_goal = Some(m.at("result").copy());
        },
        Asked::Term => {
            state.term_goal = if m.at("result").is_null() {
                None
            } else {
                Some(m.at("result").copy())
            };
        },
    }
    proof {
        assert(state@ =~= server_state(old(state)@, m@));
    }
    true
}

fn note_notification(state: &mut State, m: &Json) -> (r: bool)
    requires
        old(state).wf(),
    ensures
        final(state).wf(),
        final(state)@ == notified(old(state)@, m@),
        r == notice(old(state)@, m@),
{
    let method = m.at("method").str_or("");
    let params = m.at("params");
    if text::same_text(method, "textDocument/publishDiagnostics") {
        let uri = params.at("uri").str_or("");
        state.diagnostics.insert(uri, params.at("diagnostics").copy());
        proof {
            assert(state@ =~= notified(old(state)@, m@));
        }
        match &state.cursor {
            Some(c) => text::same_text(c.uri.as_str(), uri),
            None => false,
        }
    } else if text::same_text(method, "$/lean/fileProgress") {
        let uri = params.at("textDocument").at("uri").str_or("");
        let busy = params.at("processing").count() > 0;
        proof {
            reveal_strlit("textDocument/publishDiagnostics");
            reveal_strlit("$/lean/fileProgress");
            assert("textDocument/publishDiagnostics"@.len() != "$/lean/fileProgress"@.len());
        }
        state.processing.insert(uri, busy);
        proof {
            assert(state@ =~= notified(old(state)@, m@));
        }
        true
    } else {
        false
    }
}

/// The code action that opens the infoview.
fn infoview_action() -> (r: Json)
    ensures
        r@ == action_json(),
{
    let mut command = Object::new();
    command.set("title", Json::string("Lean: open infoview"));
    command.set("command", Json::string("lean-goalview.openInfoview"));
    let mut o = Object::new();
    o.set("title", Json::string("Lean: open infoview"));
    o.set("command", Json::Object(command));
    Json::Object(o)
}

/// Adds the proxy's action to an answer to a code action request.
fn extend_actions(m: &mut Json)
    requires
        extendable(old(m)@),
        old(m)@ is Object,
    ensures
        final(m)@ == with_action(old(m)@),
{
    let mut result = m.at("result").items();
    result.push(infoview_action());
    m.put("result", result);
}

/// The answer to a hover of the editor: with the goal, if there is one.
fn hover_answer(state: &State, m: Json, body: &[u8]) -> (r: Vec<u8>)
    requires
        render::hover_goal(state@) is Some ==> render::enrichable(m@),
    ensures
        r@ == match render::hover_goal(state@) {
            Some(md) => bridge::message_bytes(render::hover_with_goal(m@, md)),
            None => frame::framed(body@),
        },
        render::hover_goal(state@) matches Some(md) ==> bridge::readable(
            r@,
            render::hover_with_goal(m@, md),
        ),
{
    match render::goal_hover_markdown(state) {
        Some(md) => {
            let mut m = m;
            render::inject_goal_into_hover(&mut m, md.as_str());
            bridge::message_frame(&m)
        },
        None => frame::write_frame(body),
    }
}

/// The answer to a code action request: with the proxy's action, if it fits.
fn action_answer(m: Json, body: &[u8]) -> (r: Vec<u8>)
    requires
        m@ is Object,
    ensures
        r@ == if extendable(m@) {
            bridge::message_bytes(with_action(m@))
        } else {
            frame::framed(body@)
        },
        extendable(m@) ==> bridge::readable(r@, with_action(m@)),
{
    if m.at("error").is_null() && (m.at("result").is_null() || m.at("result").is_list()) {
        let mut m = m;
        extend_actions(&mut m);
        bridge::message_frame(&m)
    } else {
        frame::write_frame(body)
    }
}

fn has_prefix(s: &str, prefix: &str) -> (r: bool)
    ensures
        r == text::begins(s@, prefix@),
{
    let chars = text::chars_of(s);
    let pat = text::chars_of(prefix);
    text::starts_with(chars.as_slice(), pat.as_slice())
}

/// Whether a server message would have to be enriched where it has no room.
fn is_stuck(state: &State, m: &Json) -> (r: bool)
    ensures
        r == stuck(state@, m@),
{
    let flagged = match m.at("id").as_u64() {
        Some(n) => m.at("method").is_null() && state.pending_hovers.contains(&n),
        None => false,
    };
    if !flagged {
        return false;
    }
    let goal = match &state.plain_goal {
        Some(pg) => pg.at("goals").is_list(),
        None => false,
    };
    goal && !(m.at("result").is_null() || m.at("result").is_object())
}

/// Takes a message of the server, whose bytes are `body`: an answer that an
/// infoview client or the proxy itself waits for ends here, an answer to a
/// hover or a code action request is enriched, and anything else goes to the
/// editor as it is.
pub fn route_server_message(state: &mut State, bridge: &mut Bridge, m: Json, body: &[u8]) -> (r:
    ServerStep)
    requires
        old(state).wf(),
        old(bridge).wf(),
        !stuck(old(state)@, m@),
    ensures
        final(state).wf(),
        final(bridge).wf(),
        final(state)@ == server_state(old(state)@, m@),
        final(bridge)@ == server_bridge(old(state)@, old(bridge)@, m@),
        r@ == server_step(old(state)@, old(bridge)@, m@, body@),
        legible(r@, old(state)@, old(bridge)@, m@),
        recognized(old(state)@, m@),
{
    let ghost s0 = state@;
    let to_all = note_initialize(state, &m);
    proof {
        assert(kind_of(state@, m@) == kind_of(s0, m@));
        assert(greeted(state@, m@) =~= state@);
        assert(render::hover_goal(state@) == render::hover_goal(s0));
    }
    let answer = m.at("method").is_null();
    if let Some(id) = m.at("id").as_str() {
        if has_prefix(id, "iv:") {
            let to_client = bridge.answer(id, &m);
            let step = ServerStep { to_editor: None, to_client, to_all, tick: false };
            proof {
                assert(bridge@ =~= server_bridge(s0, old(bridge)@, m@));
                assert(step@ =~= server_step(s0, old(bridge)@, m@, body@));
            }
            return step;
        }
        if answer && has_prefix(id, "gv:") {
            let tick = own_answer(state, id, &m);
            let step = ServerStep { to_editor: None, to_client: None, to_all, tick };
            proof {
                assert(step@ =~= server_step(s0, old(bridge)@, m@, body@));
            }
            return step;
        }
    }
    if answer {
        if let Some(n) = m.at("id").as_u64() {
            if state.pending_hovers.remove(&n) {
                proof {
                    assert(m@ is Object);
                    assert(state@ =~= server_state(s0, m@));
                }
                let bytes = hover_answer(state, m, body);
                let step = ServerStep {
                    to_editor: Some(bytes),
                    to_client: None,
                    to_all,
                    tick: false,
                };
                proof {
                    assert(step@ =~= server_step(s0, old(bridge)@, m@, body@));
                }
                return step;
            }
            proof {
                assert(state.pending_hovers@ =~= greeted(s0, m@).pending_hovers);
            }
        }
        if state.pending_actions.remove(m.at("id")) {
            proof {
                assert(ids::is_id(m@.at("id"@)));
                assert(m@ is Object);
                assert(state@ =~= server_state(s0, m@));
            }
            let bytes = action_answer(m, body);
            let step = ServerStep { to_editor: Some(bytes), to_client: None, to_all, tick: false };
            proof {
                assert(step@ =~= server_step(s0, old(bridge)@, m@, body@));
            }
            return step;
        }
        proof {
            assert(state.pending_actions@ =~= greeted(s0, m@).pending_actions);
        }
    }
    proof {
        assert(state@ =~= greeted(s0, m@));
        assert(kind_of(s0, m@) is Other);
    }
    let tick = note_notification(state, &m);
    let method = m.at("method").str_or("");
    let to_all: Option<String> = if !method.is_empty() && m.at("id").is_null() {
        Some(bridge::mirror(method, m.at("params")))
    } else {
        to_all
    };
    let step = ServerStep {
        to_editor: Some(frame::write_frame(body)),
        to_client: None,
        to_all,
        tick,
    };
    proof {
        assert(step@ =~= server_step(s0, old(bridge)@, m@, body@));
    }
    step
}

/// Takes the body of one message of the server. A body that is no JSON goes to
/// the editor as it is. `None`, with nothing changed, where the goal would have
/// to be added to a hover answer that has no room for it.
pub fn from_server(state: &mut State, bridge: &mut Bridge, body: &[u8]) -> (r: Option<ServerStep>)
    requires
        old(state).wf(),
        old(bridge).wf(),
    ensures
        final(state).wf(),
        final(bridge).wf(),
        match json::json_of(body@) {
            None => {
                &&& final(state)@ == old(state)@
                &&& final(bridge)@ == old(bridge)@
                &&& r matches Some(step) && step@ == (ServerStepView {
                    to_editor: Some(frame::framed(body@)),
                    to_client: None,
                    to_all: None,
                    tick: false,
                })
            },
            Some(m) => if stuck(old(state)@, m) {
                r is None && final(state)@ == old(state)@ && final(bridge)@ == old(bridge)@
            } else {
                &&& final(state)@ == server_state(old(state)@, m)
                &&& final(bridge)@ == server_bridge(old(state)@, old(bridge)@, m)
                &&& r matches Some(step) && step@ == server_step(
                    old(state)@,
                    old(bridge)@,
                    m,
                    body@,
                )
                &&& legible(r->0@, old(state)@, old(bridge)@, m)
                &&& recognized(old(state)@, m)
            },
        },
{
    match Json::parse(body) {
        None => Some(
            ServerStep {
                to_editor: Some(frame::write_frame(body)),
                to_client: None,
                to_all: None,
                tick: false,
            },
        ),
        Some(m) => if is_stuck(state, &m) {
            None
        } else {
            Some(route_server_message(state, bridge, m, body))
        },
    }
}

} // verus!
