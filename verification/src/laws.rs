//! What holds of the proxy across its messages: whose answers go where, what
//! passes through untouched, and when the goal view has to catch up.

use crate::adapter;
use crate::bridge::{self, BridgeView, Waiting};
use crate::debug;
use crate::frame;
use crate::ids;
use crate::json::{self, JsonView};
use crate::publish;
use crate::render;
use crate::session::{self, ServerKind};
use crate::snapshot;
use crate::state::{self, Asked, CursorView, StateView};
use crate::text;
use vstd::prelude::*;

verus! {

// -------------------------------------------------------------------- ids --

proof fn lemma_prefixes()
    ensures
        "gv:"@.len() == 3,
        "iv:"@.len() == 3,
        "gv:"@[0] == 'g',
        "iv:"@[0] == 'i',
{
    reveal_strlit("gv:");
    reveal_strlit("iv:");
}

proof fn lemma_tagged(tag: Seq<char>, n: nat, m: nat)
    requires
        tag + text::decimal(n) == tag + text::decimal(m),
    ensures
        n == m,
{
    let a = tag + text::decimal(n);
    let b = tag + text::decimal(m);
    assert(a.skip(tag.len() as int) =~= text::decimal(n));
    assert(b.skip(tag.len() as int) =~= text::decimal(m));
    text::law_decimal_injective(n, m);
}

/// No two requests of the proxy share an id, nor do two of the bridge, nor one of
/// each; and no such id is a number, as the ids of the editor are.
pub proof fn law_ids_apart(n: nat, m: nat, k: int)
    ensures
        state::own_id(n) == state::own_id(m) ==> n == m,
        bridge::bridge_id(n) == bridge::bridge_id(m) ==> n == m,
        state::own_id(n) != bridge::bridge_id(m),
        JsonView::Text(state::own_id(n)) != JsonView::Int(k),
        JsonView::Text(bridge::bridge_id(n)) != JsonView::Int(k),
{
    lemma_prefixes();
    if state::own_id(n) == state::own_id(m) {
        lemma_tagged("gv:"@, n, m);
    }
    if bridge::bridge_id(n) == bridge::bridge_id(m) {
        lemma_tagged("iv:"@, n, m);
    }
    assert(state::own_id(n)[0] == 'g');
    assert(bridge::bridge_id(m)[0] == 'i');
}

/// The ids of the next two requests of the proxy are not in use.
pub proof fn law_own_ids_fresh(s: StateView)
    requires
        s.numbered(),
    ensures
        !s.pending.dom().contains(state::own_id((s.next_id + 1) as nat)),
        !s.pending.dom().contains(state::own_id((s.next_id + 2) as nat)),
{
    let one = (s.next_id + 1) as nat;
    let two = (s.next_id + 2) as nat;
    if s.pending.dom().contains(state::own_id(one)) {
        let n = choose|n: nat| n <= s.next_id && state::own_id(one) == #[trigger] state::own_id(n);
        law_ids_apart(one, n, 0);
    }
    if s.pending.dom().contains(state::own_id(two)) {
        let n = choose|n: nat| n <= s.next_id && state::own_id(two) == #[trigger] state::own_id(n);
        law_ids_apart(two, n, 0);
    }
}

/// Every open request of the bridge was numbered by its counter, which has not
/// started over yet.
pub open spec fn issued(b: BridgeView) -> bool {
    forall|id: Seq<char>| #[trigger]
        b.pending.dom().contains(id) ==> exists|n: nat|
            n < b.counter && id == #[trigger] bridge::bridge_id(n)
}

/// The id of the next request of the bridge is not in use; and that stays so
/// whatever the clients and the server send, until the counter is used up.
pub proof fn law_bridge_ids_fresh(b: BridgeView, s: StateView, m: JsonView, client: u64)
    requires
        issued(b),
    ensures
        !b.pending.dom().contains(bridge::bridge_id(b.counter as nat)),
        b.counter < u64::MAX ==> issued(bridge::relayed(b, m, client).0),
        issued(session::server_bridge(s, b, m)),
{
    let id = bridge::bridge_id(b.counter as nat);
    if b.pending.dom().contains(id) {
        let n = choose|n: nat| n < b.counter && id == #[trigger] bridge::bridge_id(n);
        law_ids_apart(b.counter as nat, n, 0);
    }
    if b.counter < u64::MAX {
        let after = bridge::relayed(b, m, client).0;
        assert forall|x: Seq<char>| #[trigger] after.pending.dom().contains(x) implies exists|n: nat|
            n < after.counter && x == #[trigger] bridge::bridge_id(n) by {
            if b.pending.dom().contains(x) {
                let n = choose|n: nat| n < b.counter && x == #[trigger] bridge::bridge_id(n);
                assert(n < after.counter && x == bridge::bridge_id(n));
            } else {
                let n = b.counter as nat;
                assert(n < after.counter && x == bridge::bridge_id(n));
            }
        }
    }
    let after = session::server_bridge(s, b, m);
    assert forall|x: Seq<char>| #[trigger] after.pending.dom().contains(x) implies exists|n: nat|
        n < after.counter && x == #[trigger] bridge::bridge_id(n) by {
        assert(b.pending.dom().contains(x));
    }
}

proof fn lemma_kind_of_own(s: StateView, m: JsonView, n: nat)
    requires
        m.at("id"@) == JsonView::Text(state::own_id(n)),
        m.at("method"@) is Null,
    ensures
        session::kind_of(s, m) == ServerKind::Own(state::own_id(n)),
{
    lemma_prefixes();
    let id = state::own_id(n);
    assert(id.subrange(0, 3) =~= "gv:"@);
    assert(id[0] == 'g');
    if text::begins(id, "iv:"@) {
        assert(id.subrange(0, 3)[0] == id[0]);
    }
}

proof fn lemma_kind_of_bridged(s: StateView, m: JsonView, n: nat)
    requires
        m.at("id"@) == JsonView::Text(bridge::bridge_id(n)),
    ensures
        session::kind_of(s, m) == ServerKind::Bridged(bridge::bridge_id(n)),
{
    lemma_prefixes();
    let id = bridge::bridge_id(n);
    assert(id.subrange(0, 3) =~= "iv:"@);
}

// ---------------------------------------------------------- goal requests --

/// The answer to the request for the tactic goals becomes the tactic state, and
/// the answer to the other one the expected type. Neither reaches the editor or
/// a client, and the goal view catches up with both.
pub proof fn law_goals_arrive(s: StateView, b: BridgeView, m: JsonView, body: Seq<u8>)
    requires
        s.next_id <= u64::MAX - 2,
        m.at("method"@) is Null,
    ensures
        m.at("id"@) == JsonView::Text(state::own_id((s.next_id + 1) as nat)) ==> {
            let t = session::server_state(publish::asked(s), m);
            let step = session::server_step(publish::asked(s), b, m, body);
            &&& t.plain_goal == Some(m.at("result"@))
            &&& t.term_goal == s.term_goal
            &&& t.pending == publish::asked(s).pending.remove(state::own_id((s.next_id + 1) as nat))
            &&& step.tick && step.to_editor is None && step.to_client is None
        },
        m.at("id"@) == JsonView::Text(state::own_id((s.next_id + 2) as nat)) ==> {
            let t = session::server_state(publish::asked(s), m);
            let step = session::server_step(publish::asked(s), b, m, body);
            &&& t.plain_goal == s.plain_goal
            &&& t.term_goal == if m.at("result"@) is Null {
                None
            } else {
                Some(m.at("result"@))
            }
            &&& t.pending == publish::asked(s).pending.remove(state::own_id((s.next_id + 2) as nat))
            &&& step.tick && step.to_editor is None && step.to_client is None
        },
{
    let one = (s.next_id + 1) as nat;
    let two = (s.next_id + 2) as nat;
    law_ids_apart(one, two, 0);
    let t = publish::asked(s);
    assert(t.pending[state::own_id(one)] == Asked::Goal);
    assert(t.pending[state::own_id(two)] == Asked::Term);
    if m.at("id"@) == JsonView::Text(state::own_id(one)) {
        lemma_kind_of_own(t, m, one);
    }
    if m.at("id"@) == JsonView::Text(state::own_id(two)) {
        lemma_kind_of_own(t, m, two);
    }
}

/// An answer under an id of the proxy's own that is not open changes no goal and
/// goes nowhere.
pub proof fn law_stray_answer(s: StateView, b: BridgeView, m: JsonView, body: Seq<u8>, n: nat)
    requires
        m.at("id"@) == JsonView::Text(state::own_id(n)),
        m.at("method"@) is Null,
        !s.pending.dom().contains(state::own_id(n)),
    ensures
        session::server_state(s, m) == session::greeted(s, m),
        session::server_state(s, m).plain_goal == s.plain_goal,
        session::server_state(s, m).term_goal == s.term_goal,
        session::server_step(s, b, m, body).to_editor is None,
        session::server_step(s, b, m, body).to_client is None,
        !session::server_step(s, b, m, body).tick,
{
    lemma_kind_of_own(s, m, n);
}

// ----------------------------------------------------------------- bridge --

/// A request of a client reaches the server with its method and parameters as
/// they are, and the answer to it reaches that client under the client's own
/// number, and no one else; after that the bridge has forgotten it.
pub proof fn law_bridge_round_trip(
    s: StateView,
    b: BridgeView,
    m: JsonView,
    client: u64,
    answer: JsonView,
    body: Seq<u8>,
)
    requires
        m.at("t"@) == JsonView::Text("req"@),
        answer.at("id"@) == JsonView::Text(bridge::bridge_id(b.counter as nat)),
    ensures
        ({
            let sent = bridge::relayed(b, m, client).1->0;
            &&& bridge::relayed(b, m, client).1 is Some
            &&& sent.at("id"@) == answer.at("id"@)
            &&& sent.at("method"@) == m.at("method"@)
            &&& sent.at("params"@) == m.at("params"@)
        }),
        ({
            let open = bridge::relayed(b, m, client).0;
            let step = session::server_step(s, open, answer, body);
            &&& step.to_client == Some(
                (client, json::json_text(bridge::reply_json(m.at("seq"@).uint_or(0), answer))),
            )
            &&& step.to_editor is None
            &&& !session::server_bridge(s, open, answer).pending.dom().contains(
                bridge::bridge_id(b.counter as nat),
            )
        }),
        exists|reply: JsonView|
            session::server_step(
                s,
                bridge::relayed(b, m, client).0,
                answer,
                body,
            ).to_client == Some((client, #[trigger] json::json_text(reply))) && reply.at("t"@)
                == JsonView::Text("res"@) && (m.at("seq"@).uint() is Some ==> reply.at("seq"@)
                == m.at("seq"@)) && reply.at("error"@) == answer.at("error"@) && (answer.at(
                "error"@,
            ) is Null ==> reply.at("result"@) == answer.at("result"@)),
{
    let reply = bridge::reply_json(m.at("seq"@).uint_or(0), answer);
    bridge::law_reply(m.at("seq"@).uint_or(0), answer);
    assert(json::json_text(reply) == json::json_text(
        bridge::reply_json(m.at("seq"@).uint_or(0), answer),
    ));
    lemma_kind_of_bridged(s, answer, b.counter as nat);
    reveal_strlit("jsonrpc");
    reveal_strlit("id");
    reveal_strlit("method");
    reveal_strlit("params");
    assert("jsonrpc"@.len() == 7);
    assert("id"@.len() == 2);
    assert("method"@.len() == 6 && "method"@[0] == 'm');
    assert("params"@.len() == 6 && "params"@[0] == 'p');
    let open = bridge::relayed(b, m, client).0;
    assert(open.pending[bridge::bridge_id(b.counter as nat)] == (Waiting {
        client,
        seq: m.at("seq"@).uint_or(0),
    }));
}

/// The open request of another client stays open while one is made or answered.
pub proof fn law_bridge_keeps_others(
    s: StateView,
    b: BridgeView,
    m: JsonView,
    client: u64,
    id: Seq<char>,
)
    requires
        b.pending.dom().contains(id),
    ensures
        id != bridge::bridge_id(b.counter as nat) ==> bridge::relayed(
            b,
            m,
            client,
        ).0.pending.dom().contains(id) && bridge::relayed(b, m, client).0.pending[id]
            == b.pending[id],
        m.at("id"@) != JsonView::Text(id) ==> session::server_bridge(
            s,
            b,
            m,
        ).pending.dom().contains(id) && session::server_bridge(s, b, m).pending[id]
            == b.pending[id],
{
}

/// Once the server has answered `initialize`, every client that is there hears of
/// it, and every client that comes later is greeted with that answer.
pub proof fn law_initialize_reaches_clients(
    s: StateView,
    b: BridgeView,
    m: JsonView,
    body: Seq<u8>,
)
    requires
        session::answers_initialize(s, m),
    ensures
        session::server_step(s, b, m, body).to_all == Some(
            json::json_text(bridge::restart_json(m.at("result"@))),
        ),
        bridge::hello_json(session::server_state(s, m)).at("initResult"@) == m.at("result"@),
{
    reveal_strlit("t");
    reveal_strlit("initResult");
    reveal_strlit("loc");
    assert("t"@.len() == 1 && "initResult"@.len() == 10 && "loc"@.len() == 3);
    assert(session::server_state(s, m).init_result == Some(m.at("result"@)));
}

/// A notification of the server goes to the editor as it is, and every client
/// gets its method and parameters.
pub proof fn law_notification_mirrored(s: StateView, b: BridgeView, m: JsonView, body: Seq<u8>)
    requires
        m.at("id"@) is Null,
        session::method_of(m).len() > 0,
    ensures
        session::server_step(s, b, m, body).to_editor == Some(frame::framed(body)),
        session::server_step(s, b, m, body).to_all == Some(
            json::json_text(bridge::mirror_json(session::method_of(m), m.at("params"@))),
        ),
        session::server_bridge(s, b, m) == b,
{
    reveal_strlit("");
    assert(!(m.at("method"@) is Null));
}

// ----------------------------------------------------------- transparency --

/// Held back from the editor are the messages under an id of the bridge's own and
/// the answers under one of the proxy's own, and no others.
pub proof fn law_held_back(s: StateView, b: BridgeView, m: JsonView, body: Seq<u8>)
    ensures
        session::server_step(s, b, m, body).to_editor is None <==> exists|id: Seq<char>|
            m.at("id"@) == JsonView::Text(id) && (#[trigger] text::begins(id, "iv:"@) || (
            text::begins(id, "gv:"@) && m.at("method"@) is Null)),
{
    if session::server_step(s, b, m, body).to_editor is None {
        let id = m.at("id"@)->Text_0;
        assert(m.at("id"@) == JsonView::Text(id));
        assert(text::begins(id, "iv:"@) || (text::begins(id, "gv:"@) && m.at("method"@) is Null));
    }
}

/// A message of the server that is not held back reaches the editor byte for byte,
/// but for the answers to hovers and code action requests that the proxy has
/// taken note of. A request of the server always does, whatever its id.
pub proof fn law_transparent_to_editor(s: StateView, b: BridgeView, m: JsonView, body: Seq<u8>)
    requires
        session::server_step(s, b, m, body).to_editor is Some,
        m.at("method"@) is Null ==> !s.pending_actions.contains(m.at("id"@)) && (
        m.at("id"@).uint() matches Some(n) ==> !s.pending_hovers.contains(n)),
    ensures
        session::server_step(s, b, m, body).to_editor == Some(frame::framed(body)),
{
}

/// An answer that is extended keeps everything but its result, the id above all.
pub proof fn law_extended_keeps(m: JsonView, key: Seq<char>)
    requires
        m is Object,
        session::extendable(m),
        key != "result"@,
    ensures
        session::with_action(m).at(key) == m.at(key),
        session::with_action(m).at("result"@).items() == m.at("result"@).items().push(
            session::action_json(),
        ),
{
}

/// A hover in a Lean file is remembered under its id, its answer is enriched, and
/// then it is forgotten.
pub proof fn law_hover_enriched(
    s: StateView,
    b: BridgeView,
    m: JsonView,
    wanted: Option<Seq<char>>,
    n: u64,
    answer: JsonView,
    body: Seq<u8>,
)
    requires
        session::observes(m),
        session::method_of(m) == "textDocument/hover"@,
        m.at("id"@) == JsonView::Int(n as int),
        answer.at("id"@) == m.at("id"@),
        answer.at("method"@) is Null,
    ensures
        ({
            let t = session::editor_state(s, m, wanted);
            &&& session::server_step(t, b, answer, body).to_editor == Some(
                match render::hover_goal(s) {
                    Some(md) => bridge::message_bytes(render::hover_with_goal(answer, md)),
                    None => frame::framed(body),
                },
            )
            &&& !session::server_state(t, answer).pending_hovers.contains(n)
        }),
{
    reveal_strlit("initialize");
    reveal_strlit("textDocument/hover");
    assert("initialize"@.len() != "textDocument/hover"@.len());
    let t = session::editor_state(s, m, wanted);
    assert(t.pending_hovers.contains(n));
    assert(session::kind_of(t, answer) == ServerKind::Hover(n));
    assert(render::hover_goal(t) == render::hover_goal(s));
}

/// A code action request in a Lean file that a user may have made, under a number
/// or a text that is not in use, is answered with the action that opens the
/// infoview at the end of the list.
pub proof fn law_action_offered(
    s: StateView,
    b: BridgeView,
    m: JsonView,
    wanted: Option<Seq<char>>,
    answer: JsonView,
    body: Seq<u8>,
)
    requires
        session::observes(m),
        session::method_of(m) == "textDocument/codeAction"@,
        !session::automatic(m),
        ids::is_id(m.at("id"@)),
        m.at("id"@) matches JsonView::Text(id) ==> !text::begins(id, "iv:"@) && !text::begins(
            id,
            "gv:"@,
        ),
        m.at("id"@).uint() matches Some(n) ==> !s.pending_hovers.contains(n),
        answer.at("id"@) == m.at("id"@),
        answer.at("method"@) is Null,
        session::extendable(answer),
    ensures
        ({
            let t = session::editor_state(s, m, wanted);
            &&& session::server_step(t, b, answer, body).to_editor == Some(
                bridge::message_bytes(session::with_action(answer)),
            )
            &&& !session::server_state(t, answer).pending_actions.contains(m.at("id"@))
        }),
{
    reveal_strlit("initialize");
    reveal_strlit("textDocument/codeAction");
    reveal_strlit("textDocument/hover");
    assert("initialize"@.len() != "textDocument/codeAction"@.len());
    assert("textDocument/hover"@.len() != "textDocument/codeAction"@.len());
    let t = session::editor_state(s, m, wanted);
    assert(t.pending_actions.contains(m.at("id"@)));
    assert(session::kind_of(t, answer) == ServerKind::Action(m.at("id"@)));
}

/// Picking that action runs a command that the proxy takes for its own.
pub proof fn law_action_is_own(m: JsonView)
    requires
        session::method_of(m) == "workspace/executeCommand"@,
        m.at("params"@).at("command"@) == session::action_json().at("command"@).at("command"@),
    ensures
        session::own_command(m),
{
    reveal_strlit("title");
    reveal_strlit("command");
    assert("title"@.len() != "command"@.len());
}

// ------------------------------------------------------------ catching up --

/// The goal view has nothing to catch up with after a message of the server that
/// does not say so: goal file and snapshot are what they were.
pub proof fn law_server_quiet(s: StateView, b: BridgeView, m: JsonView, body: Seq<u8>)
    requires
        !session::server_step(s, b, m, body).tick,
    ensures
        render::goal_file(session::server_state(s, m)) == render::goal_file(s),
        snapshot::snapshot(session::server_state(s, m)) == snapshot::snapshot(s),
{
    let t = session::server_state(s, m);
    assert(t.cursor == s.cursor);
    assert(t.plain_goal == s.plain_goal);
    assert(t.term_goal == s.term_goal);
    if let Some(c) = s.cursor {
        assert(render::is_busy(t, c.uri) == render::is_busy(s, c.uri));
        assert(render::diagnostics_of(t, c.uri) == render::diagnostics_of(s, c.uri));
    }
}

/// Nor has it after a message of the editor that does not say so.
pub proof fn law_editor_quiet(s: StateView, m: JsonView, wanted: Option<Seq<char>>)
    requires
        session::method_of(m) == "initialize"@ || !session::observes(m),
    ensures
        render::goal_file(session::editor_state(s, m, wanted)) == render::goal_file(s),
        snapshot::snapshot(session::editor_state(s, m, wanted)) == snapshot::snapshot(s),
{
}

/// The messages of one file leave those of every other file alone.
pub proof fn law_files_apart(s: StateView, m: JsonView, uri: Seq<char>)
    requires
        session::method_of(m) == "textDocument/publishDiagnostics"@,
        m.at("params"@).at("uri"@).text_or(""@) != uri,
    ensures
        render::diagnostics_of(session::notified(s, m), uri) == render::diagnostics_of(s, uri),
        render::is_busy(session::notified(s, m), uri) == render::is_busy(s, uri),
{
}

/// The cursor follows every request that carries a position in a Lean file. In the
/// next turn the goals are asked for at that position and the clients are told of
/// it, if that was not so already.
pub proof fn law_cursor_followed(
    s: StateView,
    p: publish::PublisherView,
    m: JsonView,
    wanted: Option<Seq<char>>,
)
    requires
        session::observes(m),
    ensures
        session::editor_state(s, m, wanted).cursor == Some(session::cursor_in(m)),
        p.last_fetch != Some(session::cursor_in(m)) ==> publish::wants_fetch(
            session::editor_state(s, m, wanted),
            p,
        ),
        p.last_pushed != Some(session::cursor_in(m)) ==> publish::wants_push(
            session::editor_state(s, m, wanted),
            p,
        ) && publish::turned(session::editor_state(s, m, wanted), p).last_pushed == Some(
            session::cursor_in(m),
        ),
{
    reveal_strlit("initialize");
    reveal_strlit("textDocument/documentHighlight");
    reveal_strlit("textDocument/hover");
    reveal_strlit("textDocument/codeAction");
    assert("initialize"@.len() == 10);
    assert("textDocument/documentHighlight"@.len() == 30);
    assert("textDocument/hover"@.len() == 18);
    assert("textDocument/codeAction"@.len() == 23);
}

// ---------------------------------------------------------- debug adapter --

/// The debug panel shows the goals, the messages and the file of the snapshot
/// that the proxy sends.
pub proof fn law_panel_shows_snapshot(s: StateView)
    ensures
        ({
            let m = debug::model_of(snapshot::snapshot(s));
            let goals = render::texts_in(snapshot::raw_goals(s));
            &&& m.file == snapshot::place(s).0
            &&& m.line == if 1 <= snapshot::place(s).1 <= i64::MAX {
                snapshot::place(s).1 as i64
            } else {
                1
            }
            &&& m.goals == goals.map_values(|g: Seq<char>| debug::goal_vars(text::lines(g)))
            &&& m.messages == snapshot::messages_json(s).map_values(
                |d: JsonView| debug::message_var(d),
            )
            &&& m.root.len() == (if goals.len() == 0 {
                1
            } else {
                goals.len()
            }) + (if snapshot::term_json(s) is Null {
                0nat
            } else {
                1nat
            })
        }),
{
    reveal_strlit("file");
    reveal_strlit("line");
    reveal_strlit("busy");
    reveal_strlit("goals");
    reveal_strlit("termGoal");
    reveal_strlit("messages");
    assert("file"@.len() == 4 && "file"@[0] == 'f');
    assert("line"@.len() == 4 && "line"@[0] == 'l');
    assert("busy"@.len() == 4 && "busy"@[0] == 'b');
    assert("goals"@.len() == 5);
    assert("termGoal"@.len() == 8 && "termGoal"@[0] == 't');
    assert("messages"@.len() == 8 && "messages"@[0] == 'm');
    let snap = snapshot::snapshot(s);
    assert(snap.at("file"@) == JsonView::Text(snapshot::place(s).0));
    assert(snap.at("line"@) == JsonView::Int(snapshot::place(s).1 as int));
    assert(snap.at("goals"@) == JsonView::List(snapshot::raw_goals(s)));
    assert(snap.at("termGoal"@) == snapshot::term_json(s));
    assert(snap.at("messages"@) == JsonView::List(snapshot::messages_json(s)));
}

/// What the proxy writes to its socket fills the debug panel with the goal state
/// that it was made from: the text of a snapshot and a line feed behind it.
pub proof fn law_socket_fills_panel(s: StateView, t: Seq<char>)
    requires
        json::prints(t, snapshot::snapshot(s)),
        forall|i: int|
            0 <= i < snapshot::raw_goals(s).len() ==> json::plain(
                #[trigger] snapshot::raw_goals(s)[i],
                125,
            ),
    ensures
        adapter::model_in(t + "\n"@) == Some(debug::model_of(snapshot::snapshot(s))),
{
    snapshot::law_snapshot_plain(s);
}

/// Every request is answered first of all, by one response that names it, and
/// nothing else draws a message.
pub proof fn law_request_answered(s: adapter::SessionView, m: JsonView)
    ensures
        adapter::outputs(s, m).len() == 0 <==> !adapter::is_request(m),
        adapter::is_request(m) ==> {
            let r = adapter::outputs(s, m)[0];
            &&& r.at("type"@) == JsonView::Text("response"@)
            &&& r.at("request_seq"@) == m.at("seq"@)
            &&& r.at("command"@) == m.at("command"@)
            &&& r.at("success"@) == JsonView::Bool(true)
            &&& r.at("body"@) == adapter::body_for(s.model, m)
        },
{
    lemma_response_keys();
}

proof fn lemma_response_keys()
    ensures
        "type"@.len() == 4,
        "type"@[0] == 't',
        "seq"@.len() == 3,
        "request_seq"@.len() == 11,
        "command"@.len() == 7,
        "command"@[0] == 'c',
        "success"@.len() == 7,
        "success"@[0] == 's',
        "body"@.len() == 4,
        "body"@[0] == 'b',
        "event"@.len() == 5,
{
    reveal_strlit("type");
    reveal_strlit("seq");
    reveal_strlit("request_seq");
    reveal_strlit("command");
    reveal_strlit("success");
    reveal_strlit("body");
    reveal_strlit("event");
}

/// The messages of a session are numbered one after the other, until the numbers
/// are used up.
pub proof fn law_messages_numbered(s: adapter::SessionView, m: JsonView, i: int)
    requires
        0 <= i < adapter::outputs(s, m).len(),
        s.seq <= i64::MAX - 2,
    ensures
        adapter::outputs(s, m)[i].at("seq"@) == JsonView::Int(s.seq + i),
        adapter::session_after(s, m).seq == s.seq + adapter::outputs(s, m).len(),
{
    lemma_response_keys();
}

/// The panel stays paused: the answers that end its setup or let it run are
/// followed by a stop, and no message of the editor changes what it shows.
pub proof fn law_stays_paused(s: adapter::SessionView, m: JsonView)
    requires
        adapter::is_request(m),
    ensures
        adapter::session_after(s, m).model == s.model,
        s.configured ==> adapter::session_after(s, m).configured,
        adapter::command_of(m) == "configurationDone"@ || adapter::command_of(m) == "continue"@
            ==> adapter::outputs(s, m).len() == 2 && adapter::outputs(s, m)[1].at("event"@)
            == JsonView::Text("stopped"@),
{
    lemma_response_keys();
    reveal_strlit("initialize");
    reveal_strlit("configurationDone");
    reveal_strlit("continue");
    assert("initialize"@.len() == 10 && "configurationDone"@.len() == 17 && "continue"@.len() == 8);
}

// --------------------------------------------------------- editor messages --

proof fn lemma_method_names()
    ensures
        ""@.len() == 0,
        "initialize"@.len() == 10,
        "textDocument/documentHighlight"@.len() == 30,
        "textDocument/hover"@.len() == 18,
        "textDocument/codeAction"@.len() == 23,
        "workspace/executeCommand"@.len() == 24,
        "textDocument/publishDiagnostics"@.len() == 31,
        "$/lean/fileProgress"@.len() == 19,
        "file://"@.len() == 7,
        ".lean"@.len() == 5,
{
    reveal_strlit("");
    reveal_strlit("initialize");
    reveal_strlit("textDocument/documentHighlight");
    reveal_strlit("textDocument/hover");
    reveal_strlit("textDocument/codeAction");
    reveal_strlit("workspace/executeCommand");
    reveal_strlit("textDocument/publishDiagnostics");
    reveal_strlit("$/lean/fileProgress");
    reveal_strlit("file://");
    reveal_strlit(".lean");
}

/// Each of the three requests moves the cursor of a Lean file to the position that
/// it names, and the goal view has to catch up. The position is the one that it
/// has, and else the start of its range.
pub proof fn law_position_followed(
    s: StateView,
    m: JsonView,
    wanted: Option<Seq<char>>,
    stem: Seq<char>,
    line: u64,
    character: u64,
)
    requires
        m.at("method"@) == JsonView::Text("textDocument/documentHighlight"@) || m.at("method"@)
            == JsonView::Text("textDocument/hover"@) || m.at("method"@) == JsonView::Text(
            "textDocument/codeAction"@,
        ),
        m.at("params"@).at("textDocument"@).at("uri"@) == JsonView::Text(stem + ".lean"@),
    ensures
        session::observes(m),
        m.at("params"@).at("position"@).at("line"@) == JsonView::Int(line as int) && m.at(
            "params"@,
        ).at("position"@).at("character"@) == JsonView::Int(character as int)
            ==> session::editor_state(s, m, wanted).cursor == Some(
            CursorView { uri: stem + ".lean"@, line, character },
        ),
        !(m.at("params"@).at("position"@) is Object) && m.at("params"@).at("range"@).at(
            "start"@,
        ).at("line"@) == JsonView::Int(line as int) && m.at("params"@).at("range"@).at(
            "start"@,
        ).at("character"@) == JsonView::Int(character as int) ==> session::editor_state(
            s,
            m,
            wanted,
        ).cursor == Some(CursorView { uri: stem + ".lean"@, line, character }),
{
    lemma_method_names();
    let uri = stem + ".lean"@;
    assert(uri.subrange(stem.len() as int, uri.len() as int) =~= ".lean"@);
}

/// A number that a position lacks counts as zero.
pub proof fn law_position_defaults(
    s: StateView,
    m: JsonView,
    wanted: Option<Seq<char>>,
    stem: Seq<char>,
)
    requires
        m.at("method"@) == JsonView::Text("textDocument/documentHighlight"@) || m.at("method"@)
            == JsonView::Text("textDocument/hover"@) || m.at("method"@) == JsonView::Text(
            "textDocument/codeAction"@,
        ),
        m.at("params"@).at("textDocument"@).at("uri"@) == JsonView::Text(stem + ".lean"@),
    ensures
        !(m.at("params"@).at("position"@) is Object) ==> (session::editor_state(
            s,
            m,
            wanted,
        ).cursor matches Some(c) && {
            let start = m.at("params"@).at("range"@).at("start"@);
            &&& c.uri == stem + ".lean"@
            &&& start.at("line"@).uint() is None ==> c.line == 0
            &&& start.at("character"@).uint() is None ==> c.character == 0
            &&& start.at("line"@).uint() matches Some(l) ==> c.line == l
            &&& start.at("character"@).uint() matches Some(ch) ==> c.character == ch
        }),
        m.at("params"@).at("position"@) is Object ==> (session::editor_state(
            s,
            m,
            wanted,
        ).cursor matches Some(c) && {
            &&& c.uri == stem + ".lean"@
            &&& m.at("params"@).at("position"@).at("line"@).uint() is None ==> c.line == 0
            &&& m.at("params"@).at("position"@).at("character"@).uint() is None ==> c.character == 0
            &&& m.at("params"@).at("position"@).at("line"@).uint() matches Some(l) ==> c.line == l
            &&& m.at("params"@).at("position"@).at("character"@).uint() matches Some(ch)
                ==> c.character == ch
        }),
{
    law_position_followed(s, m, wanted, stem, 0, 0);
    lemma_method_names();
}

/// No other message of the editor moves the cursor, and none about another file.
pub proof fn law_cursor_stays(s: StateView, m: JsonView, wanted: Option<Seq<char>>)
    requires
        (m.at("method"@) != JsonView::Text("textDocument/documentHighlight"@) && m.at("method"@)
            != JsonView::Text("textDocument/hover"@) && m.at("method"@) != JsonView::Text(
            "textDocument/codeAction"@,
        )) || (forall|stem: Seq<char>|
            m.at("params"@).at("textDocument"@).at("uri"@) != JsonView::Text(
                #[trigger] (stem + ".lean"@),
            )),
    ensures
        session::editor_state(s, m, wanted).cursor == s.cursor,
        session::editor_state(s, m, wanted).pending_hovers == s.pending_hovers,
        session::editor_state(s, m, wanted).pending_actions == s.pending_actions,
        m.at("method"@) != JsonView::Text("initialize"@) ==> session::editor_state(s, m, wanted)
            == s && !session::observes(m),
{
    lemma_method_names();
    if session::observes(m) {
        let uri = session::cursor_in(m).uri;
        let stem = uri.take(uri.len() - 5);
        assert(stem + ".lean"@ =~= uri) by {
            assert(uri.subrange(uri.len() - 5, uri.len() as int) == ".lean"@);
        }
        let j = m.at("params"@).at("textDocument"@).at("uri"@);
        if !(j is Text) {
            assert(uri == ""@);
        }
        assert(j == JsonView::Text(stem + ".lean"@));
    }
}

/// What the editor says never touches what the server has published, the goals,
/// the open requests of the proxy, or what was answered to `initialize`.
pub proof fn law_editor_keeps(s: StateView, m: JsonView, wanted: Option<Seq<char>>)
    ensures
        ({
            let t = session::editor_state(s, m, wanted);
            &&& t.diagnostics == s.diagnostics
            &&& t.processing == s.processing
            &&& t.plain_goal == s.plain_goal
            &&& t.term_goal == s.term_goal
            &&& t.fetched_for == s.fetched_for
            &&& t.pending == s.pending
            &&& t.next_id == s.next_id
            &&& t.init_result == s.init_result
            &&& m.at("method"@) != JsonView::Text("initialize"@) ==> t.out_path == s.out_path
                && t.init_id == s.init_id
            &&& m.at("method"@) != JsonView::Text("textDocument/hover"@) ==> t.pending_hovers
                == s.pending_hovers
            &&& m.at("method"@) != JsonView::Text("textDocument/codeAction"@) ==> t.pending_actions
                == s.pending_actions
            &&& m.at("params"@).at("context"@).at("triggerKind"@) == JsonView::Int(2)
                ==> t.pending_actions == s.pending_actions
            &&& m.at("id"@).uint() is None ==> t.pending_hovers == s.pending_hovers
            &&& !(m.at("id"@) is Text) && !(m.at("id"@) is Int) ==> t.pending_actions
                == s.pending_actions
        }),
{
    lemma_method_names();
}

/// A hover in a Lean file is remembered under its number, and a code action request
/// that was not marked as automatic under its id; both beside what was remembered
/// before.
pub proof fn law_requests_remembered(
    s: StateView,
    m: JsonView,
    wanted: Option<Seq<char>>,
    stem: Seq<char>,
    n: u64,
    k: int,
)
    requires
        i64::MIN <= k <= u64::MAX,
        m.at("params"@).at("textDocument"@).at("uri"@) == JsonView::Text(stem + ".lean"@),
    ensures
        m.at("method"@) == JsonView::Text("textDocument/hover"@) && m.at("id"@) == JsonView::Int(
            n as int,
        ) ==> session::editor_state(s, m, wanted).pending_hovers == s.pending_hovers.insert(n),
        m.at("method"@) == JsonView::Text("textDocument/codeAction"@) && m.at("params"@).at(
            "context"@,
        ).at("triggerKind"@) != JsonView::Int(2) && (m.at("id"@) is Text || m.at("id"@)
            == JsonView::Int(k)) ==> session::editor_state(s, m, wanted).pending_actions
            == s.pending_actions.insert(m.at("id"@)),
{
    lemma_method_names();
    let uri = stem + ".lean"@;
    assert(uri.subrange(stem.len() as int, uri.len() as int) =~= ".lean"@);
}

/// `initialize` says where the goal file goes, unless the user has said so: into
/// the root of the workspace, else into its first folder, and into the current
/// directory where neither is a file. Its id is remembered.
pub proof fn law_goal_file_placed(
    s: StateView,
    m: JsonView,
    wanted: Option<Seq<char>>,
    dir: Seq<char>,
)
    requires
        m.at("method"@) == JsonView::Text("initialize"@),
    ensures
        session::editor_state(s, m, wanted).init_id == Some(m.at("id"@)),
        wanted is Some ==> session::editor_state(s, m, wanted).out_path == wanted,
        wanted is None && m.at("params"@).at("rootUri"@) == JsonView::Text("file://"@ + dir)
            ==> session::editor_state(s, m, wanted).out_path == Some(dir + "/.goalview.md"@),
        wanted is None && !(m.at("params"@).at("rootUri"@) is Text) && m.at("params"@).at(
            "workspaceFolders"@,
        ).item(0).at("uri"@) == JsonView::Text("file://"@ + dir) ==> session::editor_state(
            s,
            m,
            wanted,
        ).out_path == Some(dir + "/.goalview.md"@),
        wanted is None && !(m.at("params"@).at("rootUri"@) is Text) && !(m.at("params"@).at(
            "workspaceFolders"@,
        ).item(0).at("uri"@) is Text) ==> session::editor_state(s, m, wanted).out_path == Some(
            "."@ + "/.goalview.md"@,
        ),
        wanted is None && (m.at("params"@).at("rootUri"@) == JsonView::Text(dir) || (!(m.at(
            "params"@,
        ).at("rootUri"@) is Text) && m.at("params"@).at("workspaceFolders"@).item(0).at("uri"@)
            == JsonView::Text(dir))) && !text::begins(dir, "file://"@) ==> session::editor_state(
            s,
            m,
            wanted,
        ).out_path == Some("."@ + "/.goalview.md"@),
{
    lemma_method_names();
    let root = "file://"@ + dir;
    assert(root.subrange(0, 7) =~= "file://"@);
    assert(root.skip(7) =~= dir);
}

/// The proxy takes for its own exactly the command of its code action, and answers
/// it under its id with nothing.
pub proof fn law_own_command(m: JsonView)
    ensures
        session::own_command(m) <==> m.at("method"@) == JsonView::Text("workspace/executeCommand"@)
            && m.at("params"@).at("command"@) == JsonView::Text("lean-goalview.openInfoview"@),
        session::command_done(m).at("jsonrpc"@) == JsonView::Text("2.0"@),
        session::command_done(m).at("id"@) == m.at("id"@),
        session::command_done(m).at("result"@) is Null,
        session::command_done(m).at("error"@) is Null,
        session::command_done(m).at("method"@) is Null,
{
    lemma_method_names();
    lemma_member_names();
}

proof fn lemma_member_names()
    ensures
        "id"@.len() == 2,
        "edit"@.len() == 4,
        "title"@.len() == 5,
        "error"@.len() == 5,
        "title"@ != "error"@,
        "result"@.len() == 6,
        "method"@.len() == 6,
        "result"@ != "method"@,
        "jsonrpc"@.len() == 7,
        "command"@.len() == 7,
        "jsonrpc"@ != "command"@,
{
    reveal_strlit("id");
    reveal_strlit("edit");
    reveal_strlit("title");
    reveal_strlit("error");
    reveal_strlit("result");
    reveal_strlit("method");
    reveal_strlit("jsonrpc");
    reveal_strlit("command");
    assert("title"@[0] == 't' && "error"@[0] == 'e');
    assert("result"@[0] == 'r' && "method"@[0] == 'm');
    assert("jsonrpc"@[0] == 'j' && "command"@[0] == 'c');
}

/// The code action has its title, carries its command and no edit.
pub proof fn law_action_members()
    ensures
        session::action_json().at("title"@) == JsonView::Text("Lean: open infoview"@),
        session::action_json().at("command"@).at("title"@) == JsonView::Text(
            "Lean: open infoview"@,
        ),
        session::action_json().at("command"@).at("command"@) == JsonView::Text(
            "lean-goalview.openInfoview"@,
        ),
        session::action_json().at("edit"@) is Null,
{
    lemma_member_names();
}

/// An answer with a list of actions, or with no result, takes the action; an error
/// does not, nor does any other result.
pub proof fn law_action_fits(m: JsonView)
    ensures
        m.at("error"@) is Null && (m.at("result"@) is List || m.at("result"@) is Null)
            ==> session::extendable(m),
        !(m.at("error"@) is Null) ==> !session::extendable(m),
        !(m.at("result"@) is List) && !(m.at("result"@) is Null) ==> !session::extendable(m),
{
}

// --------------------------------------------------------- server messages --

/// Diagnostics that are published replace those of their file, an empty list as
/// well as any other, and those of no other file.
pub proof fn law_diagnostics_replaced(
    s: StateView,
    b: BridgeView,
    m: JsonView,
    body: Seq<u8>,
    uri: Seq<char>,
    other: Seq<char>,
)
    requires
        m.at("id"@) is Null,
        m.at("method"@) == JsonView::Text("textDocument/publishDiagnostics"@),
        m.at("params"@).at("uri"@) == JsonView::Text(uri),
        other != uri,
    ensures
        render::diagnostics_of(session::server_state(s, m), uri) == m.at("params"@).at(
            "diagnostics"@,
        ).items(),
        session::server_state(s, m).diagnostics.dom().contains(uri),
        session::server_state(s, m).diagnostics[uri] == m.at("params"@).at("diagnostics"@),
        render::diagnostics_of(session::server_state(s, m), other) == render::diagnostics_of(
            s,
            other,
        ),
        session::server_state(s, m).processing == s.processing,
        session::server_step(s, b, m, body).tick <==> (s.cursor matches Some(c) && c.uri == uri),
{
    lemma_method_names();
}

/// Progress that is reported says whether its file is busy, and of no other file:
/// it is while anything is left to process.
pub proof fn law_progress_noted(
    s: StateView,
    b: BridgeView,
    m: JsonView,
    body: Seq<u8>,
    uri: Seq<char>,
    other: Seq<char>,
)
    requires
        m.at("id"@) is Null,
        m.at("method"@) == JsonView::Text("$/lean/fileProgress"@),
        m.at("params"@).at("textDocument"@).at("uri"@) == JsonView::Text(uri),
        other != uri,
    ensures
        render::is_busy(session::server_state(s, m), uri) <==> (m.at("params"@).at(
            "processing"@,
        ) matches JsonView::List(items) && items.len() > 0),
        render::is_busy(session::server_state(s, m), other) == render::is_busy(s, other),
        session::server_state(s, m).diagnostics == s.diagnostics,
        session::server_step(s, b, m, body).tick,
{
    lemma_method_names();
}

/// A message of the server changes what it is about and nothing else: never the
/// cursor, the goal file's path or the counter; diagnostics and progress only if
/// it publishes them; the goals only if it answers a request of the proxy's own.
pub proof fn law_server_keeps(s: StateView, m: JsonView)
    ensures
        ({
            let t = session::server_state(s, m);
            &&& t.cursor == s.cursor
            &&& t.out_path == s.out_path
            &&& t.fetched_for == s.fetched_for
            &&& t.next_id == s.next_id
            &&& t.init_id == s.init_id
            &&& m.at("method"@) != JsonView::Text("textDocument/publishDiagnostics"@)
                ==> t.diagnostics == s.diagnostics
            &&& m.at("method"@) != JsonView::Text("$/lean/fileProgress"@) ==> t.processing
                == s.processing
            &&& (!(m.at("id"@) is Text) || !text::begins(m.at("id"@)->Text_0, "gv:"@)
                || !s.pending.dom().contains(m.at("id"@)->Text_0)) ==> t.plain_goal == s.plain_goal
                && t.term_goal == s.term_goal && t.pending == s.pending
            &&& (m.at("id"@) is Null || m.at("result"@) is Null || s.init_id is None)
                ==> t.init_result == s.init_result
            &&& !(m.at("method"@) is Null) ==> t.pending_hovers == s.pending_hovers
                && t.pending_actions == s.pending_actions
        }),
{
    lemma_method_names();
}

/// The answer under the id of `initialize` is kept as the server's result.
pub proof fn law_initialize_noted(s: StateView, m: JsonView)
    requires
        !(m.at("id"@) is Null),
        s.init_id == Some(m.at("id"@)),
        json::json_same(m.at("id"@), m.at("id"@)),
        !(m.at("result"@) is Null),
    ensures
        session::answers_initialize(s, m),
        session::server_state(s, m).init_result == Some(m.at("result"@)),
{
}

/// An answer with a result under the very id of `initialize` is recognized, and one
/// under another id is not.
pub proof fn law_initialize_recognized(s: StateView, m: JsonView)
    requires
        session::recognized(s, m),
        !(m.at("id"@) is Null),
        s.init_id matches Some(id) && json::plain(id, 127),
    ensures
        s.init_id == Some(m.at("id"@)) && !(m.at("result"@) is Null) ==> session::server_state(
            s,
            m,
        ).init_result == Some(m.at("result"@)),
        s.init_id != Some(m.at("id"@)) ==> session::server_state(s, m).init_result
            == s.init_result,
{
}

/// Only an answer to a remembered hover can be without room for the goal, and only
/// where its result is neither nothing nor an object.
pub proof fn law_seldom_stuck(s: StateView, m: JsonView)
    requires
        session::stuck(s, m),
    ensures
        m.at("method"@) is Null,
        m.at("id"@).uint() matches Some(n) && s.pending_hovers.contains(n),
        !(m.at("result"@) is Null),
        !(m.at("result"@) is Object),
        s.plain_goal is Some,
{
}

/// The frames of the adapter's messages, in order.
pub proof fn law_frames_in_order(msgs: Seq<JsonView>, i: int)
    requires
        0 <= i < msgs.len(),
    ensures
        adapter::frames_of(msgs).len() == msgs.len(),
        adapter::frames_of(msgs)[i] == bridge::message_bytes(msgs[i]),
{
}

/// An answer under an id of the proxy's own that is open gives the goals or the
/// expected type, whichever was asked for, closes that request and no other, and
/// the goal view has to catch up.
pub proof fn law_own_answer_taken(
    s: StateView,
    b: BridgeView,
    m: JsonView,
    body: Seq<u8>,
    n: nat,
    other: Seq<char>,
)
    requires
        m.at("id"@) == JsonView::Text("gv:"@ + text::decimal(n)),
        m.at("method"@) is Null,
        s.pending.dom().contains("gv:"@ + text::decimal(n)),
        other != "gv:"@ + text::decimal(n),
    ensures
        ({
            let t = session::server_state(s, m);
            let asked = s.pending["gv:"@ + text::decimal(n)];
            &&& asked is Goal ==> t.plain_goal == Some(m.at("result"@)) && t.term_goal
                == s.term_goal
            &&& asked is Term ==> t.plain_goal == s.plain_goal && t.term_goal == if m.at(
                "result"@,
            ) is Null {
                None
            } else {
                Some(m.at("result"@))
            }
            &&& !t.pending.dom().contains("gv:"@ + text::decimal(n))
            &&& s.pending.dom().contains(other) ==> t.pending.dom().contains(other)
                && t.pending[other] == s.pending[other]
            &&& t.pending_hovers == s.pending_hovers
            &&& t.pending_actions == s.pending_actions
        }),
        session::server_step(s, b, m, body).tick,
        session::server_step(s, b, m, body).to_editor is None,
{
    lemma_kind_of_own(s, m, n);
}

/// An answer makes the proxy forget the hover or the code action request that it
/// answers, and no other.
pub proof fn law_others_remembered(s: StateView, m: JsonView, n: u64, id: JsonView)
    ensures
        m.at("id"@) != JsonView::Int(n as int) ==> (session::server_state(
            s,
            m,
        ).pending_hovers.contains(n) <==> s.pending_hovers.contains(n)),
        m.at("id"@) != id ==> (session::server_state(s, m).pending_actions.contains(id)
            <==> s.pending_actions.contains(id)),
        m.at("method"@) is Null && m.at("id"@) == JsonView::Int(n as int)
            ==> !session::server_state(s, m).pending_hovers.contains(n),
{
}

/// An answer to a remembered code action request that takes no action reaches the
/// editor byte for byte, and so does the answer to a hover while there is no goal
/// to add.
pub proof fn law_unfit_answers_pass(s: StateView, b: BridgeView, m: JsonView, body: Seq<u8>)
    requires
        session::server_step(s, b, m, body).to_editor is Some,
        m.at("id"@).uint() matches Some(n) && s.pending_hovers.contains(n) ==> s.plain_goal is None,
        m.at("error"@) is Null ==> !(m.at("result"@) is Null) && !(m.at("result"@) is List),
    ensures
        session::server_step(s, b, m, body).to_editor == Some(frame::framed(body)),
{
}

/// The goal view has to catch up with new diagnostics of the file at the cursor,
/// with progress and with answers to the proxy's own requests, and with nothing
/// else that the server says.
pub proof fn law_reasons_to_catch_up(s: StateView, b: BridgeView, m: JsonView, body: Seq<u8>)
    requires
        session::server_step(s, b, m, body).tick,
    ensures
        m.at("method"@) == JsonView::Text("textDocument/publishDiagnostics"@) || m.at("method"@)
            == JsonView::Text("$/lean/fileProgress"@) || (m.at("method"@) is Null && (m.at("id"@)
            matches JsonView::Text(id) && s.pending.dom().contains(id))),
{
    lemma_method_names();
}

/// A client hears of an answer only if it waits for it, and every client only of
/// notifications and of the answer to `initialize`.
pub proof fn law_clients_hear(s: StateView, b: BridgeView, m: JsonView, body: Seq<u8>)
    ensures
        session::server_step(s, b, m, body).to_client is Some ==> (m.at("id"@)
            matches JsonView::Text(id) && b.pending.dom().contains(id)),
        session::server_step(s, b, m, body).to_all is Some ==> session::answers_initialize(s, m)
            || (m.at("method"@) is Text && m.at("id"@) is Null),
        session::answers_initialize(s, m) ==> s.init_id is Some && !(m.at("id"@) is Null) && !(m.at(
            "result"@,
        ) is Null),
{
    lemma_method_names();
}

} // verus!
