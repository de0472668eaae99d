//! The bridge between infoview clients and the server: their requests go down
//! under ids of the bridge's own, and the answers find their way back.

use crate::frame;
use crate::json::{self, Json, JsonView, Object};
use crate::snapshot;
use crate::state::{self, State, StateView};
use crate::table::Table;
use crate::text;
use vstd::prelude::*;
use vstd::string::*;
use vstd::utf8::*;

verus! {

/// Who waits for an answer: a client, and its own number for the request.
#[derive(Clone, Copy, PartialEq, Eq, Structural)]
pub struct Waiting {
    pub client: u64,
    pub seq: u64,
}

impl View for Waiting {
    type V = Waiting;

    open spec fn view(&self) -> Waiting {
        *self
    }
}

/// The requests of infoview clients that the server has not answered yet.
pub struct Bridge {
    pub pending: Table<Waiting>,
    pub counter: u64,
}

/// What the bridge is.
#[verifier::ext_equal]
pub struct BridgeView {
    pub pending: Map<Seq<char>, Waiting>,
    pub counter: u64,
}

impl View for Bridge {
    type V = BridgeView;

    open spec fn view(&self) -> BridgeView {
        BridgeView { pending: self.pending@, counter: self.counter }
    }
}

/// The id under which the request with the number `n` goes to the server.
pub open spec fn bridge_id(n: nat) -> Seq<char> {
    "iv:"@ + text::decimal(n)
}

/// A request to the server.
pub open spec fn request_json(id: Seq<char>, method: JsonView, params: JsonView) -> JsonView {
    JsonView::Object(
        map![
            "jsonrpc"@ => JsonView::Text("2.0"@),
            "id"@ => JsonView::Text(id),
            "method"@ => method,
            "params"@ => params,
        ],
    )
}

/// A notification to the server.
pub open spec fn notification_json(method: JsonView, params: JsonView) -> JsonView {
    JsonView::Object(
        map!["jsonrpc"@ => JsonView::Text("2.0"@), "method"@ => method, "params"@ => params],
    )
}

/// What a message of a client asks for: the bridge after it, and what goes to
/// the server. A request is remembered under a fresh id, a notification passes
/// as it is, and anything else concerns the client alone.
pub open spec fn relayed(b: BridgeView, m: JsonView, client: u64) -> (
    BridgeView,
    Option<JsonView>,
) {
    if m.at("t"@) == JsonView::Text("req"@) {
        let id = bridge_id(b.counter as nat);
        (
            BridgeView {
                pending: b.pending.insert(
                    id,
                    Waiting { client, seq: m.at("seq"@).uint_or(0) },
                ),
                counter: next_count(b.counter),
            },
            Some(request_json(id, m.at("method"@), m.at("params"@))),
        )
    } else if m.at("t"@) == JsonView::Text("not"@) {
        (b, Some(notification_json(m.at("method"@), m.at("params"@))))
    } else {
        (b, None)
    }
}

/// The counter after one more request; it starts over at its end.
pub open spec fn next_count(n: u64) -> u64 {
    if n == u64::MAX {
        0
    } else {
        (n + 1) as u64
    }
}

/// The bytes of the frame that carries a value.
pub open spec fn message_bytes(j: JsonView) -> Seq<u8> {
    frame::framed(encode_utf8(json::json_text(j)))
}

/// The bytes are one frame, and its body reads as the value.
pub open spec fn carries(bytes: Seq<u8>, j: JsonView) -> bool {
    frame::first_frame(bytes) matches Some((body, used)) && used == bytes.len() && json::json_of(
        body,
    ) == Some(j)
}

/// Whoever takes the frame apart reads the value again, if it is plain enough for
/// that.
pub open spec fn readable(bytes: Seq<u8>, j: JsonView) -> bool {
    json::plain(j, json::max_depth()) ==> carries(bytes, j)
}

/// The frame that carries a value.
pub fn message_frame(j: &Json) -> (r: Vec<u8>)
    ensures
        r@ == message_bytes(j@),
        readable(r@, j@),
{
    let message = j.to_text();
    let body = message.as_str().as_bytes();
    proof {
        assert(body@.len() == body.len());
        frame::law_read_of_write(body@, Seq::empty());
        assert(frame::framed(body@) + Seq::<u8>::empty() =~= frame::framed(body@));
    }
    frame::write_frame(body)
}

/// What the answer to a client says: the error of the server, or its result.
pub open spec fn reply_json(seq: u64, msg: JsonView) -> JsonView {
    if msg.at("error"@) is Null {
        JsonView::Object(
            map![
                "t"@ => JsonView::Text("res"@),
                "seq"@ => JsonView::Int(seq as int),
                "result"@ => msg.at("result"@),
            ],
        )
    } else {
        JsonView::Object(
            map![
                "t"@ => JsonView::Text("res"@),
                "seq"@ => JsonView::Int(seq as int),
                "error"@ => msg.at("error"@),
            ],
        )
    }
}

/// The answer to a client.
pub fn reply(seq: u64, msg: &Json) -> (r: Json)
    ensures
        r@ == reply_json(seq, msg@),
{
    let mut o = Object::new();
    o.set("t", Json::string("res"));
    o.set("seq", Json::Unsigned(seq));
    if msg.at("error").is_null() {
        o.set("result", msg.at("result").copy());
    } else {
        o.set("error", msg.at("error").copy());
    }
    Json::Object(o)
}

/// A request to the server.
pub fn request(id: &str, method: &Json, params: &Json) -> (r: Json)
    ensures
        r@ == request_json(id@, method@, params@),
{
    let mut o = Object::new();
    o.set("jsonrpc", Json::string("2.0"));
    o.set("id", Json::string(id));
    o.set("method", method.copy());
    o.set("params", params.copy());
    Json::Object(o)
}

impl Bridge {
    /// No id is remembered twice.
    pub open spec fn wf(&self) -> bool {
        self.pending.wf()
    }

    /// A bridge that no client has used yet.
    pub fn new() -> (r: Bridge)
        ensures
            r.wf(),
            r@ == (BridgeView { pending: Map::empty(), counter: 0 }),
    {
        Bridge { pending: Table::new(), counter: 0 }
    }

    /// Takes a message of a client; returns what goes to the server.
    pub fn relay(&mut self, m: &Json, client: u64) -> (r: Option<Json>)
        requires
            old(self).wf(),
        ensures
            final(self).wf(),
            (final(self)@, state::opt_json(r)) == relayed(old(self)@, m@, client),
    {
        let kind = match m.at("t").as_str() {
            Some(t) => t,
            None => return None,
        };
        if text::same_text(kind, "req") {
            let mut id = String::new();
            id.append("iv:");
            text::push_decimal(&mut id, self.counter);
            proof {
                assert(id@ =~= bridge_id(self.counter as nat));
            }
            self.counter = self.counter.wrapping_add(1);
            self.pending.insert(id.as_str(), Waiting { client, seq: m.at("seq").u64_or(0) });
            Some(request(id.as_str(), m.at("method"), m.at("params")))
        } else if text::same_text(kind, "not") {
            proof {
                reveal_strlit("req");
                reveal_strlit("not");
                assert("req"@[0] != "not"@[0]);
            }
            let mut o = Object::new();
            o.set("jsonrpc", Json::string("2.0"));
            o.set("method", m.at("method").copy());
            o.set("params", m.at("params").copy());
            Some(Json::Object(o))
        } else {
            None
        }
    }

    /// Takes the answer to a request of the bridge; returns the client that
    /// waits for it and what it gets.
    pub fn answer(&mut self, id: &str, msg: &Json) -> (r: Option<(u64, String)>)
        requires
            old(self).wf(),
        ensures
            final(self).wf(),
            final(self)@ == (BridgeView {
                pending: old(self)@.pending.remove(id@),
                counter: old(self)@.counter,
            }),
            match r {
                Some((client, reply)) => {
                    &&& old(self)@.pending.dom().contains(id@)
                    &&& client == old(self)@.pending[id@].client
                    &&& json::prints(reply@, reply_json(old(self)@.pending[id@].seq, msg@))
                },
                None => !old(self)@.pending.dom().contains(id@),
            },
    {
        match self.pending.remove(id) {
            Some(w) => Some((w.client, reply(w.seq, msg).to_text())),
            None => None,
        }
    }
}

/// Takes the text of one message of a client; returns the frame that goes to
/// the server. A text that is no JSON asks for nothing.
pub fn handle_ws_message(message: &str, bridge: &mut Bridge, client: u64) -> (r: Option<Vec<u8>>)
    requires
        old(bridge).wf(),
    ensures
        final(bridge).wf(),
        match json::json_of(encode_utf8(message@)) {
            None => r is None && final(bridge)@ == old(bridge)@,
            Some(m) => {
                &&& final(bridge)@ == relayed(old(bridge)@, m, client).0
                &&& match (r, relayed(old(bridge)@, m, client).1) {
                    (Some(bytes), Some(j)) => bytes@ == message_bytes(j) && readable(bytes@, j),
                    (None, None) => true,
                    _ => false,
                }
            },
        },
{
    match Json::parse(message.as_bytes()) {
        Some(m) => match bridge.relay(&m, client) {
            Some(j) => Some(message_frame(&j)),
            None => None,
        },
        None => None,
    }
}

/// What the connection of a client brings.
pub enum SocketEvent {
    /// A text.
    Message(String),
    /// A frame that carries no text.
    Other,
    /// Nothing yet.
    Idle,
    /// The client hangs up.
    Closed,
    /// The connection is broken.
    Failed,
}

/// What becomes of it.
pub enum SocketAction {
    /// These bytes go to the server.
    Relay(Vec<u8>),
    /// The connection goes on.
    Wait,
    /// The connection is over.
    End,
}

/// Takes what the connection of a client brings. Only a text reaches the server,
/// and only hanging up and failing end the connection.
pub fn serve_ws(event: &SocketEvent, bridge: &mut Bridge, client: u64) -> (r: SocketAction)
    requires
        old(bridge).wf(),
    ensures
        final(bridge).wf(),
        match *event {
            SocketEvent::Message(message) => match json::json_of(encode_utf8(message@)) {
                None => r is Wait && final(bridge)@ == old(bridge)@,
                Some(m) => {
                    &&& final(bridge)@ == relayed(old(bridge)@, m, client).0
                    &&& match relayed(old(bridge)@, m, client).1 {
                        Some(j) => r matches SocketAction::Relay(bytes) && bytes@
                            == message_bytes(j) && readable(bytes@, j),
                        None => r is Wait,
                    }
                },
            },
            SocketEvent::Other => r is Wait && final(bridge)@ == old(bridge)@,
            SocketEvent::Idle => r is Wait && final(bridge)@ == old(bridge)@,
            SocketEvent::Closed => r is End && final(bridge)@ == old(bridge)@,
            SocketEvent::Failed => r is End && final(bridge)@ == old(bridge)@,
        },
{
    match event {
        SocketEvent::Message(message) => match handle_ws_message(
            message.as_str(),
            bridge,
            client,
        ) {
            Some(bytes) => SocketAction::Relay(bytes),
            None => SocketAction::Wait,
        },
        SocketEvent::Other | SocketEvent::Idle => SocketAction::Wait,
        SocketEvent::Closed | SocketEvent::Failed => SocketAction::End,
    }
}

// ------------------------------------------------- messages to the clients --

/// An optional value, or null.
pub open spec fn or_null(j: Option<JsonView>) -> JsonView {
    match j {
        Some(j) => j,
        None => JsonView::Null,
    }
}

/// The greeting of a client: the server's `initialize` result and the cursor.
pub open spec fn hello_json(s: StateView) -> JsonView {
    JsonView::Object(
        map![
            "t"@ => JsonView::Text("hello"@),
            "initResult"@ => or_null(s.init_result),
            "loc"@ => snapshot::location(s.cursor),
        ],
    )
}

/// Says that the server has started anew.
pub open spec fn restart_json(result: JsonView) -> JsonView {
    JsonView::Object(map!["t"@ => JsonView::Text("restart"@), "initResult"@ => result])
}

/// Passes a notification of the server on.
pub open spec fn mirror_json(method: Seq<char>, params: JsonView) -> JsonView {
    JsonView::Object(
        map![
            "t"@ => JsonView::Text("srvNot"@),
            "method"@ => JsonView::Text(method),
            "params"@ => params,
        ],
    )
}

/// Says that the cursor has moved.
pub open spec fn moved_json(loc: JsonView) -> JsonView {
    JsonView::Object(map!["t"@ => JsonView::Text("cursor"@), "loc"@ => loc])
}

/// The greeting of a client.
pub fn hello(state: &State) -> (r: String)
    ensures
        json::prints(r@, hello_json(state@)),
{
    let mut o = Object::new();
    o.set("t", Json::string("hello"));
    o.set(
        "initResult",
        match &state.init_result {
            Some(j) => j.copy(),
            None => Json::Null,
        },
    );
    o.set("loc", snapshot::cursor_location(state));
    Json::Object(o).to_text()
}

/// Says that the server has started anew.
pub fn restart(result: &Json) -> (r: String)
    ensures
        json::prints(r@, restart_json(result@)),
{
    let mut o = Object::new();
    o.set("t", Json::string("restart"));
    o.set("initResult", result.copy());
    Json::Object(o).to_text()
}

/// Passes a notification of the server on.
pub fn mirror(method: &str, params: &Json) -> (r: String)
    ensures
        json::prints(r@, mirror_json(method@, params@)),
{
    let mut o = Object::new();
    o.set("t", Json::string("srvNot"));
    o.set("method", Json::string(method));
    o.set("params", params.copy());
    Json::Object(o).to_text()
}

/// Says that the cursor has moved.
pub fn moved(loc: Json) -> (r: String)
    ensures
        json::prints(r@, moved_json(loc@)),
{
    let mut o = Object::new();
    o.set("t", Json::string("cursor"));
    o.set("loc", loc);
    Json::Object(o).to_text()
}

// ------------------------------------------------------------------- laws --

proof fn lemma_keys()
    ensures
        "t"@.len() == 1,
        "id"@.len() == 2,
        "loc"@.len() == 3,
        "seq"@.len() == 3,
        "loc"@ != "seq"@,
        "error"@.len() == 5,
        "method"@.len() == 6,
        "params"@.len() == 6,
        "result"@.len() == 6,
        "method"@ != "params"@,
        "method"@ != "result"@,
        "params"@ != "result"@,
        "jsonrpc"@.len() == 7,
        "initResult"@.len() == 10,
{
    reveal_strlit("t");
    reveal_strlit("id");
    reveal_strlit("loc");
    reveal_strlit("seq");
    reveal_strlit("error");
    reveal_strlit("method");
    reveal_strlit("params");
    reveal_strlit("result");
    reveal_strlit("jsonrpc");
    reveal_strlit("initResult");
    assert("loc"@[0] == 'l' && "seq"@[0] == 's');
    assert("method"@[0] == 'm' && "params"@[0] == 'p' && "result"@[0] == 'r');
}

/// What a client gets is marked as an answer and has the number of its request,
/// whether the server found a result or an error. It has the one or the other:
/// the error where there is one, else the result.
pub proof fn law_reply(n: u64, msg: JsonView)
    ensures
        reply_json(n, msg).at("t"@) == JsonView::Text("res"@),
        reply_json(n, msg).at("seq"@) == JsonView::Int(n as int),
        reply_json(n, msg).at("error"@) == msg.at("error"@),
        msg.at("error"@) is Null ==> reply_json(n, msg).at("result"@) == msg.at("result"@),
        !(msg.at("error"@) is Null) ==> reply_json(n, msg).at("result"@) is Null,
{
    lemma_keys();
}

/// A request has its id, its method and its parameters as they are.
pub proof fn law_request(id: Seq<char>, method: JsonView, params: JsonView)
    ensures
        request_json(id, method, params).at("jsonrpc"@) == JsonView::Text("2.0"@),
        request_json(id, method, params).at("id"@) == JsonView::Text(id),
        request_json(id, method, params).at("method"@) == method,
        request_json(id, method, params).at("params"@) == params,
{
    lemma_keys();
}

/// A notification of a client reaches the server with its method and parameters
/// as they are and without an id, and the bridge remembers nothing of it.
pub proof fn law_notification_relayed(b: BridgeView, m: JsonView, client: u64)
    requires
        m.at("t"@) == JsonView::Text("not"@),
    ensures
        relayed(b, m, client).0 == b,
        relayed(b, m, client).1 is Some,
        ({
            let sent = relayed(b, m, client).1->0;
            &&& sent.at("jsonrpc"@) == JsonView::Text("2.0"@)
            &&& sent.at("method"@) == m.at("method"@)
            &&& sent.at("params"@) == m.at("params"@)
            &&& sent.at("id"@) is Null
        }),
{
    lemma_keys();
    reveal_strlit("req");
    reveal_strlit("not");
    assert("req"@[0] == 'r' && "not"@[0] == 'n');
}

/// A request of a client is remembered with the client and its number, and the
/// counter goes on by one and starts over at its end; every other request stays
/// remembered.
pub proof fn law_request_remembered(b: BridgeView, m: JsonView, client: u64)
    requires
        m.at("t"@) == JsonView::Text("req"@),
    ensures
        ({
            let after = relayed(b, m, client).0;
            let sent = relayed(b, m, client).1->0;
            &&& relayed(b, m, client).1 is Some
            &&& sent.at("jsonrpc"@) == JsonView::Text("2.0"@)
            &&& sent.at("id"@) is Text
            &&& after.pending.dom().contains(sent.at("id"@)->Text_0)
            &&& after.pending[sent.at("id"@)->Text_0].client == client
            &&& m.at("seq"@) == JsonView::Int(
                after.pending[sent.at("id"@)->Text_0].seq as int,
            ) || (m.at("seq"@).uint() is None && after.pending[sent.at("id"@)->Text_0].seq == 0)
            &&& b.counter < u64::MAX ==> after.counter == b.counter + 1
            &&& b.counter == u64::MAX ==> after.counter == 0
            &&& forall|id: Seq<char>|
                id != sent.at("id"@)->Text_0 && #[trigger] b.pending.dom().contains(id)
                    ==> after.pending.dom().contains(id) && after.pending[id] == b.pending[id]
        }),
{
    lemma_keys();
}

/// What a client says that is neither goes nowhere.
pub proof fn law_other_words(b: BridgeView, m: JsonView, client: u64)
    requires
        m.at("t"@) != JsonView::Text("req"@),
        m.at("t"@) != JsonView::Text("not"@),
    ensures
        relayed(b, m, client) == (b, None::<JsonView>),
{
}

/// The members of what the clients are told.
pub proof fn law_client_messages(s: StateView, result: JsonView, method: Seq<char>, x: JsonView)
    ensures
        hello_json(s).at("t"@) == JsonView::Text("hello"@),
        s.init_result matches Some(j) ==> hello_json(s).at("initResult"@) == j,
        s.init_result is None ==> hello_json(s).at("initResult"@) is Null,
        hello_json(s).at("loc"@) == snapshot::location(s.cursor),
        restart_json(result).at("t"@) == JsonView::Text("restart"@),
        restart_json(result).at("initResult"@) == result,
        mirror_json(method, x).at("t"@) == JsonView::Text("srvNot"@),
        mirror_json(method, x).at("method"@) == JsonView::Text(method),
        mirror_json(method, x).at("params"@) == x,
        moved_json(x).at("t"@) == JsonView::Text("cursor"@),
        moved_json(x).at("loc"@) == x,
{
    lemma_keys();
}

/// A value goes in one frame, whose body is its text.
pub proof fn law_message_bytes(j: JsonView, rest: Seq<u8>)
    requires
        encode_utf8(json::json_text(j)).len() <= usize::MAX,
    ensures
        frame::first_frame(message_bytes(j) + rest) == Some(
            (encode_utf8(json::json_text(j)), message_bytes(j).len()),
        ),
{
    frame::law_read_of_write(encode_utf8(json::json_text(j)), rest);
}

} // verus!
