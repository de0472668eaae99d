//! One turn of the proxy's loop, once the events have settled: ask the server
//! for the goals at a new position, publish a goal state that has changed, and
//! tell the infoview clients of a cursor that has moved.

use crate::bridge;
use crate::json::{self, Json, JsonView, Object};
use crate::render::{self, FileWrite};
use crate::snapshot;
use crate::state::{self, Asked, Cursor, CursorView, State, StateView};
use crate::text;
use vstd::prelude::*;
use vstd::string::*;

verus! {

/// How long events are collected before a turn, from the first of them on, in
/// nanoseconds.
pub const SETTLE_NANOS: u64 = 120_000_000;

/// How much longer events are to be collected, where the first of them came
/// `since_first` nanoseconds ago; `None` once that is long enough.
pub fn wait_left(since_first: u64) -> (r: Option<u64>)
    ensures
        r == if since_first <= SETTLE_NANOS {
            Some((SETTLE_NANOS - since_first) as u64)
        } else {
            None
        },
        r is Some <==> since_first <= 120_000_000,
        r matches Some(left) ==> since_first + left == 120_000_000,
{
    if since_first <= SETTLE_NANOS {
        Some(SETTLE_NANOS - since_first)
    } else {
        None
    }
}

/// What the loop has done so far.
pub struct Publisher {
    /// The content of the goal file.
    pub last_written: String,
    /// The goal state that the views were last told.
    pub last_broadcast: String,
    /// The position that the goals were last asked for.
    pub last_fetch: Option<Cursor>,
    /// The position that the infoview clients were last told.
    pub last_pushed: Option<Cursor>,
}

/// What the loop has done so far, as contracts speak of it.
#[verifier::ext_equal]
pub struct PublisherView {
    pub last_written: Seq<char>,
    pub last_broadcast: Seq<char>,
    pub last_fetch: Option<CursorView>,
    pub last_pushed: Option<CursorView>,
}

impl View for Publisher {
    type V = PublisherView;

    open spec fn view(&self) -> PublisherView {
        PublisherView {
            last_written: self.last_written@,
            last_broadcast: self.last_broadcast@,
            last_fetch: state::opt_cursor(self.last_fetch),
            last_pushed: state::opt_cursor(self.last_pushed),
        }
    }
}

/// The goals have to be asked for: there is a cursor, and they were last asked
/// for elsewhere.
pub open spec fn wants_fetch(s: StateView, p: PublisherView) -> bool {
    s.cursor is Some && (s.cursor != p.last_fetch || s.cursor != s.fetched_for)
}

/// The goal file has to be written: it has a path, and it has changed.
pub open spec fn wants_write(s: StateView, p: PublisherView) -> bool {
    s.out_path is Some && render::goal_file(s) != p.last_written
}

/// The views have to be told: the goal state has changed.
pub open spec fn wants_news(s: StateView, p: PublisherView) -> bool {
    json::json_text(snapshot::snapshot(s)) != p.last_broadcast
}

/// The infoview clients have to be told of the cursor: it is not where they were
/// last told.
pub open spec fn wants_push(s: StateView, p: PublisherView) -> bool {
    s.cursor is Some && s.cursor != p.last_pushed
}

/// What the loop has done once the views are told what they have to be. The
/// cursor goes with a goal state that has changed.
pub open spec fn after_news(s: StateView, p: PublisherView) -> PublisherView {
    if wants_news(s, p) {
        PublisherView {
            last_broadcast: json::json_text(snapshot::snapshot(s)),
            last_pushed: if s.cursor is Some {
                s.cursor
            } else {
                p.last_pushed
            },
            ..p
        }
    } else {
        p
    }
}

/// What the loop has done once the clients are told of the cursor, if they have
/// to be.
pub open spec fn after_push(s: StateView, p: PublisherView) -> PublisherView {
    if wants_push(s, p) {
        PublisherView { last_pushed: s.cursor, ..p }
    } else {
        p
    }
}

/// What the loop has done once a turn with this state is over and the goal file,
/// if it had to be, was written.
pub open spec fn turned(s: StateView, p: PublisherView) -> PublisherView {
    PublisherView {
        last_fetch: if wants_fetch(s, p) {
            s.cursor
        } else {
            p.last_fetch
        },
        last_written: if wants_write(s, p) {
            render::goal_file(s)
        } else {
            p.last_written
        },
        ..after_push(s, after_news(s, p))
    }
}

/// The state after such a turn.
pub open spec fn turned_state(s: StateView, p: PublisherView) -> StateView {
    if wants_fetch(s, p) {
        asked(s)
    } else {
        s
    }
}

/// The parameters of both goal requests.
pub open spec fn goal_params(c: CursorView) -> JsonView {
    JsonView::Object(
        map![
            "textDocument"@ => JsonView::Object(map!["uri"@ => JsonView::Text(c.uri)]),
            "position"@ => snapshot::position_json(c),
        ],
    )
}

/// The request for the tactic goals, under the next id.
pub open spec fn goal_request(s: StateView, c: CursorView) -> JsonView {
    bridge::request_json(
        state::own_id((s.next_id + 1) as nat),
        JsonView::Text("$/lean/plainGoal"@),
        goal_params(c),
    )
}

/// The request for the expected type, under the id after that.
pub open spec fn term_request(s: StateView, c: CursorView) -> JsonView {
    bridge::request_json(
        state::own_id((s.next_id + 2) as nat),
        JsonView::Text("$/lean/plainTermGoal"@),
        goal_params(c),
    )
}

/// The state once both requests are made.
pub open spec fn asked(s: StateView) -> StateView {
    StateView {
        next_id: (s.next_id + 2) as u64,
        pending: s.pending.insert(state::own_id((s.next_id + 1) as nat), Asked::Goal).insert(
            state::own_id((s.next_id + 2) as nat),
            Asked::Term,
        ),
        fetched_for: s.cursor,
        ..s
    }
}

fn own_request_id(n: u64) -> (r: String)
    ensures
        r@ == state::own_id(n as nat),
{
    let mut id = String::new();
    id.append("gv:");
    text::push_decimal(&mut id, n);
    proof {
        assert(id@ =~= state::own_id(n as nat));
    }
    id
}

fn params_at(c: &Cursor) -> (r: Json)
    ensures
        r@ == goal_params(c@),
{
    let mut document = Object::new();
    document.set("uri", Json::string(c.uri.as_str()));
    let mut o = Object::new();
    o.set("textDocument", Json::Object(document));
    o.set("position", snapshot::position(c.line, c.character));
    proof {
        assert(document@ == map!["uri"@ => JsonView::Text(c@.uri)]);
        let p = CursorView { uri: c@.uri, line: c.line, character: c.character };
        assert(p == c@);
        assert(snapshot::position_json(p) == snapshot::position_json(c@));
    }
    Json::Object(o)
}

proof fn lemma_request_plain(j: JsonView, id: Seq<char>, method: Seq<char>, c: CursorView)
    requires
        j == bridge::request_json(id, JsonView::Text(method), goal_params(c)),
    ensures
        json::plain(j, json::max_depth()),
{
    reveal_with_fuel(json::plain, 4);
    let params = goal_params(c);
    assert(json::plain(snapshot::position_json(c), 125));
    assert(json::plain(JsonView::Object(map!["uri"@ => JsonView::Text(c.uri)]), 125));
    assert(json::plain(params, 126));
}

proof fn lemma_numbered_grows(s: StateView)
    requires
        s.numbered(),
        s.next_id <= u64::MAX - 2,
    ensures
        asked(s).numbered(),
{
    let t = asked(s);
    assert forall|id: Seq<char>| #[trigger] t.pending.dom().contains(id) implies exists|n: nat|
        n <= t.next_id && id == #[trigger] state::own_id(n) by {
        let one = (s.next_id + 1) as nat;
        let two = (s.next_id + 2) as nat;
        if id == state::own_id(two) {
            assert(two <= t.next_id && id == state::own_id(two));
        } else if id == state::own_id(one) {
            assert(one <= t.next_id && id == state::own_id(one));
        } else {
            assert(s.pending.dom().contains(id));
            let n = choose|n: nat| n <= s.next_id && id == #[trigger] state::own_id(n);
            assert(n <= t.next_id && id == state::own_id(n));
        }
    }
}

impl Publisher {
    /// A loop that has not turned yet.
    pub fn new() -> (r: Publisher)
        ensures
            r@ == (PublisherView {
                last_written: Seq::empty(),
                last_broadcast: Seq::empty(),
                last_fetch: None,
                last_pushed: None,
            }),
    {
        Publisher {
            last_written: String::new(),
            last_broadcast: String::new(),
            last_fetch: None,
            last_pushed: None,
        }
    }

    /// Asks for the goals where they have to be asked for; returns the frames
    /// of the two requests. The counter of requests must have room for both.
    pub fn fetch(&mut self, state: &mut State) -> (r: Option<(Vec<u8>, Vec<u8>)>)
        requires
            old(state).wf(),
            old(state).next_id <= u64::MAX - 2,
        ensures
            final(state).wf(),
            wants_fetch(old(state)@, old(self)@) ==> {
                &&& r matches Some((goal, term)) && goal@ == bridge::message_bytes(
                    goal_request(old(state)@, old(state)@.cursor->0),
                ) && term@ == bridge::message_bytes(
                    term_request(old(state)@, old(state)@.cursor->0),
                ) && bridge::carries(goal@, goal_request(old(state)@, old(state)@.cursor->0))
                    && bridge::carries(term@, term_request(old(state)@, old(state)@.cursor->0))
                &&& final(state)@ == asked(old(state)@)
                &&& final(self)@ == (PublisherView {
                    last_fetch: old(state)@.cursor,
                    ..old(self)@
                })
            },
            !wants_fetch(old(state)@, old(self)@) ==> {
                &&& r is None
                &&& final(state)@ == old(state)@
                &&& final(self)@ == old(self)@
            },
    {
        if state::same_cursor(&state.cursor, &self.last_fetch) && state::same_cursor(
            &state.cursor,
            &state.fetched_for,
        ) {
            return None;
        }
        let cursor = match &state.cursor {
            Some(c) => c.copy(),
            None => return None,
        };
        proof {
            lemma_numbered_grows(old(state)@);
        }
        let params = params_at(&cursor);
        let goal_id = own_request_id(state.next_id + 1);
        let term_id = own_request_id(state.next_id + 2);
        state.next_id = state.next_id + 2;
        state.pending.insert(goal_id.as_str(), Asked::Goal);
        state.pending.insert(term_id.as_str(), Asked::Term);
        let goal = bridge::request(goal_id.as_str(), &Json::string("$/lean/plainGoal"), &params);
        let term = bridge::request(
            term_id.as_str(),
            &Json::string("$/lean/plainTermGoal"),
            &params,
        );
        state.fetched_for = state::copy_cursor(&state.cursor);
        self.last_fetch = state::copy_cursor(&state.cursor);
        proof {
            lemma_request_plain(goal@, goal_id@, "$/lean/plainGoal"@, cursor@);
            lemma_request_plain(term@, term_id@, "$/lean/plainTermGoal"@, cursor@);
            assert(state@ =~= asked(old(state)@));
            assert(self@ =~= PublisherView { last_fetch: old(state)@.cursor, ..old(self)@ });
        }
        Some((bridge::message_frame(&goal), bridge::message_frame(&term)))
    }

    /// The goal file to write, if it has changed.
    pub fn file(&self, state: &State) -> (r: Option<FileWrite>)
        requires
            state.wf(),
        ensures
            r is Some <==> wants_write(state@, self@),
            r matches Some(w) ==> {
                &&& state@.out_path == Some(w.path@)
                &&& w.temporary@ == w.path@ + ".tmp"@
                &&& w.content@ == render::goal_file(state@)
            },
    {
        render::write_out(state, self.last_written.as_str())
    }

    /// Notes that the goal file was written.
    pub fn wrote(&mut self, content: String)
        ensures
            final(self)@ == (PublisherView { last_written: content@, ..old(self)@ }),
    {
        self.last_written = content;
    }

    /// The goal state as JSON, if it has changed since the views were last
    /// told, and with it what the infoview clients hear of the cursor.
    pub fn news(&mut self, state: &State) -> (r: Option<(String, Option<String>)>)
        requires
            state.wf(),
        ensures
            r is Some <==> wants_news(state@, old(self)@),
            final(self)@ == after_news(state@, old(self)@),
            r matches Some((snap, cursor)) ==> {
                &&& json::prints(snap@, snapshot::snapshot(state@))
                &&& match cursor {
                    Some(t) => state@.cursor is Some && json::prints(
                        t@,
                        bridge::moved_json(snapshot::location(state@.cursor)),
                    ),
                    None => state@.cursor is None,
                }
            },
    {
        let snap = snapshot::goal_json(state);
        if text::same_text(snap.as_str(), self.last_broadcast.as_str()) {
            return None;
        }
        self.last_broadcast = snap.clone();
        let loc = snapshot::cursor_location(state);
        let cursor = if loc.is_null() {
            None
        } else {
            self.last_pushed = state::copy_cursor(&state.cursor);
            Some(bridge::moved(loc))
        };
        proof {
            assert(self@ =~= after_news(state@, old(self)@));
        }
        Some((snap, cursor))
    }

    /// What the infoview clients hear of a cursor that is not where they were last
    /// told, whether or not the goal state has changed with it.
    pub fn push_cursor(&mut self, state: &State) -> (r: Option<String>)
        ensures
            r is Some <==> wants_push(state@, old(self)@),
            final(self)@ == after_push(state@, old(self)@),
            r matches Some(t) ==> json::prints(
                t@,
                bridge::moved_json(snapshot::location(state@.cursor)),
            ),
    {
        if state.cursor.is_none() || state::same_cursor(&state.cursor, &self.last_pushed) {
            return None;
        }
        self.last_pushed = state::copy_cursor(&state.cursor);
        proof {
            assert(self@ =~= after_push(state@, old(self)@));
        }
        Some(bridge::moved(snapshot::cursor_location(state)))
    }
}

/// After a turn nothing is left to do until something changes: the same state
/// asks for no fetch, no file, no news and no word of the cursor again.
pub proof fn law_settled(s: StateView, p: PublisherView)
    ensures
        !wants_fetch(turned_state(s, p), turned(s, p)),
        !wants_write(turned_state(s, p), turned(s, p)),
        !wants_news(turned_state(s, p), turned(s, p)),
        !wants_push(turned_state(s, p), turned(s, p)),
{
    let t = turned_state(s, p);
    assert(render::goal_file(t) == render::goal_file(s));
    assert(snapshot::snapshot(t) == snapshot::snapshot(s));
}

/// A cursor that is not where the clients were last told is pushed in the next
/// turn, and once: with the goal state if that has changed, and by itself if not.
/// After that the clients know it.
pub proof fn law_move_is_pushed(s: StateView, p: PublisherView)
    requires
        s.cursor is Some,
        s.cursor != p.last_pushed,
    ensures
        wants_news(s, p) <==> !wants_push(s, after_news(s, p)),
        turned(s, p).last_pushed == s.cursor,
{
}

/// The cursor that moves to a position makes the goals be asked for there.
pub proof fn law_move_is_fetched(s: StateView, p: PublisherView)
    requires
        s.cursor is Some,
        s.cursor != p.last_fetch,
    ensures
        wants_fetch(s, p),
        goal_request(s, s.cursor->0).at("params"@) == goal_params(s.cursor->0),
        term_request(s, s.cursor->0).at("params"@) == goal_params(s.cursor->0),
{
}

/// The two requests ask for the tactic goals and for the expected type at the
/// cursor, under the next two ids of the proxy.
pub proof fn law_goal_requests(s: StateView, c: CursorView)
    ensures
        goal_request(s, c).at("method"@) == JsonView::Text("$/lean/plainGoal"@),
        term_request(s, c).at("method"@) == JsonView::Text("$/lean/plainTermGoal"@),
        goal_request(s, c).at("id"@) == JsonView::Text(
            "gv:"@ + text::decimal((s.next_id + 1) as nat),
        ),
        term_request(s, c).at("id"@) == JsonView::Text(
            "gv:"@ + text::decimal((s.next_id + 2) as nat),
        ),
        ({
            let r = goal_request(s, c);
            let p = r.at("params"@);
            &&& r.at("jsonrpc"@) == JsonView::Text("2.0"@)
            &&& p.at("textDocument"@).at("uri"@) == JsonView::Text(c.uri)
            &&& p.at("position"@).at("line"@) == JsonView::Int(c.line as int)
            &&& p.at("position"@).at("character"@) == JsonView::Int(c.character as int)
        }),
        ({
            let r = term_request(s, c);
            let p = r.at("params"@);
            &&& r.at("jsonrpc"@) == JsonView::Text("2.0"@)
            &&& p.at("textDocument"@).at("uri"@) == JsonView::Text(c.uri)
            &&& p.at("position"@).at("line"@) == JsonView::Int(c.line as int)
            &&& p.at("position"@).at("character"@) == JsonView::Int(c.character as int)
        }),
{
    bridge::law_request(
        state::own_id((s.next_id + 1) as nat),
        JsonView::Text("$/lean/plainGoal"@),
        goal_params(c),
    );
    bridge::law_request(
        state::own_id((s.next_id + 2) as nat),
        JsonView::Text("$/lean/plainTermGoal"@),
        goal_params(c),
    );
    reveal_strlit("textDocument");
    reveal_strlit("position");
    reveal_strlit("line");
    reveal_strlit("character");
    assert("textDocument"@.len() == 12 && "position"@.len() == 8);
    assert("line"@.len() == 4 && "character"@.len() == 9);
}

/// To ask is to remember both requests and the position, and nothing else.
pub proof fn law_asked(s: StateView, id: Seq<char>)
    requires
        s.next_id <= u64::MAX - 2,
    ensures
        asked(s).next_id == s.next_id + 2,
        asked(s).pending.dom().contains("gv:"@ + text::decimal((s.next_id + 1) as nat)),
        asked(s).pending.dom().contains("gv:"@ + text::decimal((s.next_id + 2) as nat)),
        s.pending.dom().contains(id) ==> asked(s).pending.dom().contains(id),
        asked(s).fetched_for == s.cursor,
        asked(s) == (StateView {
            next_id: asked(s).next_id,
            pending: asked(s).pending,
            fetched_for: s.cursor,
            ..s
        }),
{
}

/// What has changed is published, and what has not is not: the goal file where it
/// has a place, the goal state to the views, the cursor to the clients.
pub proof fn law_changes_published(s: StateView, p: PublisherView)
    ensures
        s.out_path is Some && render::goal_file(s) != p.last_written <==> wants_write(s, p),
        json::json_text(snapshot::snapshot(s)) != p.last_broadcast <==> wants_news(s, p),
        wants_news(s, p) ==> after_news(s, p).last_broadcast == json::json_text(
            snapshot::snapshot(s),
        ),
        s.cursor is Some && p.last_pushed != s.cursor <==> wants_push(s, p),
        s.cursor is Some && p.last_fetch == s.cursor && s.fetched_for == s.cursor ==> !wants_fetch(
            s,
            p,
        ),
        s.cursor is Some && (p.last_fetch != s.cursor || s.fetched_for != s.cursor)
            ==> wants_fetch(s, p),
        s.cursor is None ==> !wants_fetch(s, p),
        after_news(s, p).last_written == p.last_written,
        after_news(s, p).last_fetch == p.last_fetch,
        s.cursor is None ==> after_news(s, p).last_pushed == p.last_pushed,
        !wants_news(s, p) ==> after_news(s, p) == p,
        wants_push(s, p) ==> after_push(s, p) == (PublisherView { last_pushed: s.cursor, ..p }),
        !wants_push(s, p) ==> after_push(s, p) == p,
{
}

} // verus!
