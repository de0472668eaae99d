//! What the proxy remembers between messages.

use crate::ids::Ids;
use crate::json::{Json, JsonView};
use crate::table::Table;
use crate::text;
use std::collections::HashSet;
use vstd::prelude::*;

verus! {

/// A position in a file of the editor, counted from zero.
pub struct Cursor {
    pub uri: String,
    pub line: u64,
    pub character: u64,
}

/// What a cursor is.
#[verifier::ext_equal]
pub struct CursorView {
    pub uri: Seq<char>,
    pub line: u64,
    pub character: u64,
}

impl View for Cursor {
    type V = CursorView;

    open spec fn view(&self) -> CursorView {
        CursorView { uri: self.uri@, line: self.line, character: self.character }
    }
}

/// What a request of the proxy's own asked the server for.
#[derive(Clone, Copy, PartialEq, Eq, Structural)]
pub enum Asked {
    /// `$/lean/plainGoal`.
    Goal,
    /// `$/lean/plainTermGoal`.
    Term,
}

impl View for Asked {
    type V = Asked;

    open spec fn view(&self) -> Asked {
        *self
    }
}

/// What an optional JSON value is.
pub open spec fn opt_json(o: Option<Json>) -> Option<JsonView> {
    match o {
        Some(j) => Some(j@),
        None => None,
    }
}

/// What an optional text is.
pub open spec fn opt_text(o: Option<String>) -> Option<Seq<char>> {
    match o {
        Some(t) => Some(t@),
        None => None,
    }
}

/// What an optional cursor is.
pub open spec fn opt_cursor(o: Option<Cursor>) -> Option<CursorView> {
    match o {
        Some(c) => Some(c@),
        None => None,
    }
}

/// What the proxy remembers between messages.
pub struct State {
    /// The last observed cursor position.
    pub cursor: Option<Cursor>,
    /// Diagnostics per uri, as last published by the server.
    pub diagnostics: Table<Json>,
    /// Whether a file is still being elaborated, per uri.
    pub processing: Table<bool>,
    /// The latest answer to `$/lean/plainGoal`.
    pub plain_goal: Option<Json>,
    /// The latest answer to `$/lean/plainTermGoal`.
    pub term_goal: Option<Json>,
    /// The position that the goals were last asked for.
    pub fetched_for: Option<Cursor>,
    /// Where the goal file goes; known after `initialize`.
    pub out_path: Option<String>,
    /// Requests of the proxy's own that the server has not answered yet.
    pub pending: Table<Asked>,
    /// Hover requests of the editor whose answers are to be enriched.
    pub pending_hovers: HashSet<u64>,
    /// Code action requests of the editor whose answers are to be extended.
    pub pending_actions: Ids,
    /// How many requests of its own the proxy has made.
    pub next_id: u64,
    /// The id of the editor's `initialize` request.
    pub init_id: Option<Json>,
    /// The server's answer to it.
    pub init_result: Option<Json>,
}

/// What the state is.
#[verifier::ext_equal]
pub struct StateView {
    pub cursor: Option<CursorView>,
    pub diagnostics: Map<Seq<char>, JsonView>,
    pub processing: Map<Seq<char>, bool>,
    pub plain_goal: Option<JsonView>,
    pub term_goal: Option<JsonView>,
    pub fetched_for: Option<CursorView>,
    pub out_path: Option<Seq<char>>,
    pub pending: Map<Seq<char>, Asked>,
    pub pending_hovers: Set<u64>,
    pub pending_actions: Set<JsonView>,
    pub next_id: u64,
    pub init_id: Option<JsonView>,
    pub init_result: Option<JsonView>,
}

impl View for State {
    type V = StateView;

    open spec fn view(&self) -> StateView {
        StateView {
            cursor: opt_cursor(self.cursor),
            diagnostics: self.diagnostics@,
            processing: self.processing@,
            plain_goal: opt_json(self.plain_goal),
            term_goal: opt_json(self.term_goal),
            fetched_for: opt_cursor(self.fetched_for),
            out_path: opt_text(self.out_path),
            pending: self.pending@,
            pending_hovers: self.pending_hovers@,
            pending_actions: self.pending_actions@,
            next_id: self.next_id,
            init_id: opt_json(self.init_id),
            init_result: opt_json(self.init_result),
        }
    }
}

/// The id of the proxy's own request with the number `n`.
pub open spec fn own_id(n: nat) -> Seq<char> {
    "gv:"@ + text::decimal(n)
}

impl StateView {
    /// Every open request of the proxy's own was numbered by its counter.
    pub open spec fn numbered(self) -> bool {
        forall|id: Seq<char>| #[trigger]
            self.pending.dom().contains(id) ==> exists|n: nat|
                n <= self.next_id && id == #[trigger] own_id(n)
    }
}

impl Cursor {
    /// A cursor of its own at the same position.
    pub fn copy(&self) -> (r: Cursor)
        ensures
            r@ == self@,
    {
        Cursor { uri: self.uri.clone(), line: self.line, character: self.character }
    }
}

/// Whether two optional cursors are at the same position, or both absent.
pub fn same_cursor(a: &Option<Cursor>, b: &Option<Cursor>) -> (r: bool)
    ensures
        r == (opt_cursor(*a) == opt_cursor(*b)),
{
    match (a, b) {
        (Some(x), Some(y)) => {
            let r = text::same_text(x.uri.as_str(), y.uri.as_str()) && x.line == y.line
                && x.character == y.character;
            proof {
                if r {
                    assert(x@ =~= y@);
                }
            }
            r
        },
        (None, None) => true,
        _ => false,
    }
}

/// The same optional cursor again.
pub fn copy_cursor(c: &Option<Cursor>) -> (r: Option<Cursor>)
    ensures
        opt_cursor(r) == opt_cursor(*c),
{
    match c {
        Some(c) => Some(c.copy()),
        None => None,
    }
}

impl State {
    /// The tables of the state have no key twice, its open requests are numbered
    /// by its counter, and what it remembers as ids are ids.
    pub open spec fn wf(&self) -> bool {
        &&& self.diagnostics.wf()
        &&& self.processing.wf()
        &&& self.pending.wf()
        &&& self.pending_actions.wf()
        &&& self@.numbered()
    }

    /// The state before any message.
    pub fn new() -> (r: State)
        ensures
            r.wf(),
            r@ == (StateView {
                cursor: None,
                diagnostics: Map::empty(),
                processing: Map::empty(),
                plain_goal: None,
                term_goal: None,
                fetched_for: None,
                out_path: None,
                pending: Map::empty(),
                pending_hovers: Set::empty(),
                pending_actions: Set::empty(),
                next_id: 0,
                init_id: None,
                init_result: None,
            }),
    {
        State {
            cursor: None,
            diagnostics: Table::new(),
            processing: Table::new(),
            plain_goal: None,
            term_goal: None,
            fetched_for: None,
            out_path: None,
            pending: Table::new(),
            pending_hovers: HashSet::new(),
            pending_actions: Ids::new(),
            next_id: 0,
            init_id: None,
            init_result: None,
        }
    }
}

} // verus!
