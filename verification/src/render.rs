//! The goal state as markdown: the goal file and what hovers show.

use crate::json::{Json, JsonView, Object};
use crate::state::{CursorView, State, StateView};
use crate::text;
use vstd::prelude::*;
use vstd::slice::slice_subrange;
use vstd::string::*;

verus! {

// ----------------------------------------------------------------- pieces --

/// A text without a prefix that it begins with.
pub open spec fn without_prefix(s: Seq<char>, prefix: Seq<char>) -> Seq<char> {
    if text::begins(s, prefix) {
        s.skip(prefix.len() as int)
    } else {
        s
    }
}

/// The file name at the end of a uri.
pub open spec fn display_name(uri: Seq<char>) -> Seq<char> {
    text::after_last(without_prefix(uri, "file://"@), '/')
}

/// The file name at the end of a uri.
pub fn uri_to_display(uri: &str) -> (r: String)
    ensures
        r@ == display_name(uri@),
{
    let chars = text::chars_of(uri);
    let scheme = text::chars_of("file://");
    let path = if text::starts_with(chars.as_slice(), scheme.as_slice()) {
        let rest = slice_subrange(chars.as_slice(), scheme.len(), chars.len());
        proof {
            assert(rest@ =~= uri@.skip(scheme@.len() as int));
        }
        rest
    } else {
        chars.as_slice()
    };
    text::text_of(text::behind_last(path, '/'))
}

/// The mark of a diagnostic's severity: an error, a warning or anything else.
pub open spec fn icon(sev: u64) -> Seq<char> {
    if sev == 1 {
        "❌"@
    } else if sev == 2 {
        "⚠️"@
    } else {
        "ℹ️"@
    }
}

/// The mark of a diagnostic's severity.
pub fn severity_icon(sev: u64) -> (r: &'static str)
    ensures
        r@ == icon(sev),
{
    if sev == 1 {
        "❌"
    } else if sev == 2 {
        "⚠️"
    } else {
        "ℹ️"
    }
}

/// Lines of text, each indented by four spaces and ended.
pub open spec fn indented(ls: Seq<Seq<char>>) -> Seq<char>
    decreases ls.len(),
{
    if ls.len() == 0 {
        Seq::empty()
    } else {
        indented(ls.drop_last()) + "    "@ + ls.last() + "\n"@
    }
}

/// A text as an indented markdown code block.
pub open spec fn block(body: Seq<char>) -> Seq<char> {
    indented(text::lines(body)) + "\n"@
}

/// Appends a text as a markdown code block: each line indented by four spaces,
/// which a preview shows as a box and a plain view as clean indentation.
pub fn code_block(out: &mut String, body: &str)
    ensures
        final(out)@ == old(out)@ + block(body@),
{
    let chars = text::chars_of(body);
    let ls = text::split_lines(chars.as_slice());
    let ghost all = text::texts(ls@);
    let mut i: usize = 0;
    proof {
        assert(out@ + indented(all.take(0)) =~= out@);
    }
    while i < ls.len()
        invariant
            i <= ls.len(),
            all == text::texts(ls@),
            out@ == old(out)@ + indented(all.take(i as int)),
        decreases ls.len() - i,
    {
        let line = text::text_of(ls[i].as_slice());
        out.append("    ");
        out.append(line.as_str());
        out.append("\n");
        proof {
            let t = all.take(i + 1);
            assert(t.drop_last() =~= all.take(i as int));
            assert(t.last() == ls@[i as int]@);
            assert(out@ =~= old(out)@ + indented(t));
        }
        i += 1;
    }
    out.append("\n");
    proof {
        assert(all.take(i as int) =~= all);
        assert(out@ =~= old(out)@ + block(body@));
    }
}

/// A line or column counted from one.
pub open spec fn one_based(n: u64) -> u64 {
    if n == u64::MAX {
        0
    } else {
        (n + 1) as u64
    }
}

/// A line or column counted from one.
pub fn from_one(n: u64) -> (r: u64)
    ensures
        r == one_based(n),
{
    n.wrapping_add(1)
}

/// The texts among a list of values, in order.
pub open spec fn texts_in(items: Seq<JsonView>) -> Seq<Seq<char>>
    decreases items.len(),
{
    if items.len() == 0 {
        Seq::empty()
    } else {
        match items.last().text() {
            Some(t) => texts_in(items.drop_last()).push(t),
            None => texts_in(items.drop_last()),
        }
    }
}

/// The texts among the items of a list.
pub fn texts_of(list: &Json) -> (r: Vec<String>)
    ensures
        text::strings(r@) == texts_in(list@.items()),
{
    let n = list.count();
    let mut out: Vec<String> = Vec::new();
    let mut i: usize = 0;
    let ghost items = list@.items();
    proof {
        assert(text::strings(out@) =~= texts_in(items.take(0)));
    }
    while i < n
        invariant
            i <= n,
            n == items.len(),
            items == list@.items(),
            text::strings(out@) == texts_in(items.take(i as int)),
        decreases n - i,
    {
        let ghost before = text::strings(out@);
        let item = list.item(i);
        proof {
            let t = items.take(i + 1);
            assert(t.drop_last() =~= items.take(i as int));
            assert(t.last() == item@);
        }
        if let Some(t) = item.as_str() {
            out.push(t.to_owned());
            proof {
                assert(text::strings(out@) =~= before.push(t@));
            }
        }
        i += 1;
    }
    proof {
        assert(items.take(i as int) =~= items);
    }
    out
}

// -------------------------------------------------------------- goal file --

/// What the goal file says where there is no cursor to speak of.
pub open spec fn blank_page() -> Seq<char> {
    "# Lean Goal View\n\n*Move the cursor into a Lean file…*\n"@
}

/// Whether a file is still being elaborated.
pub open spec fn is_busy(s: StateView, uri: Seq<char>) -> bool {
    s.processing.dom().contains(uri) && s.processing[uri]
}

/// The heading: the file, the line counted from one, a mark while it is busy.
pub open spec fn heading(uri: Seq<char>, line: u64, busy: bool) -> Seq<char> {
    "# "@ + display_name(uri) + ":"@ + text::decimal(one_based(line) as nat) + (if busy {
        "  ⏳"@
    } else {
        ""@
    }) + "\n\n"@
}

/// The first goals of `total`, each as a code block, numbered where there are
/// several.
pub open spec fn goal_blocks(goals: Seq<Seq<char>>, total: nat) -> Seq<char>
    decreases goals.len(),
{
    if goals.len() == 0 {
        Seq::empty()
    } else {
        goal_blocks(goals.drop_last(), total) + (if total > 1 {
            "**goal "@ + text::decimal(goals.len()) + " / "@ + text::decimal(total) + "**\n\n"@
        } else {
            ""@
        }) + block(goals.last())
    }
}

/// The tactic state: no goals here, all of them closed, or the open ones.
pub open spec fn tactic_part(goal: Option<JsonView>) -> Seq<char> {
    match goal {
        None => "*No tactic goals at this position.*\n\n"@,
        Some(JsonView::Null) => "*No tactic goals at this position.*\n\n"@,
        Some(pg) => {
            let goals = texts_in(pg.at("goals"@).items());
            if goals.len() == 0 {
                "## Goals accomplished 🎉\n\n"@
            } else {
                "## Tactic state · "@ + text::decimal(goals.len()) + " goal"@ + (if goals.len()
                    == 1 {
                    ""@
                } else {
                    "s"@
                }) + "\n\n"@ + goal_blocks(goals, goals.len())
            }
        },
    }
}

/// The expected type, where one is known.
pub open spec fn term_part(term: Option<JsonView>) -> Seq<char> {
    match term {
        Some(tg) => match tg.at("goal"@).text() {
            Some(goal) => "## Expected type\n\n"@ + block(goal),
            None => Seq::empty(),
        },
        None => Seq::empty(),
    }
}

/// The line of a diagnostic, counted from one.
pub open spec fn diagnostic_line(d: JsonView) -> u64 {
    one_based(d.at("range"@).at("start"@).at("line"@).uint_or(0))
}

/// One diagnostic: its severity, its line and its text.
pub open spec fn message_block(d: JsonView) -> Seq<char> {
    "**"@ + icon(d.at("severity"@).uint_or(3)) + " line "@ + text::decimal(
        diagnostic_line(d) as nat,
    ) + "**\n\n"@ + block(d.at("message"@).text_or(""@))
}

/// Diagnostics one after the other.
pub open spec fn message_blocks(ds: Seq<JsonView>) -> Seq<char>
    decreases ds.len(),
{
    if ds.len() == 0 {
        Seq::empty()
    } else {
        message_blocks(ds.drop_last()) + message_block(ds.last())
    }
}

/// The diagnostics of a file.
pub open spec fn diagnostics_of(s: StateView, uri: Seq<char>) -> Seq<JsonView> {
    if s.diagnostics.dom().contains(uri) {
        s.diagnostics[uri].items()
    } else {
        Seq::empty()
    }
}

/// The messages of a file, where there are any.
pub open spec fn messages_part(ds: Seq<JsonView>) -> Seq<char> {
    if ds.len() == 0 {
        Seq::empty()
    } else {
        "## Messages\n\n"@ + message_blocks(ds)
    }
}

/// The goal state as markdown.
pub open spec fn page(s: StateView) -> Seq<char> {
    match s.cursor {
        Some(c) => if c.uri.len() == 0 {
            blank_page()
        } else {
            heading(c.uri, c.line, is_busy(s, c.uri)) + tactic_part(s.plain_goal) + term_part(
                s.term_goal,
            ) + messages_part(diagnostics_of(s, c.uri))
        },
        None => blank_page(),
    }
}

/// The last lines of the goal file: how to reach the other goal views.
pub open spec fn foot() -> Seq<char> {
    "\n---\n\nLean: infoview window (⌘⌥I) · Lean: goals in terminal (⌘⌥L)\n"@
}

/// The goal file: the goal state, and how to reach the other views of it.
pub open spec fn goal_file(s: StateView) -> Seq<char> {
    page(s) + foot()
}

fn push_goals(out: &mut String, goals: &Vec<String>)
    ensures
        final(out)@ == old(out)@ + goal_blocks(text::strings(goals@), goals@.len()),
{
    let n = goals.len();
    let ghost all = text::strings(goals@);
    let mut i: usize = 0;
    proof {
        assert(out@ + goal_blocks(all.take(0), n as nat) =~= out@);
    }
    while i < n
        invariant
            i <= n,
            n == goals.len(),
            all == text::strings(goals@),
            out@ == old(out)@ + goal_blocks(all.take(i as int), n as nat),
        decreases n - i,
    {
        let ghost before = out@;
        if n > 1 {
            out.append("**goal ");
            text::push_decimal(out, i as u64 + 1);
            out.append(" / ");
            text::push_decimal(out, n as u64);
            out.append("**\n\n");
        }
        proof {
            let label = if n > 1 {
                "**goal "@ + text::decimal((i + 1) as nat) + " / "@ + text::decimal(n as nat)
                    + "**\n\n"@
            } else {
                ""@
            };
            reveal_strlit("");
            assert(out@ =~= before + label);
        }
        code_block(out, goals[i].as_str());
        proof {
            let t = all.take(i + 1);
            assert(t.drop_last() =~= all.take(i as int));
            assert(t.last() == goals@[i as int]@);
            assert(out@ =~= old(out)@ + goal_blocks(t, n as nat));
        }
        i += 1;
    }
    proof {
        assert(all.take(i as int) =~= all);
    }
}

fn push_tactic_part(out: &mut String, goal: &Option<Json>)
    ensures
        final(out)@ == old(out)@ + tactic_part(crate::state::opt_json(*goal)),
{
    match goal {
        None => out.append("*No tactic goals at this position.*\n\n"),
        Some(pg) => {
            if pg.is_null() {
                out.append("*No tactic goals at this position.*\n\n");
            } else {
                let goals = texts_of(pg.at("goals"));
                let ghost all = text::strings(goals@);
                if goals.len() == 0 {
                    out.append("## Goals accomplished 🎉\n\n");
                } else {
                    out.append("## Tactic state · ");
                    text::push_decimal(out, goals.len() as u64);
                    out.append(" goal");
                    if goals.len() == 1 {
                        out.append("");
                    } else {
                        out.append("s");
                    }
                    out.append("\n\n");
                    push_goals(out, &goals);
                    proof {
                        assert(out@ =~= old(out)@ + tactic_part(crate::state::opt_json(*goal)));
                    }
                }
            }
        },
    }
}

fn push_term_part(out: &mut String, term: &Option<Json>)
    ensures
        final(out)@ == old(out)@ + term_part(crate::state::opt_json(*term)),
{
    if let Some(tg) = term {
        if let Some(goal) = tg.at("goal").as_str() {
            out.append("## Expected type\n\n");
            code_block(out, goal);
        }
    }
    proof {
        assert(out@ =~= old(out)@ + term_part(crate::state::opt_json(*term)));
    }
}

fn push_message(out: &mut String, d: &Json)
    ensures
        final(out)@ == old(out)@ + message_block(d@),
{
    out.append("**");
    out.append(severity_icon(d.at("severity").u64_or(3)));
    out.append(" line ");
    text::push_decimal(out, from_one(d.at("range").at("start").at("line").u64_or(0)));
    out.append("**\n\n");
    code_block(out, d.at("message").str_or(""));
    proof {
        assert(out@ =~= old(out)@ + message_block(d@));
    }
}

fn push_messages(out: &mut String, ds: &Json)
    ensures
        final(out)@ == old(out)@ + messages_part(ds@.items()),
{
    let n = ds.count();
    if n == 0 {
        proof {
            assert(out@ =~= old(out)@ + messages_part(ds@.items()));
        }
        return;
    }
    out.append("## Messages\n\n");
    let ghost items = ds@.items();
    let ghost start = out@;
    let mut i: usize = 0;
    proof {
        assert(start + message_blocks(items.take(0)) =~= start);
    }
    while i < n
        invariant
            i <= n,
            n == items.len(),
            items == ds@.items(),
            out@ == start + message_blocks(items.take(i as int)),
        decreases n - i,
    {
        push_message(out, ds.item(i));
        proof {
            let t = items.take(i + 1);
            assert(t.drop_last() =~= items.take(i as int));
            assert(t.last() == items[i as int]);
            assert(out@ =~= start + message_blocks(t));
        }
        i += 1;
    }
    proof {
        assert(items.take(i as int) =~= items);
        assert(out@ =~= old(out)@ + messages_part(ds@.items()));
    }
}

/// The goal state at the cursor as markdown: the file and line, the tactic
/// goals, the expected type and the messages of the file.
pub fn render(state: &State) -> (r: String)
    requires
        state.wf(),
    ensures
        r@ == page(state@),
{
    let mut out = String::new();
    let cursor = match &state.cursor {
        Some(c) => if c.uri.as_str().is_empty() {
            None
        } else {
            Some(c)
        },
        None => None,
    };
    let c = match cursor {
        Some(c) => c,
        None => {
            out.append("# Lean Goal View\n\n*Move the cursor into a Lean file…*\n");
            proof {
                assert(out@ =~= blank_page());
            }
            return out;
        },
    };
    let busy = match state.processing.get(c.uri.as_str()) {
        Some(b) => *b,
        None => false,
    };
    out.append("# ");
    let name = uri_to_display(c.uri.as_str());
    out.append(name.as_str());
    out.append(":");
    text::push_decimal(&mut out, from_one(c.line));
    if busy {
        out.append("  ⏳");
    } else {
        out.append("");
    }
    out.append("\n\n");
    proof {
        assert(out@ =~= heading(c.uri@, c.line, busy));
    }
    push_tactic_part(&mut out, &state.plain_goal);
    push_term_part(&mut out, &state.term_goal);
    if let Some(ds) = state.diagnostics.get(c.uri.as_str()) {
        push_messages(&mut out, ds);
    }
    proof {
        assert(out@ =~= page(state@));
    }
    out
}

/// A file to write: first under its temporary name, then renamed.
pub struct FileWrite {
    pub temporary: String,
    pub path: String,
    pub content: String,
}

/// The goal file, if it has a path and differs from what was last written.
pub fn write_out(state: &State, last_written: &str) -> (r: Option<FileWrite>)
    requires
        state.wf(),
    ensures
        r is Some <==> state@.out_path is Some && goal_file(state@) != last_written@,
        r matches Some(w) ==> {
            &&& state@.out_path == Some(w.path@)
            &&& w.temporary@ == w.path@ + ".tmp"@
            &&& w.content@ == goal_file(state@)
        },
{
    let path = match &state.out_path {
        Some(p) => p,
        None => return None,
    };
    let mut content = render(state);
    content.append("\n---\n\nLean: infoview window (⌘⌥I) · Lean: goals in terminal (⌘⌥L)\n");
    if text::same_text(content.as_str(), last_written) {
        return None;
    }
    let mut temporary = path.clone();
    temporary.append(".tmp");
    Some(FileWrite { temporary, path: path.clone(), content })
}

// ------------------------------------------------------------------ hover --

/// The first goals of `total` as fenced markdown blocks, numbered where there
/// are several.
pub open spec fn hover_blocks(goals: Seq<Seq<char>>, total: nat) -> Seq<char>
    decreases goals.len(),
{
    if goals.len() == 0 {
        Seq::empty()
    } else {
        hover_blocks(goals.drop_last(), total) + (if total > 1 {
            "*goal "@ + text::decimal(goals.len()) + " / "@ + text::decimal(total) + "*\n"@
        } else {
            ""@
        }) + "```lean\n"@ + goals.last() + "\n```\n"@
    }
}

/// The goal state that a hover shows, where there is one.
pub open spec fn hover_goal(s: StateView) -> Option<Seq<char>> {
    match s.plain_goal {
        Some(pg) => if pg.at("goals"@) is List {
            let goals = texts_in(pg.at("goals"@).items());
            Some(
                if goals.len() == 0 {
                    "**Goals accomplished** 🎉"@
                } else {
                    hover_blocks(goals, goals.len())
                },
            )
        } else {
            None
        },
        None => None,
    }
}

/// The goal state as hover markdown; `None` where there is nothing to add.
pub fn goal_hover_markdown(state: &State) -> (r: Option<String>)
    ensures
        crate::state::opt_text(r) == hover_goal(state@),
{
    let list = match &state.plain_goal {
        Some(pg) => pg.at("goals"),
        None => return None,
    };
    if !list.is_list() {
        return None;
    }
    let goals = texts_of(list);
    let n = goals.len();
    let mut out = String::new();
    if n == 0 {
        out.append("**Goals accomplished** 🎉");
        proof {
            assert(out@ =~= "**Goals accomplished** 🎉"@);
        }
        return Some(out);
    }
    let ghost all = text::strings(goals@);
    let mut i: usize = 0;
    proof {
        assert(out@ =~= hover_blocks(all.take(0), n as nat));
    }
    while i < n
        invariant
            i <= n,
            n == goals.len(),
            all == text::strings(goals@),
            out@ == hover_blocks(all.take(i as int), n as nat),
        decreases n - i,
    {
        let ghost before = out@;
        if n > 1 {
            out.append("*goal ");
            text::push_decimal(&mut out, i as u64 + 1);
            out.append(" / ");
            text::push_decimal(&mut out, n as u64);
            out.append("*\n");
        }
        proof {
            let label = if n > 1 {
                "*goal "@ + text::decimal((i + 1) as nat) + " / "@ + text::decimal(n as nat)
                    + "*\n"@
            } else {
                ""@
            };
            reveal_strlit("");
            assert(out@ =~= before + label);
        }
        out.append("```lean\n");
        out.append(goals[i].as_str());
        out.append("\n```\n");
        proof {
            let t = all.take(i + 1);
            assert(t.drop_last() =~= all.take(i as int));
            assert(t.last() == goals@[i as int]@);
            assert(out@ =~= hover_blocks(t, n as nat));
        }
        i += 1;
    }
    proof {
        assert(all.take(i as int) =~= all);
    }
    Some(out)
}

/// The text that a hover already shows: markup, a bare text, or nothing.
pub open spec fn hover_text(contents: JsonView) -> Seq<char> {
    match contents.at("value"@).text() {
        Some(v) => v,
        None => contents.text_or(""@),
    }
}

/// A hover's contents as markdown.
pub open spec fn markup(value: Seq<char>) -> JsonView {
    JsonView::Object(
        map!["kind"@ => JsonView::Text("markdown"@), "value"@ => JsonView::Text(value)],
    )
}

/// A goal under its heading.
pub open spec fn goal_section(goal_md: Seq<char>) -> Seq<char> {
    "**⊢ Goal**\n\n"@ + goal_md
}

/// An object with one member replaced; null counts as an object without any.
pub open spec fn with_member(j: JsonView, key: Seq<char>, value: JsonView) -> JsonView {
    match j {
        JsonView::Object(m) => JsonView::Object(m.insert(key, value)),
        _ => JsonView::Object(map![key => value]),
    }
}

/// A hover answer to which the goal can be added: an object whose result is
/// null or an object.
pub open spec fn enrichable(msg: JsonView) -> bool {
    (msg is Null || msg is Object) && (msg.at("result"@) is Null || msg.at("result"@) is Object)
}

/// A hover answer with the goal added below what it shows.
pub open spec fn hover_with_goal(msg: JsonView, goal_md: Seq<char>) -> JsonView {
    let result = msg.at("result"@);
    let old_text = hover_text(result.at("contents"@));
    let combined = if old_text.len() == 0 {
        goal_section(goal_md)
    } else {
        old_text + "\n\n---\n\n"@ + goal_section(goal_md)
    };
    if result is Null {
        with_member(
            msg,
            "result"@,
            JsonView::Object(map!["contents"@ => markup(goal_section(goal_md))]),
        )
    } else {
        with_member(msg, "result"@, with_member(result, "contents"@, markup(combined)))
    }
}

fn markdown(value: &str) -> (r: Json)
    ensures
        r@ == markup(value@),
{
    let mut o = Object::new();
    o.set("kind", Json::string("markdown"));
    o.set("value", Json::string(value));
    Json::Object(o)
}

/// Adds the goal to a hover answer, whatever shape its contents have.
pub fn inject_goal_into_hover(msg: &mut Json, goal_md: &str)
    requires
        enrichable(old(msg)@),
    ensures
        final(msg)@ == hover_with_goal(old(msg)@, goal_md@),
{
    let mut header = String::new();
    header.append("**⊢ Goal**\n\n");
    header.append(goal_md);
    proof {
        assert(header@ =~= goal_section(goal_md@));
    }
    if msg.at("result").is_null() {
        let mut result = Object::new();
        result.set("contents", markdown(header.as_str()));
        msg.put("result", Json::Object(result));
        return;
    }
    let contents = msg.at("result").at("contents");
    let shown: String = match contents.at("value").as_str() {
        Some(v) => v.to_owned(),
        None => contents.str_or("").to_owned(),
    };
    let combined: String = if shown.as_str().is_empty() {
        header
    } else {
        let mut c = shown;
        c.append("\n\n---\n\n");
        c.append(header.as_str());
        c
    };
    proof {
        let old_text = hover_text(old(msg)@.at("result"@).at("contents"@));
        if old_text.len() > 0 {
            assert(combined@ =~= old_text + "\n\n---\n\n"@ + goal_section(goal_md@));
        }
    }
    let mut result = msg.at("result").copy();
    result.put("contents", markdown(combined.as_str()));
    msg.put("result", result);
}

// ------------------------------------------------------------------- laws --

proof fn lemma_indented_pieces(ls: Seq<Seq<char>>, rest: Seq<char>)
    requires
        forall|i: int, k: int|
            0 <= i < ls.len() && 0 <= k < ls[i].len() ==> #[trigger] ls[i][k] != '\n',
    ensures
        text::pieces(indented(ls) + rest, '\n') == ls.map_values(|l: Seq<char>| "    "@ + l)
            + text::pieces(rest, '\n'),
    decreases ls.len(),
{
    let f = |l: Seq<char>| "    "@ + l;
    if ls.len() == 0 {
        assert(indented(ls) + rest =~= rest);
        assert(ls.map_values(f) + text::pieces(rest, '\n') =~= text::pieces(rest, '\n'));
    } else {
        reveal_strlit("    ");
        reveal_strlit("\n");
        let init = ls.drop_last();
        let last = ls.last();
        assert(last == ls[ls.len() - 1]);
        assert forall|i: int, k: int|
            0 <= i < init.len() && 0 <= k < init[i].len() implies #[trigger] init[i][k] != '\n' by {
            assert(ls[i][k] == init[i][k]);
        }
        let line = "    "@ + last;
        assert forall|i: int| 0 <= i < line.len() implies #[trigger] line[i] != '\n' by {
            if i >= 4 {
                assert(line[i] == ls[ls.len() - 1][i - 4]);
            }
        }
        let more = line + seq!['\n'] + rest;
        lemma_indented_pieces(init, more);
        text::law_first_piece(line, '\n', rest);
        assert("\n"@ =~= seq!['\n']);
        assert(indented(ls) + rest =~= indented(init) + more);
        assert(init.map_values(f) + (seq![line] + text::pieces(rest, '\n')) =~= ls.map_values(f)
            + text::pieces(rest, '\n'));
    }
}

/// A code block is the lines of its text, each behind four spaces and ended by a
/// line feed, and then an empty line.
pub proof fn law_block_lines(body: Seq<char>)
    ensures
        text::pieces(block(body), '\n') == text::lines(body).map_values(
            |l: Seq<char>| "    "@ + l,
        ) + seq![Seq::empty(), Seq::empty()],
{
    let none = Seq::<char>::empty();
    text::law_lines_are_lines(body);
    lemma_indented_pieces(text::lines(body), "\n"@);
    reveal_strlit("\n");
    text::law_first_piece(none, '\n', none);
    assert(none + seq!['\n'] + none =~= "\n"@);
    assert(text::pieces(none, '\n') == seq![none]);
    assert(text::pieces("\n"@, '\n') =~= seq![none, none]);
}

/// A hover answer with the goal shows first what it showed before and last the
/// goal, and has everything else unchanged, the id above all.
pub proof fn law_hover_keeps(msg: JsonView, goal_md: Seq<char>, key: Seq<char>)
    requires
        enrichable(msg),
        msg is Object,
        key != "result"@,
    ensures
        hover_with_goal(msg, goal_md).at(key) == msg.at(key),
        ({
            let shown = hover_with_goal(msg, goal_md).at("result"@).at("contents"@);
            let before = hover_text(msg.at("result"@).at("contents"@));
            &&& shown.at("kind"@) == JsonView::Text("markdown"@)
            &&& text::begins(hover_text(shown), before)
            &&& text::ends(hover_text(shown), goal_section(goal_md))
        }),
{
    reveal_strlit("kind");
    reveal_strlit("value");
    assert("kind"@.len() != "value"@.len());
    let shown = hover_with_goal(msg, goal_md).at("result"@).at("contents"@);
    let before = hover_text(msg.at("result"@).at("contents"@));
    let section = goal_section(goal_md);
    if msg.at("result"@) is Null {
        assert(shown == markup(section));
        reveal_strlit("");
        assert(before =~= Seq::empty());
        assert(section.subrange(0, 0) =~= before);
        assert(section.subrange(0, section.len() as int) =~= section);
    } else {
        let all = if before.len() == 0 {
            section
        } else {
            before + "\n\n---\n\n"@ + section
        };
        assert(shown == markup(all));
        assert(hover_text(shown) == all);
        assert(all.subrange(0, before.len() as int) =~= before);
        assert(all.subrange(all.len() - section.len(), all.len() as int) =~= section);
    }
}

/// The name that is shown of a file is what stands behind the last slash.
pub proof fn law_display_name(dir: Seq<char>, name: Seq<char>)
    requires
        forall|i: int| 0 <= i < name.len() ==> #[trigger] name[i] != '/',
    ensures
        display_name("file://"@ + dir.push('/') + name) == name,
        display_name(name) == name,
        !text::begins(dir.push('/') + name, "file://"@) ==> display_name(dir.push('/') + name)
            == name,
{
    reveal_strlit("file://");
    let uri = "file://"@ + dir.push('/') + name;
    assert(uri.subrange(0, 7) =~= "file://"@);
    assert(uri.skip(7) =~= dir.push('/') + name);
    text::law_after_last(dir, '/', name);
    if text::begins(name, "file://"@) {
        assert(name.subrange(0, 7)[5] == name[5]);
        assert("file://"@[5] == '/');
    }
}

/// Errors, warnings and everything else have their marks.
pub proof fn law_icons(sev: u64)
    ensures
        icon(1) == "❌"@,
        icon(2) == "⚠️"@,
        sev != 1 && sev != 2 ==> icon(sev) == "ℹ️"@,
{
}

/// The texts among values are all of them, in order, and nothing else.
pub proof fn law_texts_in(a: Seq<JsonView>, b: Seq<JsonView>, t: Seq<char>, j: JsonView)
    ensures
        texts_in(a + b) == texts_in(a) + texts_in(b),
        texts_in(seq![JsonView::Text(t)]) == seq![t],
        !(j is Text) ==> texts_in(seq![j]) == Seq::<Seq<char>>::empty(),
    decreases b.len(),
{
    reveal_with_fuel(texts_in, 2);
    assert(seq![JsonView::Text(t)].drop_last() =~= Seq::<JsonView>::empty());
    assert(seq![j].drop_last() =~= Seq::<JsonView>::empty());
    assert(texts_in(Seq::<JsonView>::empty()) =~= Seq::<Seq<char>>::empty());
    assert(texts_in(seq![JsonView::Text(t)]) =~= seq![t]);
    if b.len() == 0 {
        assert(a + b =~= a);
        assert(texts_in(a) + texts_in(b) =~= texts_in(a));
    } else {
        law_texts_in(a, b.drop_last(), t, j);
        assert((a + b).drop_last() =~= a + b.drop_last());
        assert((a + b).last() == b.last());
        assert(texts_in(a + b) =~= texts_in(a) + texts_in(b));
    }
}

/// Texts as JSON values.
pub open spec fn as_values(ts: Seq<Seq<char>>) -> Seq<JsonView> {
    ts.map_values(|t: Seq<char>| JsonView::Text(t))
}

/// The texts among values that are all texts are those texts.
pub proof fn law_texts_of_values(ts: Seq<Seq<char>>)
    ensures
        texts_in(as_values(ts)) == ts,
    decreases ts.len(),
{
    if ts.len() == 0 {
        assert(texts_in(as_values(ts)) =~= ts);
    } else {
        law_texts_of_values(ts.drop_last());
        assert(as_values(ts).drop_last() =~= as_values(ts.drop_last()));
        assert(as_values(ts).last() == JsonView::Text(ts.last()));
        assert(texts_in(as_values(ts)) =~= ts);
    }
}

proof fn lemma_hover_joined(goals: Seq<Seq<char>>, total: nat)
    requires
        goals.len() > 0,
        total > 1,
    ensures
        hover_blocks(goals, total) == text::joined(
            Seq::new(
                goals.len(),
                |i: int|
                    "*goal "@ + text::decimal((i + 1) as nat) + " / "@ + text::decimal(total)
                        + "*\n"@ + ("```lean\n"@ + goals[i] + "\n```\n"@),
            ),
            Seq::empty(),
        ),
    decreases goals.len(),
{
    let f = |i: int|
        "*goal "@ + text::decimal((i + 1) as nat) + " / "@ + text::decimal(total) + "*\n"@
            + ("```lean\n"@ + goals[i] + "\n```\n"@);
    let parts = Seq::new(goals.len(), f);
    let init = goals.drop_last();
    if goals.len() == 1 {
        assert(hover_blocks(init, total) =~= Seq::empty());
        assert(hover_blocks(goals, total) =~= parts[0]);
    } else {
        lemma_hover_joined(init, total);
        let g = |i: int|
            "*goal "@ + text::decimal((i + 1) as nat) + " / "@ + text::decimal(total) + "*\n"@
                + ("```lean\n"@ + init[i] + "\n```\n"@);
        assert(parts.drop_last() =~= Seq::new(init.len(), g));
        assert(parts.last() == f(goals.len() - 1));
        assert(hover_blocks(goals, total) =~= text::joined(parts, Seq::empty()));
    }
}

/// A hover shows every goal whole, between fences and in order: one goal by itself,
/// several each under its number, and that all are closed where there is none.
pub proof fn law_hover_shows_goals(s: StateView, pg: JsonView, goals: Seq<Seq<char>>)
    requires
        s.plain_goal == Some(pg),
        pg.at("goals"@) is List,
        goals == texts_in(pg.at("goals"@).items()),
    ensures
        goals.len() == 0 ==> hover_goal(s) == Some("**Goals accomplished** 🎉"@),
        goals.len() == 1 ==> hover_goal(s) == Some("```lean\n"@ + goals[0] + "\n```\n"@),
        goals.len() > 1 ==> hover_goal(s) == Some(
            text::joined(
                Seq::new(
                    goals.len(),
                    |i: int|
                        "*goal "@ + text::decimal((i + 1) as nat) + " / "@ + text::decimal(
                            goals.len(),
                        ) + "*\n"@ + ("```lean\n"@ + goals[i] + "\n```\n"@),
                ),
                Seq::empty(),
            ),
        ),
{
    if goals.len() == 1 {
        reveal_strlit("");
        assert(hover_blocks(goals.drop_last(), 1) =~= Seq::empty());
        assert(hover_blocks(goals, 1) =~= "```lean\n"@ + goals[0] + "\n```\n"@);
    } else if goals.len() > 1 {
        lemma_hover_joined(goals, goals.len());
    }
}

/// Where goal `i` stands among the first goals of a hover.
proof fn lemma_hover_place(goals: Seq<Seq<char>>, total: nat, i: int)
    requires
        0 <= i < goals.len(),
    ensures
        hover_blocks(goals.take(i + 1), total).len() >= ("```lean\n"@ + goals[i]
            + "\n```\n"@).len(),
        text::occurs_at(
            hover_blocks(goals, total),
            ("```lean\n"@ + goals[i] + "\n```\n"@),
            hover_blocks(goals.take(i + 1), total).len() - ("```lean\n"@ + goals[i]
                + "\n```\n"@).len(),
        ),
        hover_blocks(goals, total).len() >= hover_blocks(goals.take(i + 1), total).len(),
    decreases goals.len(),
{
    let h = hover_blocks(goals, total);
    let f = ("```lean\n"@ + goals[i] + "\n```\n"@);
    if i == goals.len() - 1 {
        assert(goals.take(i + 1) =~= goals);
        assert(goals.last() == goals[i]);
        assert(h.subrange(h.len() - f.len(), h.len() as int) =~= f);
    } else {
        let init = goals.drop_last();
        lemma_hover_place(init, total, i);
        assert(init.take(i + 1) =~= goals.take(i + 1));
        assert(init[i] == goals[i]);
        let k = hover_blocks(goals.take(i + 1), total).len() - f.len();
        let h0 = hover_blocks(init, total);
        assert(h0.subrange(k, k + f.len()) == f);
        assert(h.subrange(k, k + f.len()) =~= h0.subrange(k, k + f.len()));
    }
}

/// Each goal stands whole in a hover, and before every goal that follows it.
pub proof fn law_hover_in_order(
    s: StateView,
    pg: JsonView,
    goals: Seq<Seq<char>>,
    i: int,
    j: int,
)
    requires
        s.plain_goal == Some(pg),
        pg.at("goals"@) is List,
        goals == texts_in(pg.at("goals"@).items()),
        0 <= i < j < goals.len(),
    ensures
        hover_goal(s) is Some,
        exists|p: int, q: int|
            p + ("```lean\n"@ + goals[i] + "\n```\n"@).len() <= q && #[trigger] text::occurs_at(
                hover_goal(s)->0,
                ("```lean\n"@ + goals[i] + "\n```\n"@),
                p,
            ) && #[trigger] text::occurs_at(
                hover_goal(s)->0,
                ("```lean\n"@ + goals[j] + "\n```\n"@),
                q,
            ),
{
    let total = goals.len();
    lemma_hover_place(goals, total, i);
    lemma_hover_place(goals, total, j);
    let t = goals.take(j + 1);
    let u = t.drop_last();
    assert(t.last() == goals[j]);
    lemma_hover_place(u, total, i);
    assert(u.take(i + 1) =~= goals.take(i + 1));
    let f = "```lean\n"@ + goals[i] + "\n```\n"@;
    let g = "```lean\n"@ + goals[j] + "\n```\n"@;
    let p = hover_blocks(goals.take(i + 1), total).len() - f.len();
    let q = hover_blocks(t, total).len() - g.len();
    assert(hover_blocks(t, total).len() >= hover_blocks(u, total).len() + g.len());
    assert(text::occurs_at(hover_goal(s)->0, f, p));
    assert(text::occurs_at(hover_goal(s)->0, g, q));
}

/// Without an answer that lists goals a hover has nothing to add.
pub proof fn law_hover_without_goals(s: StateView)
    ensures
        s.plain_goal is None ==> hover_goal(s) is None,
        s.plain_goal matches Some(pg) ==> !(pg.at("goals"@) is List) ==> hover_goal(s) is None,
{
}

/// The goal is added under its heading: below a text that the hover has, as markup
/// or as a bare text, and alone where it has none. What else the result holds
/// stays.
pub proof fn law_goal_added(msg: JsonView, md: Seq<char>, t: Seq<char>, key: Seq<char>)
    requires
        msg is Object,
        msg.at("result"@) is Null || msg.at("result"@) is Object,
        key != "contents"@,
    ensures
        ({
            let before = msg.at("result"@).at("contents"@);
            let after = hover_with_goal(msg, md).at("result"@).at("contents"@);
            &&& enrichable(msg)
            &&& after.at("kind"@) == JsonView::Text("markdown"@)
            &&& (before.at("value"@) == JsonView::Text(t) || before == JsonView::Text(t))
                && t.len() > 0 ==> after.at("value"@) == JsonView::Text(
                t + "\n\n---\n\n"@ + ("**⊢ Goal**\n\n"@ + md),
            )
            &&& !(before.at("value"@) is Text) && !(before is Text) ==> after.at("value"@)
                == JsonView::Text("**⊢ Goal**\n\n"@ + md)
            &&& (before.at("value"@) == JsonView::Text(t) || before == JsonView::Text(t))
                && t.len() == 0 ==> after.at("value"@) == JsonView::Text("**⊢ Goal**\n\n"@ + md)
            &&& hover_with_goal(msg, md).at("result"@).at(key) == msg.at("result"@).at(key)
        }),
{
    reveal_strlit("kind");
    reveal_strlit("value");
    reveal_strlit("");
    assert("kind"@.len() != "value"@.len());
}

/// The page is its heading, the tactic state, the expected type and the messages,
/// in this order; without a file there is nothing to show.
pub proof fn law_page_order(s: StateView, c: CursorView)
    ensures
        s.cursor is None ==> page(s)
            == "# Lean Goal View\n\n*Move the cursor into a Lean file…*\n"@,
        s.cursor == Some(c) && c.uri.len() == 0 ==> page(s)
            == "# Lean Goal View\n\n*Move the cursor into a Lean file…*\n"@,
        s.cursor == Some(c) && c.uri.len() > 0 ==> page(s) == heading(
            c.uri,
            c.line,
            s.processing.dom().contains(c.uri) && s.processing[c.uri],
        ) + tactic_part(s.plain_goal) + term_part(s.term_goal) + messages_part(
            if s.diagnostics.dom().contains(c.uri) {
                s.diagnostics[c.uri].items()
            } else {
                Seq::empty()
            },
        ),
{
}

/// The heading names the file and the line counted from one, and marks a file that
/// is still being elaborated.
pub proof fn law_heading(dir: Seq<char>, name: Seq<char>, line: u64)
    requires
        forall|i: int| 0 <= i < name.len() ==> #[trigger] name[i] != '/',
        line < u64::MAX,
    ensures
        heading("file://"@ + dir.push('/') + name, line, false) == "# "@ + name + ":"@
            + text::decimal((line + 1) as nat) + "\n\n"@,
        heading("file://"@ + dir.push('/') + name, line, true) == "# "@ + name + ":"@
            + text::decimal((line + 1) as nat) + "  ⏳"@ + "\n\n"@,
{
    law_display_name(dir, name);
    reveal_strlit("");
    let h = "# "@ + name + ":"@ + text::decimal((line + 1) as nat);
    assert(h + ""@ + "\n\n"@ =~= h + "\n\n"@);
}

proof fn lemma_goals_joined(goals: Seq<Seq<char>>, total: nat)
    requires
        goals.len() > 0,
        total > 1,
    ensures
        goal_blocks(goals, total) == text::joined(
            Seq::new(
                goals.len(),
                |i: int|
                    "**goal "@ + text::decimal((i + 1) as nat) + " / "@ + text::decimal(total)
                        + "**\n\n"@ + block(goals[i]),
            ),
            Seq::empty(),
        ),
    decreases goals.len(),
{
    let f = |i: int|
        "**goal "@ + text::decimal((i + 1) as nat) + " / "@ + text::decimal(total) + "**\n\n"@
            + block(goals[i]);
    let parts = Seq::new(goals.len(), f);
    let init = goals.drop_last();
    if goals.len() == 1 {
        assert(goal_blocks(init, total) =~= Seq::empty());
        assert(goal_blocks(goals, total) =~= parts[0]);
    } else {
        lemma_goals_joined(init, total);
        let g = |i: int|
            "**goal "@ + text::decimal((i + 1) as nat) + " / "@ + text::decimal(total) + "**\n\n"@
                + block(init[i]);
        assert(parts.drop_last() =~= Seq::new(init.len(), g));
        assert(parts.last() == f(goals.len() - 1));
        assert(goal_blocks(goals, total) =~= text::joined(parts, Seq::empty()));
    }
}

/// The page shows every goal whole, as a code block and in order: one goal by
/// itself, several each under its number. It says so where all are closed, and
/// where there are none at the cursor.
pub proof fn law_page_shows_goals(pg: JsonView, goals: Seq<Seq<char>>)
    requires
        !(pg is Null),
        goals == texts_in(pg.at("goals"@).items()),
    ensures
        tactic_part(None) == "*No tactic goals at this position.*\n\n"@,
        tactic_part(Some(JsonView::Null)) == "*No tactic goals at this position.*\n\n"@,
        goals.len() == 0 ==> tactic_part(Some(pg)) == "## Goals accomplished 🎉\n\n"@,
        goals.len() == 1 ==> tactic_part(Some(pg)) == "## Tactic state · "@ + text::decimal(1)
            + " goal"@ + "\n\n"@ + block(goals[0]),
        goals.len() > 1 ==> tactic_part(Some(pg)) == "## Tactic state · "@ + text::decimal(
            goals.len(),
        ) + " goal"@ + "s"@ + "\n\n"@ + text::joined(
            Seq::new(
                goals.len(),
                |i: int|
                    "**goal "@ + text::decimal((i + 1) as nat) + " / "@ + text::decimal(
                        goals.len(),
                    ) + "**\n\n"@ + block(goals[i]),
            ),
            Seq::empty(),
        ),
{
    reveal_strlit("");
    if goals.len() == 1 {
        assert(goal_blocks(goals.drop_last(), 1) =~= Seq::empty());
        assert(goal_blocks(goals, 1) =~= block(goals[0]));
        let h = "## Tactic state · "@ + text::decimal(1) + " goal"@;
        assert(h + ""@ =~= h);
    } else if goals.len() > 1 {
        lemma_goals_joined(goals, goals.len());
    }
}

/// The page shows the expected type where the server gave one.
pub proof fn law_page_shows_type(tg: JsonView, t: Seq<char>)
    ensures
        term_part(None) == Seq::<char>::empty(),
        tg.at("goal"@) == JsonView::Text(t) ==> term_part(Some(tg)) == "## Expected type\n\n"@
            + block(t),
        !(tg.at("goal"@) is Text) ==> term_part(Some(tg)) == Seq::<char>::empty(),
{
}

proof fn lemma_messages_joined(ds: Seq<JsonView>)
    requires
        ds.len() > 0,
    ensures
        message_blocks(ds) == text::joined(
            Seq::new(ds.len(), |i: int| message_block(ds[i])),
            Seq::empty(),
        ),
    decreases ds.len(),
{
    let parts = Seq::new(ds.len(), |i: int| message_block(ds[i]));
    let init = ds.drop_last();
    if ds.len() == 1 {
        assert(message_blocks(init) =~= Seq::empty());
        assert(message_blocks(ds) =~= parts[0]);
    } else {
        lemma_messages_joined(init);
        assert(parts.drop_last() =~= Seq::new(init.len(), |i: int| message_block(init[i])));
        assert(parts.last() == message_block(ds[ds.len() - 1]));
        assert(message_blocks(ds) =~= text::joined(parts, Seq::empty()));
    }
}

/// The page shows every message, in order, under one heading; without messages
/// there is none.
pub proof fn law_page_shows_messages(ds: Seq<JsonView>)
    ensures
        ds.len() == 0 ==> messages_part(ds) == Seq::<char>::empty(),
        ds.len() > 0 ==> messages_part(ds) == "## Messages\n\n"@ + text::joined(
            Seq::new(ds.len(), |i: int| message_block(ds[i])),
            Seq::empty(),
        ),
{
    if ds.len() > 0 {
        lemma_messages_joined(ds);
    }
}

/// A message shows its mark, its line counted from one and its text. One that does
/// not say is a remark, on the first line, and empty.
pub proof fn law_message_shown(d: JsonView, line: u64, sev: u64, t: Seq<char>)
    requires
        d.at("range"@).at("start"@).at("line"@) == JsonView::Int(line as int) || (d.at(
            "range"@,
        ).at("start"@).at("line"@).uint() is None && line == 0),
        line < u64::MAX,
        d.at("severity"@) == JsonView::Int(sev as int) || (d.at("severity"@).uint() is None && sev
            == 3),
        d.at("message"@) == JsonView::Text(t) || (!(d.at("message"@) is Text) && t.len() == 0),
    ensures
        message_block(d) == "**"@ + icon(sev) + " line "@ + text::decimal((line + 1) as nat)
            + "**\n\n"@ + block(t),
{
    reveal_strlit("");
    if !(d.at("message"@) is Text) {
        assert(t =~= ""@);
    }
}

/// The goal file is the page, and at its foot the keys of the other views.
pub proof fn law_goal_file(s: StateView)
    ensures
        text::begins(goal_file(s), page(s)),
        goal_file(s).skip(page(s).len() as int)
            == "\n---\n\nLean: infoview window (⌘⌥I) · Lean: goals in terminal (⌘⌥L)\n"@,
{
    assert(goal_file(s).subrange(0, page(s).len() as int) =~= page(s));
    assert(goal_file(s).skip(page(s).len() as int) =~= foot());
}

} // verus!
