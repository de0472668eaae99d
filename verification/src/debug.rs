//! The goal state as a debugger would show it: a program that is always
//! suspended, with one frame at the cursor and the goals as its variables.

use crate::json::{Json, JsonView};
use crate::render;
use crate::text;
use vstd::prelude::*;
use vstd::slice::slice_subrange;
use vstd::string::*;

verus! {

// ------------------------------------------------------------- goal model --

/// A text on one line: its words, one space between each two.
pub open spec fn one_line(s: Seq<char>) -> Seq<char> {
    text::joined(text::words(s), " "@)
}

/// Puts a text on one line.
pub fn single_line(s: &str) -> (r: String)
    ensures
        r@ == one_line(s@),
{
    let chars = text::chars_of(s);
    let ws = text::split_words(chars.as_slice());
    let ghost all = text::texts(ws@);
    let mut out = String::new();
    let mut i: usize = 0;
    while i < ws.len()
        invariant
            i <= ws.len(),
            all == text::texts(ws@),
            out@ == text::joined(all.take(i as int), " "@),
        decreases ws.len() - i,
    {
        let ghost before = out@;
        let word = text::text_of(ws[i].as_slice());
        if i > 0 {
            out.append(" ");
        }
        out.append(word.as_str());
        proof {
            let t = all.take(i + 1);
            assert(t.drop_last() =~= all.take(i as int));
            assert(t.last() == ws@[i as int]@);
            if i == 0 {
                assert(t[0] == ws@[0]@);
                assert(out@ =~= t[0]);
            }
            assert(out@ =~= text::joined(t, " "@));
        }
        i += 1;
    }
    proof {
        assert(all.take(i as int) =~= all);
    }
    out
}

/// A variable of the debug view.
pub struct Var {
    pub name: String,
    pub value: String,
    /// The number under which its children are asked for; 0 for a leaf.
    pub reference: i64,
}

/// What a variable is.
#[verifier::ext_equal]
pub struct VarView {
    pub name: Seq<char>,
    pub value: Seq<char>,
    pub reference: i64,
}

impl View for Var {
    type V = VarView;

    open spec fn view(&self) -> VarView {
        VarView { name: self.name@, value: self.value@, reference: self.reference }
    }
}

/// What a list of variables is.
pub open spec fn vars(v: Seq<Var>) -> Seq<VarView> {
    v.map_values(|x: Var| x@)
}

/// A variable without children.
pub open spec fn leaf(name: Seq<char>, value: Seq<char>) -> VarView {
    VarView { name, value, reference: 0 }
}

/// The variables of a goal once one more of its lines is read: the name of the
/// case, the target, a hypothesis, or the continuation of the variable before.
pub open spec fn goal_step(acc: Seq<VarView>, line: Seq<char>) -> Seq<VarView> {
    let t = text::trimmed_end(line);
    if t.len() == 0 {
        acc
    } else if text::begins(t, "case "@) {
        acc.push(leaf("case"@, t.skip("case "@.len() as int)))
    } else if text::begins(t, "⊢"@) {
        acc.push(leaf("⊢"@, text::trimmed(t.skip("⊢"@.len() as int))))
    } else if !text::begins(line, " "@) && text::occurs(t, " : "@) {
        let i = text::first_at(t, " : "@, 0);
        acc.push(leaf(t.take(i), t.skip(i + " : "@.len())))
    } else if acc.len() > 0 {
        acc.drop_last().push(
            VarView {
                value: acc.last().value + " "@ + text::trimmed_start(t),
                ..acc.last()
            },
        )
    } else {
        acc
    }
}

/// The variables of a goal, line by line.
pub open spec fn goal_vars(ls: Seq<Seq<char>>) -> Seq<VarView>
    decreases ls.len(),
{
    if ls.len() == 0 {
        Seq::empty()
    } else {
        goal_step(goal_vars(ls.drop_last()), ls.last())
    }
}

/// The rest of a text behind a prefix of the given length, as a string.
fn behind(t: &[char], n: usize) -> (r: String)
    requires
        n <= t.len(),
    ensures
        r@ == t@.skip(n as int),
{
    proof {
        assert(t@.subrange(n as int, t@.len() as int) =~= t@.skip(n as int));
    }
    text::text_of(slice_subrange(t, n, t.len()))
}

fn push_var(out: &mut Vec<Var>, v: Var)
    ensures
        vars(final(out)@) == vars(old(out)@).push(v@),
{
    let ghost before = out@;
    out.push(v);
    proof {
        assert(vars(out@) =~= vars(before).push(v@));
    }
}

fn read_goal_line(out: &mut Vec<Var>, line: &[char])
    ensures
        vars(final(out)@) == goal_step(vars(old(out)@), line@),
{
    let t = text::trim_end(line);
    if t.len() == 0 {
        return;
    }
    let case = text::chars_of("case ");
    let turnstile = text::chars_of("⊢");
    let space = text::chars_of(" ");
    let colon = text::chars_of(" : ");
    proof {
        reveal_strlit(" : ");
    }
    if text::starts_with(t, case.as_slice()) {
        let value = behind(t, case.len());
        push_var(out, Var { name: "case".to_owned(), value, reference: 0 });
        return;
    }
    if text::starts_with(t, turnstile.as_slice()) {
        proof {
            assert(t@.subrange(turnstile@.len() as int, t@.len() as int) =~= t@.skip(
                turnstile@.len() as int,
            ));
        }
        let goal = text::trim(slice_subrange(t, turnstile.len(), t.len()));
        push_var(out, Var { name: "⊢".to_owned(), value: text::text_of(goal), reference: 0 });
        return;
    }
    if !text::starts_with(line, space.as_slice()) {
        if let Some(i) = text::find(t, colon.as_slice()) {
            proof {
                assert(t@.subrange(0, i as int) =~= t@.take(i as int));
                assert(text::occurs_at(t@, " : "@, i as int));
                assert(text::occurs(t@, " : "@));
            }
            let name = text::text_of(slice_subrange(t, 0, i));
            let value = behind(t, i + colon.len());
            push_var(out, Var { name, value, reference: 0 });
            return;
        }
    }
    let ghost before = out@;
    match out.pop() {
        Some(last) => {
            let rest = text::text_of(text::trim_start(t));
            let mut value = last.value;
            value.append(" ");
            value.append(rest.as_str());
            proof {
                assert(vars(out@) =~= vars(before).drop_last());
                assert(vars(before).last() == before.last()@);
                assert(value@ =~= before.last().value@ + " "@ + text::trimmed_start(t@));
            }
            push_var(out, Var { name: last.name, value, reference: last.reference });
        },
        None => {},
    }
}

/// Reads one goal as the server prints it: the name of the case, a hypothesis
/// per line, and the target behind the turnstile. A line that is none of these
/// continues the one before it.
pub fn parse_goal(block: &str) -> (r: Vec<Var>)
    ensures
        vars(r@) == goal_vars(text::lines(block@)),
{
    let chars = text::chars_of(block);
    let ls = text::split_lines(chars.as_slice());
    let ghost all = text::texts(ls@);
    let mut out: Vec<Var> = Vec::new();
    let mut i: usize = 0;
    proof {
        assert(vars(out@) =~= goal_vars(all.take(0)));
    }
    while i < ls.len()
        invariant
            i <= ls.len(),
            all == text::texts(ls@),
            vars(out@) == goal_vars(all.take(i as int)),
        decreases ls.len() - i,
    {
        read_goal_line(&mut out, ls[i].as_slice());
        proof {
            let t = all.take(i + 1);
            assert(t.drop_last() =~= all.take(i as int));
            assert(t.last() == ls@[i as int]@);
        }
        i += 1;
    }
    proof {
        assert(all.take(i as int) =~= all);
    }
    out
}

/// What the debug view shows.
pub struct Model {
    /// Full path of the cursor's file, for the source of the frame.
    pub path: String,
    pub file: String,
    pub line: i64,
    /// The top level of the tactic state.
    pub root: Vec<Var>,
    /// The variables of each goal.
    pub goals: Vec<Vec<Var>>,
    pub messages: Vec<Var>,
}

/// What a model is.
#[verifier::ext_equal]
pub struct ModelView {
    pub path: Seq<char>,
    pub file: Seq<char>,
    pub line: i64,
    pub root: Seq<VarView>,
    pub goals: Seq<Seq<VarView>>,
    pub messages: Seq<VarView>,
}

/// What the variables of several goals are.
pub open spec fn var_lists(v: Seq<Vec<Var>>) -> Seq<Seq<VarView>> {
    v.map_values(|x: Vec<Var>| vars(x@))
}

impl View for Model {
    type V = ModelView;

    open spec fn view(&self) -> ModelView {
        ModelView {
            path: self.path@,
            file: self.file@,
            line: self.line,
            root: vars(self.root@),
            goals: var_lists(self.goals@),
            messages: vars(self.messages@),
        }
    }
}

/// The number under which the tactic state is asked for.
pub const REF_TACTIC: i64 = 1;

/// The number under which the messages are asked for.
pub const REF_MESSAGES: i64 = 2;

/// The number under which the first goal is asked for.
pub const REF_GOALS: i64 = 100;

/// The number under which goal `i` is asked for; a goal so far down the list
/// that it has none is a leaf.
pub open spec fn goal_ref(i: int) -> i64 {
    if i <= i64::MAX - REF_GOALS {
        (REF_GOALS + i) as i64
    } else {
        0
    }
}

/// The target among the variables of a goal; empty where there is none.
pub open spec fn target(vs: Seq<VarView>) -> Seq<char>
    decreases vs.len(),
{
    if vs.len() == 0 {
        Seq::empty()
    } else if vs[0].name == "⊢"@ {
        vs[0].value
    } else {
        target(vs.skip(1))
    }
}

/// Goal `i` of `total` at the top level.
pub open spec fn goal_var(goal: Seq<char>, i: int, total: nat) -> VarView {
    VarView {
        name: if total == 1 {
            "goal"@
        } else {
            "goal "@ + text::decimal((i + 1) as nat)
        },
        value: "⊢ "@ + one_line(target(goal_vars(text::lines(goal)))),
        reference: goal_ref(i),
    }
}

/// What the top level says where there are no goals.
pub open spec fn no_goals(busy: bool) -> VarView {
    leaf(
        "state"@,
        if busy {
            "⏳ elaborating…"@
        } else {
            "no goals at this position"@
        },
    )
}

/// The expected type at the top level, where one is known.
pub open spec fn term_vars(term: JsonView) -> Seq<VarView> {
    match term.text() {
        Some(t) => seq![
            leaf("expected type"@, one_line(text::trimmed(text::without_start(t, '⊢')))),
        ],
        None => Seq::empty(),
    }
}

/// The top level of the tactic state.
pub open spec fn root_vars(snap: JsonView) -> Seq<VarView> {
    let goals = render::texts_in(snap.at("goals"@).items());
    (if goals.len() == 0 {
        seq![no_goals(snap.at("busy"@).truth())]
    } else {
        Seq::new(goals.len(), |i: int| goal_var(goals[i], i, goals.len()))
    }) + term_vars(snap.at("termGoal"@))
}

/// One message: its severity and line, and its text on one line.
pub open spec fn message_var(m: JsonView) -> VarView {
    leaf(
        render::icon(m.at("severity"@).uint_or(3)) + " line "@ + text::decimal(
            m.at("line"@).uint_or(0) as nat,
        ),
        one_line(m.at("text"@).text_or(""@)),
    )
}

/// The model that a snapshot of the goal state gives.
pub open spec fn model_of(snap: JsonView) -> ModelView {
    let goals = render::texts_in(snap.at("goals"@).items());
    let line = snap.at("line"@).sint_or(1);
    ModelView {
        path: snap.at("path"@).text_or(""@),
        file: snap.at("file"@).text_or(""@),
        line: if line < 1 {
            1
        } else {
            line
        },
        root: root_vars(snap),
        goals: goals.map_values(|g: Seq<char>| goal_vars(text::lines(g))),
        messages: snap.at("messages"@).items().map_values(|m: JsonView| message_var(m)),
    }
}

/// The children that a number asks for.
pub open spec fn children_of(m: ModelView, reference: i64) -> Seq<VarView> {
    if reference == REF_TACTIC {
        m.root
    } else if reference == REF_MESSAGES {
        m.messages
    } else if REF_GOALS <= reference < REF_GOALS + m.goals.len() {
        m.goals[reference - REF_GOALS]
    } else {
        Seq::empty()
    }
}

fn find_target(vs: &Vec<Var>) -> (r: String)
    ensures
        r@ == target(vars(vs@)),
{
    let ghost all = vars(vs@);
    let mut i: usize = 0;
    proof {
        assert(all.skip(0) =~= all);
    }
    while i < vs.len()
        invariant
            i <= vs.len(),
            all == vars(vs@),
            target(all) == target(all.skip(i as int)),
        decreases vs.len() - i,
    {
        proof {
            let t = all.skip(i as int);
            assert(t[0] == vs@[i as int]@);
            assert(t.skip(1) =~= all.skip(i + 1));
        }
        if text::same_text(vs[i].name.as_str(), "⊢") {
            return vs[i].value.clone();
        }
        i += 1;
    }
    String::new()
}

fn goal_reference(i: usize) -> (r: i64)
    ensures
        r == goal_ref(i as int),
{
    if i as u64 <= (i64::MAX - REF_GOALS) as u64 {
        REF_GOALS + i as i64
    } else {
        0
    }
}

fn top_goal(children: &Vec<Var>, i: usize, total: usize) -> (r: Var)
    requires
        i < total,
    ensures
        forall|goal: Seq<char>|
            vars(children@) == goal_vars(text::lines(goal)) ==> r@ == #[trigger] goal_var(
                goal,
                i as int,
                total as nat,
            ),
{
    let mut name = String::new();
    if total == 1 {
        name.append("goal");
        proof {
            assert(name@ =~= "goal"@);
        }
    } else {
        name.append("goal ");
        text::push_decimal(&mut name, i as u64 + 1);
        proof {
            assert(name@ =~= "goal "@ + text::decimal((i + 1) as nat));
        }
    }
    let found = find_target(children);
    let line = single_line(found.as_str());
    let mut value = String::new();
    value.append("⊢ ");
    value.append(line.as_str());
    proof {
        assert(value@ =~= "⊢ "@ + line@);
    }
    Var { name, value, reference: goal_reference(i) }
}

fn message_vars(list: &Json) -> (r: Vec<Var>)
    ensures
        vars(r@) == list@.items().map_values(|m: JsonView| message_var(m)),
{
    let n = list.count();
    let ghost all = list@.items().map_values(|m: JsonView| message_var(m));
    let mut out: Vec<Var> = Vec::new();
    let mut i: usize = 0;
    proof {
        assert(vars(out@) =~= all.take(0));
    }
    while i < n
        invariant
            i <= n,
            n == all.len(),
            all == list@.items().map_values(|m: JsonView| message_var(m)),
            vars(out@) == all.take(i as int),
        decreases n - i,
    {
        let m = list.item(i);
        let mut name = String::new();
        name.append(render::severity_icon(m.at("severity").u64_or(3)));
        name.append(" line ");
        text::push_decimal(&mut name, m.at("line").u64_or(0));
        let value = single_line(m.at("text").str_or(""));
        let v = Var { name, value, reference: 0 };
        proof {
            assert(name@ =~= message_var(m@).name);
            assert(v@ =~= message_var(m@));
            assert(all.take(i + 1) =~= all.take(i as int).push(all[i as int]));
        }
        push_var(&mut out, v);
        i += 1;
    }
    proof {
        assert(all.take(i as int) =~= all);
    }
    out
}

fn add_term(root: &mut Vec<Var>, term: &Json)
    ensures
        vars(final(root)@) == vars(old(root)@) + term_vars(term@),
{
    if let Some(t) = term.as_str() {
        let chars = text::chars_of(t);
        let shown = text::text_of(text::trim(text::strip_start(chars.as_slice(), '⊢')));
        let v = Var {
            name: "expected type".to_owned(),
            value: single_line(shown.as_str()),
            reference: 0,
        };
        push_var(root, v);
    }
    proof {
        assert(vars(root@) =~= vars(old(root)@) + term_vars(term@));
    }
}

/// Fills the model with a snapshot of the goal state.
pub fn rebuild(model: &mut Model, snap: &Json)
    ensures
        final(model)@ == model_of(snap@),
{
    let texts = render::texts_of(snap.at("goals"));
    let ghost goals = render::texts_in(snap@.at("goals"@).items());
    let total = texts.len();
    let mut root: Vec<Var> = Vec::new();
    let mut lists: Vec<Vec<Var>> = Vec::new();
    let ghost top = Seq::new(goals.len(), |i: int| goal_var(goals[i], i, goals.len()));
    let ghost inner = goals.map_values(|g: Seq<char>| goal_vars(text::lines(g)));
    if total == 0 {
        let value = if snap.at("busy").truth() {
            "⏳ elaborating…".to_owned()
        } else {
            "no goals at this position".to_owned()
        };
        push_var(&mut root, Var { name: "state".to_owned(), value, reference: 0 });
        proof {
            assert(vars(root@) =~= seq![no_goals(snap@.at("busy"@).truth())]);
            assert(var_lists(lists@) =~= inner);
        }
    } else {
        let mut i: usize = 0;
        proof {
            assert(vars(root@) =~= top.take(0));
            assert(var_lists(lists@) =~= inner.take(0));
        }
        while i < total
            invariant
                i <= total,
                total == texts.len(),
                goals == text::strings(texts@),
                top == Seq::new(goals.len(), |i: int| goal_var(goals[i], i, goals.len())),
                inner == goals.map_values(|g: Seq<char>| goal_vars(text::lines(g))),
                vars(root@) == top.take(i as int),
                var_lists(lists@) == inner.take(i as int),
            decreases total - i,
        {
            let children = parse_goal(texts[i].as_str());
            let v = top_goal(&children, i, total);
            proof {
                assert(goals[i as int] == texts@[i as int]@);
                assert(v@ == goal_var(goals[i as int], i as int, total as nat));
                assert(top.take(i + 1) =~= top.take(i as int).push(top[i as int]));
                assert(inner.take(i + 1) =~= inner.take(i as int).push(inner[i as int]));
            }
            push_var(&mut root, v);
            let ghost before = lists@;
            lists.push(children);
            proof {
                assert(var_lists(lists@) =~= var_lists(before).push(vars(children@)));
            }
            i += 1;
        }
        proof {
            assert(top.take(i as int) =~= top);
            assert(inner.take(i as int) =~= inner);
        }
    }
    add_term(&mut root, snap.at("termGoal"));
    let line = snap.at("line").i64_or(1);
    model.path = snap.at("path").str_or("").to_owned();
    model.file = snap.at("file").str_or("").to_owned();
    model.line = if line < 1 {
        1
    } else {
        line
    };
    model.root = root;
    model.goals = lists;
    model.messages = message_vars(snap.at("messages"));
    proof {
        assert(model@ =~= model_of(snap@));
    }
}

impl Model {
    /// A model before any snapshot.
    pub fn new() -> (r: Model)
        ensures
            r@ == (ModelView {
                path: Seq::empty(),
                file: Seq::empty(),
                line: 0,
                root: Seq::empty(),
                goals: Seq::empty(),
                messages: Seq::empty(),
            }),
    {
        let r = Model {
            path: String::new(),
            file: String::new(),
            line: 0,
            root: Vec::new(),
            goals: Vec::new(),
            messages: Vec::new(),
        };
        proof {
            assert(vars(r.root@) =~= Seq::<VarView>::empty());
            assert(vars(r.messages@) =~= Seq::<VarView>::empty());
            assert(var_lists(r.goals@) =~= Seq::<Seq<VarView>>::empty());
        }
        r
    }

    /// The children that a number asks for; `None` where it stands for none.
    pub fn children(&self, reference: i64) -> (r: Option<&Vec<Var>>)
        ensures
            match r {
                Some(vs) => vars(vs@) == children_of(self@, reference),
                None => children_of(self@, reference) == Seq::<VarView>::empty(),
            },
    {
        if reference == REF_TACTIC {
            Some(&self.root)
        } else if reference == REF_MESSAGES {
            Some(&self.messages)
        } else if reference >= REF_GOALS && ((reference - REF_GOALS) as u64) < self.goals.len()
            as u64 {
            let i: usize = (reference - REF_GOALS) as usize;
            proof {
                assert(self@.goals[i as int] == vars(self.goals@[i as int]@));
            }
            Some(&self.goals[i])
        } else {
            None
        }
    }
}

// ------------------------------------------------------------------- laws --

proof fn lemma_joined_spaces(ws: Seq<Seq<char>>)
    requires
        forall|i: int| 0 <= i < ws.len() ==> text::is_word(#[trigger] ws[i]),
    ensures
        forall|i: int|
            0 <= i < text::joined(ws, " "@).len() && text::is_space(
                #[trigger] text::joined(ws, " "@)[i],
            ) ==> text::joined(ws, " "@)[i] == ' ',
    decreases ws.len(),
{
    reveal_strlit(" ");
    if ws.len() == 1 {
        assert(text::is_word(ws[0]));
    } else if ws.len() > 1 {
        let init = ws.drop_last();
        let last = ws.last();
        assert(last == ws[ws.len() - 1]);
        assert forall|i: int| 0 <= i < init.len() implies text::is_word(#[trigger] init[i]) by {
            assert(init[i] == ws[i]);
        }
        lemma_joined_spaces(init);
        let head = text::joined(init, " "@);
        let all = text::joined(ws, " "@);
        assert forall|i: int|
            0 <= i < all.len() && text::is_space(#[trigger] all[i]) implies all[i] == ' ' by {
            if i < head.len() {
                assert(all[i] == head[i]);
            } else if i > head.len() {
                assert(all[i] == last[i - head.len() - 1]);
            }
        }
    }
}

/// A text on one line has the words it had, and no white space but spaces; it
/// stays as it is when it is put on one line again.
pub proof fn law_one_line(s: Seq<char>)
    ensures
        text::words(one_line(s)) == text::words(s),
        forall|i: int|
            0 <= i < one_line(s).len() && text::is_space(#[trigger] one_line(s)[i])
                ==> one_line(s)[i] == ' ',
        one_line(one_line(s)) == one_line(s),
{
    text::law_words_are_words(s);
    text::law_words_of_joined(text::words(s));
    lemma_joined_spaces(text::words(s));
}

/// A hypothesis as the server prints it.
pub open spec fn hypothesis(name: Seq<char>, ty: Seq<char>) -> Seq<char> {
    name + " : "@ + ty
}

/// The lines of a goal as the server prints it.
pub open spec fn printed(
    case: Option<Seq<char>>,
    hyps: Seq<(Seq<char>, Seq<char>)>,
    goal: Seq<char>,
) -> Seq<Seq<char>> {
    (match case {
        Some(c) => seq!["case "@ + c],
        None => Seq::empty(),
    }) + hyps.map_values(|h: (Seq<char>, Seq<char>)| hypothesis(h.0, h.1)) + seq!["⊢ "@ + goal]
}

/// A text that one line can end with: not empty, no line feed in it and no white
/// space at its end.
pub open spec fn is_tail(t: Seq<char>) -> bool {
    &&& t.len() > 0
    &&& !text::is_space(t.last())
    &&& forall|i: int| 0 <= i < t.len() ==> #[trigger] t[i] != '\n'
}

/// The name of a hypothesis: one that is not taken for another kind of line.
pub open spec fn is_name(n: Seq<char>) -> bool {
    &&& n.len() > 0
    &&& n[0] != ' '
    &&& n[0] != '⊢'
    &&& !text::begins(n + " "@, "case "@)
    &&& forall|i: int| 0 <= i < n.len() ==> #[trigger] n[i] != ':' && n[i] != '\n'
}

/// Hypotheses of which each has a name and a type that one line can hold.
pub open spec fn is_context(hyps: Seq<(Seq<char>, Seq<char>)>) -> bool {
    forall|i: int| 0 <= i < hyps.len() ==> is_name(#[trigger] hyps[i].0) && is_tail(hyps[i].1)
}

proof fn lemma_tail_end(t: Seq<char>, front: Seq<char>)
    requires
        is_tail(t),
    ensures
        text::trimmed_end(front + t) == front + t,
{
    assert((front + t).last() == t.last());
}

proof fn lemma_case_line(acc: Seq<VarView>, c: Seq<char>)
    requires
        is_tail(c),
    ensures
        goal_step(acc, "case "@ + c) == acc.push(leaf("case"@, c)),
        text::is_line("case "@ + c),
{
    reveal_strlit("case ");
    let l = "case "@ + c;
    lemma_tail_end(c, "case "@);
    assert(l.subrange(0, 5) =~= "case "@);
    assert(l.skip(5) =~= c);
    assert forall|i: int| 0 <= i < l.len() implies #[trigger] l[i] != '\n' by {
        if i >= 5 {
            assert(l[i] == c[i - 5]);
        }
    }
    assert(l.last() == c.last());
}

proof fn lemma_goal_line(acc: Seq<VarView>, g: Seq<char>)
    requires
        is_tail(g),
        !text::is_space(g[0]),
    ensures
        goal_step(acc, "⊢ "@ + g) == acc.push(leaf("⊢"@, g)),
        text::is_line("⊢ "@ + g),
        ("⊢ "@ + g).len() > 0,
{
    reveal_strlit("⊢ ");
    reveal_strlit("⊢");
    reveal_strlit("case ");
    let l = "⊢ "@ + g;
    lemma_tail_end(g, "⊢ "@);
    assert(l[0] == '⊢');
    if text::begins(l, "case "@) {
        assert(l.subrange(0, 5)[0] == l[0]);
    }
    assert(l.subrange(0, 1) =~= "⊢"@);
    let rest = l.skip(1);
    assert(rest[0] == ' ');
    assert(rest.skip(1) =~= g);
    reveal_with_fuel(text::trimmed_start, 2);
    assert(text::trimmed_start(rest) == g);
    assert(text::trimmed_end(g) == g);
    assert forall|i: int| 0 <= i < l.len() implies #[trigger] l[i] != '\n' by {
        if i >= 2 {
            assert(l[i] == g[i - 2]);
        }
    }
    assert(l.last() == g.last());
}

proof fn lemma_first_colon(n: Seq<char>, t: Seq<char>, from: int)
    requires
        0 <= from <= n.len(),
        forall|i: int| 0 <= i < n.len() ==> #[trigger] n[i] != ':',
    ensures
        text::first_at(hypothesis(n, t), " : "@, from) == n.len(),
        text::occurs_at(hypothesis(n, t), " : "@, n.len() as int),
    decreases n.len() - from,
{
    reveal_strlit(" : ");
    let l = hypothesis(n, t);
    assert(l.subrange(n.len() as int, n.len() as int + 3) =~= " : "@);
    if from < n.len() {
        if text::occurs_at(l, " : "@, from) {
            assert(l.subrange(from, from + 3)[1] == l[from + 1]);
            assert(" : "@[1] == ':');
            if from + 1 < n.len() {
                assert(l[from + 1] == n[from + 1]);
            } else {
                assert(l[from + 1] == " : "@[0]);
            }
        }
        lemma_first_colon(n, t, from + 1);
    }
}

proof fn lemma_no_case(n: Seq<char>, t: Seq<char>)
    requires
        is_name(n),
    ensures
        !text::begins(hypothesis(n, t), "case "@),
{
    reveal_strlit(" : ");
    reveal_strlit("case ");
    reveal_strlit(" ");
    let l = hypothesis(n, t);
    if text::begins(l, "case "@) {
        let m = n + " "@;
        if n.len() < 4 {
            // The colon of the line would stand inside the prefix.
            assert(l.subrange(0, 5)[n.len() as int + 1] == l[n.len() as int + 1]);
            assert(l[n.len() as int + 1] == ':');
        }
        assert forall|i: int| 0 <= i < 5 implies #[trigger] m[i] == "case "@[i] by {
            assert(l.subrange(0, 5)[i] == l[i]);
        }
        assert(m.subrange(0, 5) =~= "case "@);
        assert(text::begins(m, "case "@));
    }
}

proof fn lemma_hypothesis_is_line(n: Seq<char>, t: Seq<char>)
    requires
        is_name(n),
        is_tail(t),
    ensures
        text::is_line(hypothesis(n, t)),
{
    reveal_strlit(" : ");
    let l = hypothesis(n, t);
    assert forall|i: int| 0 <= i < l.len() implies #[trigger] l[i] != '\n' by {
        if i < n.len() {
            assert(l[i] == n[i]);
        } else if i >= n.len() + 3 {
            assert(l[i] == t[i - n.len() - 3]);
        }
    }
    assert(l.last() == t.last());
}

proof fn lemma_hypothesis_line(acc: Seq<VarView>, n: Seq<char>, t: Seq<char>)
    requires
        is_name(n),
        is_tail(t),
    ensures
        goal_step(acc, hypothesis(n, t)) == acc.push(leaf(n, t)),
{
    let l = hypothesis(n, t);
    assert(text::trimmed_end(l) == l) by {
        lemma_tail_end(t, n + " : "@);
    }
    lemma_no_case(n, t);
    assert(!text::begins(l, "⊢"@)) by {
        reveal_strlit("⊢");
        assert(l[0] == n[0]);
        if text::begins(l, "⊢"@) {
            assert(l.subrange(0, 1)[0] == l[0]);
        }
    }
    assert(!text::begins(l, " "@)) by {
        reveal_strlit(" ");
        assert(l[0] == n[0]);
        if text::begins(l, " "@) {
            assert(l.subrange(0, 1)[0] == l[0]);
        }
    }
    lemma_first_colon(n, t, 0);
    assert(text::occurs(l, " : "@));
    assert(" : "@.len() == 3) by {
        reveal_strlit(" : ");
    }
    assert(l.take(n.len() as int) =~= n);
    assert(l.skip(n.len() as int + 3) =~= t);
}

proof fn lemma_hypotheses(acc: Seq<VarView>, front: Seq<Seq<char>>, hyps: Seq<(Seq<char>, Seq<char>)>)
    requires
        acc == goal_vars(front),
        is_context(hyps),
    ensures
        goal_vars(
            front + hyps.map_values(|h: (Seq<char>, Seq<char>)| hypothesis(h.0, h.1)),
        ) == acc + hyps.map_values(|h: (Seq<char>, Seq<char>)| leaf(h.0, h.1)),
    decreases hyps.len(),
{
    let f = |h: (Seq<char>, Seq<char>)| hypothesis(h.0, h.1);
    let g = |h: (Seq<char>, Seq<char>)| leaf(h.0, h.1);
    if hyps.len() == 0 {
        assert(front + hyps.map_values(f) =~= front);
        assert(acc + hyps.map_values(g) =~= acc);
    } else {
        let init = hyps.drop_last();
        let last = hyps[hyps.len() - 1];
        assert forall|i: int| 0 <= i < init.len() implies is_name(#[trigger] init[i].0) && is_tail(
            init[i].1,
        ) by {
            assert(init[i] == hyps[i]);
        }
        lemma_hypotheses(acc, front, init);
        assert(is_name(hyps[hyps.len() - 1].0));
        let all = front + hyps.map_values(f);
        assert(all.drop_last() =~= front + init.map_values(f));
        assert(all.last() == hypothesis(last.0, last.1));
        lemma_hypothesis_line(acc + init.map_values(g), last.0, last.1);
        assert((acc + init.map_values(g)).push(leaf(last.0, last.1)) =~= acc + hyps.map_values(g));
    }
}

/// A goal as the server prints it is read back: its case, its hypotheses in
/// order, and its target.
pub proof fn law_goal_read_back(
    case: Option<Seq<char>>,
    hyps: Seq<(Seq<char>, Seq<char>)>,
    goal: Seq<char>,
)
    requires
        case matches Some(c) ==> is_tail(c),
        is_context(hyps),
        is_tail(goal),
        !text::is_space(goal[0]),
    ensures
        goal_vars(text::lines(text::joined(printed(case, hyps, goal), "\n"@))) == (match case {
            Some(c) => seq![leaf("case"@, c)],
            None => Seq::empty(),
        }) + hyps.map_values(|h: (Seq<char>, Seq<char>)| leaf(h.0, h.1)) + seq![leaf("⊢"@, goal)],
{
    let f = |h: (Seq<char>, Seq<char>)| hypothesis(h.0, h.1);
    let g = |h: (Seq<char>, Seq<char>)| leaf(h.0, h.1);
    let front: Seq<Seq<char>> = match case {
        Some(c) => seq!["case "@ + c],
        None => Seq::empty(),
    };
    let acc: Seq<VarView> = match case {
        Some(c) => seq![leaf("case"@, c)],
        None => Seq::empty(),
    };
    let ls = printed(case, hyps, goal);
    if let Some(c) = case {
        lemma_case_line(Seq::empty(), c);
        assert(front.drop_last() =~= Seq::empty());
        assert(goal_vars(front.drop_last()) =~= Seq::empty());
        assert(goal_vars(front) =~= acc);
    }
    lemma_hypotheses(acc, front, hyps);
    lemma_goal_line(acc + hyps.map_values(g), goal);
    assert(ls.drop_last() =~= front + hyps.map_values(f));
    assert(ls.last() == "⊢ "@ + goal);
    assert(goal_vars(ls) =~= acc + hyps.map_values(g) + seq![leaf("⊢"@, goal)]);
    assert forall|i: int| 0 <= i < ls.len() implies text::is_line(#[trigger] ls[i]) by {
        if i < front.len() {
            assert(ls[i] == front[i]);
        } else if i < front.len() + hyps.len() {
            let k = i - front.len();
            assert(is_name(hyps[k].0));
            lemma_hypothesis_is_line(hyps[k].0, hyps[k].1);
            assert(ls[i] == hypothesis(hyps[k].0, hyps[k].1));
        } else {
            assert(ls[i] == "⊢ "@ + goal);
        }
    }
    text::law_lines_of_joined(ls);
}

/// An indented line continues the variable before it, one space between.
pub proof fn law_wrapped_line(acc: Seq<VarView>, line: Seq<char>)
    requires
        acc.len() > 0,
        text::begins(line, " "@),
        text::trimmed_end(line).len() > 0,
    ensures
        goal_step(acc, line) == acc.drop_last().push(
            VarView {
                value: acc.last().value + " "@ + text::trimmed_start(text::trimmed_end(line)),
                ..acc.last()
            },
        ),
{
    reveal_strlit(" ");
    reveal_strlit("case ");
    reveal_strlit("⊢");
    let t = text::trimmed_end(line);
    lemma_trimmed_end_front(line);
    assert(line.subrange(0, 1)[0] == line[0]);
    assert(t[0] == ' ');
    if text::begins(t, "case "@) {
        assert(t.subrange(0, 5)[0] == t[0]);
    }
    if text::begins(t, "⊢"@) {
        assert(t.subrange(0, 1)[0] == t[0]);
    }
}

proof fn lemma_trimmed_end_front(s: Seq<char>)
    ensures
        text::trimmed_end(s).len() <= s.len(),
        text::trimmed_end(s) == s.take(text::trimmed_end(s).len() as int),
    decreases s.len(),
{
    if s.len() > 0 && text::is_space(s.last()) {
        lemma_trimmed_end_front(s.drop_last());
        let n = text::trimmed_end(s).len() as int;
        assert(s.drop_last().take(n) =~= s.take(n));
    } else {
        assert(s.take(s.len() as int) =~= s);
    }
}

/// The number of a goal at the top level asks for the variables of that goal.
pub proof fn law_goal_children(snap: JsonView, i: int)
    requires
        0 <= i < model_of(snap).goals.len(),
        model_of(snap).goals.len() <= i64::MAX - REF_GOALS,
    ensures
        children_of(model_of(snap), model_of(snap).root[i].reference) == model_of(snap).goals[i],
        model_of(snap).root[i].reference != 0,
{
}

/// The numbers of the scopes ask for the top level and for the messages.
pub proof fn law_scope_children(snap: JsonView)
    ensures
        children_of(model_of(snap), REF_TACTIC) == root_vars(snap),
        children_of(model_of(snap), REF_MESSAGES).len() == snap.at("messages"@).items().len(),
        children_of(model_of(snap), 0).len() == 0,
{
}

proof fn lemma_joined_tight(ws: Seq<Seq<char>>)
    requires
        forall|i: int| 0 <= i < ws.len() ==> text::is_word(#[trigger] ws[i]),
    ensures
        ({
            let t = text::joined(ws, " "@);
            &&& ws.len() > 0 ==> t.len() > 0 && t[0] != ' ' && t.last() != ' '
            &&& forall|i: int| 0 <= i < t.len() - 1 && #[trigger] t[i] == ' ' ==> t[i + 1] != ' '
        }),
    decreases ws.len(),
{
    reveal_strlit(" ");
    if ws.len() == 1 {
        assert(text::is_word(ws[0]));
        let t = ws[0];
        assert(!text::is_space(t[0]) && !text::is_space(t[t.len() - 1]));
        assert forall|i: int| 0 <= i < t.len() - 1 && #[trigger] t[i] == ' ' implies t[i + 1]
            != ' ' by {
            assert(!text::is_space(t[i]));
        }
    } else if ws.len() > 1 {
        let init = ws.drop_last();
        let last = ws.last();
        assert(last == ws[ws.len() - 1]);
        assert(text::is_word(ws[ws.len() - 1]));
        assert forall|i: int| 0 <= i < init.len() implies text::is_word(#[trigger] init[i]) by {
            assert(init[i] == ws[i]);
        }
        lemma_joined_tight(init);
        let h = text::joined(init, " "@);
        let t = text::joined(ws, " "@);
        assert(!text::is_space(last[0]) && !text::is_space(last[last.len() - 1]));
        assert(t[0] == h[0]);
        assert(t.last() == last.last());
        assert forall|i: int| 0 <= i < t.len() - 1 && #[trigger] t[i] == ' ' implies t[i + 1]
            != ' ' by {
            if i < h.len() - 1 {
                assert(t[i] == h[i] && t[i + 1] == h[i + 1]);
            } else if i == h.len() - 1 {
                assert(t[i] == h.last());
            } else if i == h.len() {
                assert(t[i + 1] == last[0]);
            } else {
                assert(t[i] == last[i - h.len() - 1]);
                assert(!text::is_space(last[i - h.len() - 1]));
            }
        }
    }
}

/// A text on one line has no space at its ends and no two in a row; a text that is
/// already so stays as it is.
pub proof fn law_one_line_tight(s: Seq<char>)
    ensures
        one_line(s).len() > 0 ==> one_line(s)[0] != ' ' && one_line(s).last() != ' ',
        forall|i: int|
            0 <= i < one_line(s).len() - 1 && #[trigger] one_line(s)[i] == ' ' ==> one_line(s)[i
                + 1] != ' ',
        one_line(s).len() == 0 <==> text::words(s).len() == 0,
{
    text::law_words_are_words(s);
    lemma_joined_tight(text::words(s));
}

/// The target of a goal is the value of its first variable of that name, and empty
/// where there is none.
pub proof fn law_target(front: Seq<VarView>, goal: Seq<char>, behind: Seq<VarView>)
    requires
        forall|i: int| 0 <= i < front.len() ==> (#[trigger] front[i]).name != "⊢"@,
    ensures
        target(front + seq![leaf("⊢"@, goal)] + behind) == goal,
        target(front) == Seq::<char>::empty(),
    decreases front.len(),
{
    let all = front + seq![leaf("⊢"@, goal)] + behind;
    if front.len() == 0 {
        assert(all[0] == leaf("⊢"@, goal));
    } else {
        assert(all[0] == front[0]);
        let t = front.skip(1);
        assert(all.skip(1) =~= t + seq![leaf("⊢"@, goal)] + behind);
        assert forall|i: int| 0 <= i < t.len() implies (#[trigger] t[i]).name != "⊢"@ by {
            assert(t[i] == front[i + 1]);
        }
        law_target(t, goal, behind);
    }
}

/// How many lines name the case.
pub open spec fn labels(case: Option<Seq<char>>) -> int {
    if case is Some {
        1
    } else {
        0
    }
}

/// A goal stands at the top level under its number, or as the goal where it is the
/// only one, with its target on one line; opened, it shows its case, its
/// hypotheses in order and its target, each with its text.
pub proof fn law_goal_row(
    snap: JsonView,
    i: int,
    case: Option<Seq<char>>,
    hyps: Seq<(Seq<char>, Seq<char>)>,
    goal: Seq<char>,
)
    requires
        case matches Some(c) ==> is_tail(c),
        is_context(hyps),
        is_tail(goal),
        !text::is_space(goal[0]),
        0 <= i < render::texts_in(snap.at("goals"@).items()).len() <= i64::MAX - 100,
        render::texts_in(snap.at("goals"@).items())[i] == text::joined(
            printed(case, hyps, goal),
            "\n"@,
        ),
    ensures
        ({
            let m = model_of(snap);
            let n = render::texts_in(snap.at("goals"@).items()).len();
            let opened = children_of(m, (100 + i) as i64);
            let first = labels(case);
            &&& m.root[i].name == if n == 1 {
                "goal"@
            } else {
                "goal "@ + text::decimal((i + 1) as nat)
            }
            &&& m.root[i].value == "⊢ "@ + one_line(goal)
            &&& m.root[i].reference == 100 + i
            &&& opened.len() == first + hyps.len() + 1
            &&& case matches Some(c) ==> opened[0].name == "case"@ && opened[0].value == c
            &&& forall|k: int|
                #![trigger hyps[k]]
                0 <= k < hyps.len() ==> opened[first + k].name == hyps[k].0 && opened[first
                    + k].value == hyps[k].1
            &&& opened.last().name == "⊢"@ && opened.last().value == goal
            &&& forall|k: int| 0 <= k < opened.len() ==> (#[trigger] opened[k]).reference == 0
        }),
{
    law_goal_read_back(case, hyps, goal);
    let front: Seq<VarView> = (match case {
        Some(c) => seq![leaf("case"@, c)],
        None => Seq::empty(),
    }) + hyps.map_values(|h: (Seq<char>, Seq<char>)| leaf(h.0, h.1));
    reveal_strlit("case");
    reveal_strlit("⊢");
    assert forall|k: int| 0 <= k < front.len() implies (#[trigger] front[k]).name != "⊢"@ by {
        let first = labels(case);
        if k >= first {
            assert(is_name(hyps[k - first].0));
            assert(front[k] == leaf(hyps[k - first].0, hyps[k - first].1));
        } else {
            assert(front[k].name == "case"@);
            assert("case"@.len() == 4 && "⊢"@.len() == 1);
        }
    }
    law_target(front, goal, Seq::empty());
    assert(front + seq![leaf("⊢"@, goal)] + Seq::<VarView>::empty() =~= front + seq![
        leaf("⊢"@, goal),
    ]);
    let vs = goal_vars(
        text::lines(render::texts_in(snap.at("goals"@).items())[i]),
    );
    assert(vs =~= front + seq![leaf("⊢"@, goal)]);
    assert(model_of(snap).goals[i] == vs);
    assert(model_of(snap).root[i] == goal_var(
        render::texts_in(snap.at("goals"@).items())[i],
        i,
        render::texts_in(snap.at("goals"@).items()).len(),
    ));
}

/// The numbers of the scopes and the goals.
pub proof fn law_references(m: ModelView, i: int)
    requires
        m.goals.len() <= i64::MAX - 100,
    ensures
        children_of(m, 1) == m.root,
        children_of(m, 2) == m.messages,
        0 <= i < m.goals.len() ==> children_of(m, (100 + i) as i64) == m.goals[i],
        i < 100 && i != 1 && i != 2 && i >= i64::MIN ==> children_of(m, i as i64).len() == 0,
        100 + m.goals.len() <= i <= i64::MAX ==> children_of(m, i as i64).len() == 0,
{
}

/// The model is at the file, the path and the line of its snapshot, which is at
/// least the first.
pub proof fn law_model_place(snap: JsonView)
    ensures
        snap.at("file"@) matches JsonView::Text(t) ==> model_of(snap).file == t,
        snap.at("path"@) matches JsonView::Text(t) ==> model_of(snap).path == t,
        !(snap.at("file"@) is Text) ==> model_of(snap).file.len() == 0,
        !(snap.at("path"@) is Text) ==> model_of(snap).path.len() == 0,
        snap.at("line"@) matches JsonView::Int(n) ==> 1 <= n <= i64::MAX ==> model_of(snap).line
            == n,
        snap.at("line"@) matches JsonView::Int(n) ==> n < 1 || n > i64::MAX ==> model_of(snap).line
            == 1,
        !(snap.at("line"@) is Int) ==> model_of(snap).line == 1,
{
    reveal_strlit("");
}

/// Without goals the top level says so, and whether the file is still being
/// elaborated; with goals it has one row for each. The expected type comes last.
pub proof fn law_top_level(snap: JsonView, g: Seq<char>)
    requires
        g.len() > 0 ==> !text::is_space(g[0]) && !text::is_space(g.last()) && g[0] != '⊢',
    ensures
        ({
            let m = model_of(snap);
            let n = render::texts_in(snap.at("goals"@).items()).len();
            &&& n == 0 ==> m.root.len() > 0 && m.root[0].name == "state"@ && m.root[0].reference
                == 0
            &&& n == 0 && snap.at("busy"@) == JsonView::Bool(true) ==> m.root[0].value
                == "⏳ elaborating…"@
            &&& n == 0 && snap.at("busy"@) != JsonView::Bool(true) ==> m.root[0].value
                == "no goals at this position"@
            &&& snap.at("termGoal"@) is Text ==> m.root.len() == (if n == 0 {
                1
            } else {
                n
            }) + 1 && m.root.last().name == "expected type"@ && m.root.last().reference == 0
            &&& !(snap.at("termGoal"@) is Text) ==> m.root.len() == if n == 0 {
                1
            } else {
                n
            }
            &&& snap.at("termGoal"@) == JsonView::Text("⊢ "@ + g) ==> m.root.last().value
                == one_line(g)
            &&& snap.at("termGoal"@) == JsonView::Text(g) ==> m.root.last().value == one_line(g)
        }),
{
    reveal_strlit("⊢ ");
    let t = "⊢ "@ + g;
    assert(t[0] == '⊢');
    let rest = t.skip(1);
    assert(rest =~= seq![' '] + g + Seq::empty());
    reveal_with_fuel(text::without_start, 2);
    assert(rest[0] == ' ');
    assert(text::without_start(t, '⊢') == rest);
    text::law_trimmed(seq![' '], g, Seq::empty());
    text::law_trimmed(Seq::empty(), g, Seq::empty());
    assert(Seq::<char>::empty() + g + Seq::<char>::empty() =~= g);
    assert(text::without_start(g, '⊢') == g);
}

/// Every message has its row, in order: its mark and its line, and its text on one
/// line.
pub proof fn law_message_rows(snap: JsonView, i: int, line: u64, sev: u64, t: Seq<char>)
    requires
        0 <= i < snap.at("messages"@).items().len(),
        snap.at("messages"@).items()[i].at("line"@) == JsonView::Int(line as int) || (snap.at(
            "messages"@,
        ).items()[i].at("line"@).uint() is None && line == 0),
        snap.at("messages"@).items()[i].at("severity"@) == JsonView::Int(sev as int) || (snap.at(
            "messages"@,
        ).items()[i].at("severity"@).uint() is None && sev == 3),
        snap.at("messages"@).items()[i].at("text"@) == JsonView::Text(t) || (!(snap.at(
            "messages"@,
        ).items()[i].at("text"@) is Text) && t.len() == 0),
    ensures
        model_of(snap).messages.len() == snap.at("messages"@).items().len(),
        model_of(snap).messages[i].name == render::icon(sev) + " line "@ + text::decimal(
            line as nat,
        ),
        model_of(snap).messages[i].value == one_line(t),
        model_of(snap).messages[i].reference == 0,
{
    reveal_strlit("");
    if t.len() == 0 {
        assert(t =~= ""@);
    }
}

/// A goal is read line by line. An empty line says nothing; a line that is no case,
/// no target and no hypothesis continues the one before it; and white space at the
/// end of a line does not count.
pub proof fn law_goal_lines(ls: Seq<Seq<char>>, l: Seq<char>, acc: Seq<VarView>)
    ensures
        goal_vars(Seq::empty()) == Seq::<VarView>::empty(),
        goal_vars(ls.push(l)) == goal_step(goal_vars(ls), l),
        (forall|i: int| 0 <= i < l.len() ==> text::is_space(#[trigger] l[i])) ==> goal_step(acc, l)
            == acc,
        l.len() > 0 && !text::is_space(l.last()) && !text::begins(l, "case "@) && !text::begins(
            l,
            "⊢"@,
        ) && !text::occurs(l, " : "@) && acc.len() > 0 ==> goal_step(acc, l).len() == acc.len()
            && goal_step(acc, l).drop_last() == acc.drop_last() && goal_step(acc, l).last().name
            == acc.last().name && goal_step(acc, l).last().value == acc.last().value + " "@
            + text::trimmed_start(l) && goal_step(acc, l).last().reference == acc.last().reference,
        l.len() > 0 && !text::is_space(l.last()) && !text::begins(l, "case "@) && !text::begins(
            l,
            "⊢"@,
        ) && !text::occurs(l, " : "@) && acc.len() == 0 ==> goal_step(acc, l).len() == 0,
        l.len() > 0 && !text::is_space(l[0]) ==> goal_step(acc, l) == goal_step(
            acc,
            text::trimmed_end(l),
        ),
{
    assert(ls.push(l).drop_last() =~= ls);
    text::law_trimmed_end(l);
    let t = text::trimmed_end(l);
    if forall|i: int| 0 <= i < l.len() ==> text::is_space(#[trigger] l[i]) {
        if t.len() > 0 {
            assert(t.last() == l[t.len() - 1]);
        }
    }
    if l.len() > 0 && !text::is_space(l[0]) {
        assert(t.len() > 0);
        assert(text::trimmed_end(t) == t);
        reveal_strlit(" ");
        assert(t[0] == l[0]);
        if text::begins(l, " "@) {
            assert(l.subrange(0, 1)[0] == l[0]);
        }
        if text::begins(t, " "@) {
            assert(t.subrange(0, 1)[0] == t[0]);
        }
    }
    if l.len() > 0 && !text::is_space(l.last()) {
        assert(t == l);
    }
    if acc.len() > 0 {
        assert(acc.drop_last().push(
            VarView { value: acc.last().value + " "@ + text::trimmed_start(t), ..acc.last() },
        ).drop_last() =~= acc.drop_last());
    }
}

/// A goal of which no target can be read stands at the top level with none.
pub proof fn law_goal_without_target(snap: JsonView, i: int)
    requires
        0 <= i < render::texts_in(snap.at("goals"@).items()).len(),
        forall|k: int|
            0 <= k < model_of(snap).goals[i].len() ==> (#[trigger] model_of(snap).goals[i][k]).name
                != "⊢"@,
    ensures
        model_of(snap).root[i].value == "⊢ "@,
        model_of(snap).goals.len() == render::texts_in(snap.at("goals"@).items()).len(),
{
    let goals = render::texts_in(snap.at("goals"@).items());
    let vs = goal_vars(text::lines(goals[i]));
    assert(model_of(snap).goals[i] == vs);
    law_target(vs, Seq::empty(), Seq::empty());
    assert(model_of(snap).root[i] == goal_var(goals[i], i, goals.len()));
    let none = Seq::<char>::empty();
    assert(text::words(none).len() == 0);
    assert(one_line(none) =~= none);
    assert("⊢ "@ + none =~= "⊢ "@);
}

} // verus!
