//! JSON values as the library holds them, and their way to and from text.

use crate::text::same_text;
use serde_json::{Number, Value};
use vstd::prelude::*;
use vstd::utf8::*;

verus! {

/// `serde_json::Number`.
#[verifier::external_type_specification]
#[verifier::external_body]
pub struct ExNumber(Number);

/// `serde_json::Value`, a tree of JSON arrays and objects.
#[verifier::external_type_specification]
#[verifier::external_body]
pub struct ExValue(Value);

/// What a JSON value is: an object is the map from its keys to their values,
/// in whatever order they were written. Only a number that is no integer stays
/// the number that it was read as.
#[verifier::ext_equal]
pub enum JsonView {
    Null,
    Bool(bool),
    Int(int),
    Float(Number),
    Text(Seq<char>),
    List(Seq<JsonView>),
    Object(Map<Seq<char>, JsonView>),
}

/// The integer that a number is; none for one that was written as a fraction or
/// that is too large.
pub uninterp spec fn number_int(n: Number) -> Option<int>;

/// What a number is.
pub open spec fn number_json(n: Number) -> JsonView {
    match number_int(n) {
        Some(i) => JsonView::Int(i),
        None => JsonView::Float(n),
    }
}

/// What a `serde_json::Value` holds.
pub uninterp spec fn value_json(v: Value) -> JsonView;

/// The compact JSON text that serde_json prints for a value.
pub uninterp spec fn json_text(j: JsonView) -> Seq<char>;

/// The value that serde_json reads out of a byte sequence, if it is JSON.
pub uninterp spec fn json_of(bytes: Seq<u8>) -> Option<JsonView>;

/// One level of a `serde_json::Value`, with its children still closed.
pub enum Shape {
    Null,
    Bool(bool),
    Numeral(Number),
    Text(String),
    List(Vec<Value>),
    Object(Vec<(String, Value)>),
}

/// The map that a list of keys and values spells; a later key replaces an
/// earlier one.
pub open spec fn members(entries: Seq<(String, Value)>) -> Map<Seq<char>, JsonView>
    decreases entries.len(),
{
    if entries.len() == 0 {
        Map::empty()
    } else {
        members(entries.drop_last()).insert(entries.last().0@, value_json(entries.last().1))
    }
}

/// No key occurs twice.
pub open spec fn distinct_keys(entries: Seq<(String, Value)>) -> bool {
    forall|i: int, j: int|
        0 <= i < j < entries.len() ==> (#[trigger] entries[i]).0@ != (#[trigger] entries[j]).0@
}

/// What one level and its children amount to.
pub open spec fn shape_json(s: Shape) -> JsonView {
    match s {
        Shape::Null => JsonView::Null,
        Shape::Bool(b) => JsonView::Bool(b),
        Shape::Numeral(n) => number_json(n),
        Shape::Text(t) => JsonView::Text(t@),
        Shape::List(vs) => JsonView::List(vs@.map_values(|v: Value| value_json(v))),
        Shape::Object(es) => JsonView::Object(members(es@)),
    }
}

/// The variants of `serde_json::Value`, told apart. An object's entries come
/// out as pairs of a key and its value.
#[verifier::external_body]
fn open_value(v: Value) -> (r: Shape)
    ensures
        shape_json(r) == value_json(v),
        r matches Shape::Object(es) ==> distinct_keys(es@),
{
    match v {
        Value::Null => Shape::Null,
        Value::Bool(b) => Shape::Bool(b),
        Value::Number(n) => Shape::Numeral(n),
        Value::String(t) => Shape::Text(t),
        Value::Array(vs) => Shape::List(vs),
        Value::Object(m) => Shape::Object(m.into_iter().collect()),
    }
}

/// The `serde_json::Value` of one level. An object is collected from its entries
/// by `serde_json::Map`, each key of which stands in one of them.
#[verifier::external_body]
fn seal_value(s: Shape) -> (r: Value)
    requires
        s matches Shape::Object(es) ==> distinct_keys(es@),
    ensures
        value_json(r) == shape_json(s),
{
    match s {
        Shape::Null => Value::Null,
        Shape::Bool(b) => Value::Bool(b),
        Shape::Numeral(n) => Value::Number(n),
        Shape::Text(t) => Value::String(t),
        Shape::List(vs) => Value::Array(vs),
        Shape::Object(es) => Value::Object(es.into_iter().collect()),
    }
}

/// `serde_json::Number::as_u64`: the number, where it is an integer that a `u64`
/// holds.
#[verifier::external_body]
fn number_u64(n: &Number) -> (r: Option<u64>)
    ensures
        r == number_json(*n).uint(),
{
    n.as_u64()
}

/// `serde_json::Number::as_i64`: the number, where it is an integer that an `i64`
/// holds.
#[verifier::external_body]
fn number_i64(n: &Number) -> (r: Option<i64>)
    ensures
        r == number_json(*n).sint(),
{
    n.as_i64()
}

/// `serde_json::Number::from` on a `u64` is that integer.
#[verifier::external_body]
fn number_of_u64(n: u64) -> (r: Number)
    ensures
        number_int(r) == Some(n as int),
{
    Number::from(n)
}

/// `serde_json::Number::from` on an `i64` is that integer.
#[verifier::external_body]
fn number_of_i64(n: i64) -> (r: Number)
    ensures
        number_int(r) == Some(n as int),
{
    Number::from(n)
}

/// `serde_json::from_slice`: reads one JSON value, or refuses the bytes.
#[verifier::external_body]
fn value_of(bytes: &[u8]) -> (r: Option<Value>)
    ensures
        r is Some <==> json_of(bytes@) is Some,
        r matches Some(v) ==> json_of(bytes@) == Some(value_json(v)),
{
    serde_json::from_slice(bytes).ok()
}

/// The value holds no number but integers, and its lists and objects are nested
/// at most `depth` deep.
pub open spec fn plain(j: JsonView, depth: nat) -> bool
    decreases depth,
{
    match j {
        JsonView::Float(_) => false,
        JsonView::List(items) => depth > 0 && forall|i: int|
            0 <= i < items.len() ==> #[trigger] plain(items[i], (depth - 1) as nat),
        JsonView::Object(m) => depth > 0 && forall|k: Seq<char>| #[trigger]
            m.dom().contains(k) ==> plain(m[k], (depth - 1) as nat),
        _ => true,
    }
}

/// How deep lists and objects may be nested for serde_json to read them.
pub open spec fn max_depth() -> nat {
    127
}

/// A text without line feeds and carriage returns.
pub open spec fn unbroken(t: Seq<char>) -> bool {
    forall|i: int| 0 <= i < t.len() ==> #[trigger] t[i] != '\n' && t[i] != '\r'
}

/// The text is the compact JSON text of the value, on one line. Alone and with a
/// line feed behind it, it reads as the value, if that holds no fraction and is
/// not nested too deep.
pub open spec fn prints(t: Seq<char>, j: JsonView) -> bool {
    &&& t == json_text(j)
    &&& unbroken(t)
    &&& plain(j, max_depth()) ==> json_of(encode_utf8(t)) == Some(j)
    &&& plain(j, max_depth()) ==> json_of(encode_utf8(t + "\n"@)) == Some(j)
}

/// `serde_json::Value::to_string`: the compact JSON text, which has no line break:
/// none is written between the parts, and those inside texts are escaped.
/// `serde_json::from_slice` reads from it what was printed, with or without a
/// line feed behind it, if that is not nested too deep; whether a fraction comes
/// back unchanged is not said.
#[verifier::external_body]
fn value_text(v: &Value) -> (r: String)
    ensures
        r@ == json_text(value_json(*v)),
        forall|i: int| 0 <= i < r@.len() ==> #[trigger] r@[i] != '\n' && r@[i] != '\r',
        plain(value_json(*v), max_depth()) ==> json_of(encode_utf8(r@)) == Some(value_json(*v)),
        plain(value_json(*v), max_depth()) ==> json_of(encode_utf8(r@ + "\n"@)) == Some(
            value_json(*v),
        ),
{
    v.to_string()
}

/// A copy of a number is that number.
pub assume_specification[ <Number as Clone>::clone ](n: &Number) -> (r: Number)
    ensures
        r == *n,
;

/// Whether serde_json takes two values for equal.
pub uninterp spec fn json_same(a: JsonView, b: JsonView) -> bool;

/// `==` on `serde_json::Value`: a value equals itself, and one that holds no
/// fraction equals nothing else.
#[verifier::external_body]
fn values_equal(a: &Value, b: &Value) -> (r: bool)
    ensures
        r == json_same(value_json(*a), value_json(*b)),
        value_json(*a) == value_json(*b) ==> r,
        r && plain(value_json(*a), max_depth()) ==> value_json(*a) == value_json(*b),
{
    a == b
}

// ------------------------------------------------------- the library's own --

/// A JSON value. What was read holds its numbers as they were read; an integer
/// can also be written as itself.
pub enum Json {
    Null,
    Bool(bool),
    Unsigned(u64),
    Negative(i64),
    Numeral(Number),
    Text(String),
    List(Vec<Json>),
    Object(Object),
}

/// A JSON object.
pub struct Object {
    pub entries: Vec<Entry>,
}

/// A key of an object and its value.
pub struct Entry {
    pub key: String,
    pub value: Json,
}

/// What a value of the library is.
pub open spec fn json_view(j: Json) -> JsonView
    decreases j,
{
    match j {
        Json::Null => JsonView::Null,
        Json::Bool(b) => JsonView::Bool(b),
        Json::Unsigned(n) => JsonView::Int(n as int),
        Json::Negative(n) => JsonView::Int(n as int),
        Json::Numeral(n) => number_json(n),
        Json::Text(t) => JsonView::Text(t@),
        Json::List(items) => JsonView::List(list_view(items@)),
        Json::Object(o) => JsonView::Object(entries_view(o.entries@)),
    }
}

/// What a list of values is.
pub open spec fn list_view(items: Seq<Json>) -> Seq<JsonView>
    decreases items,
{
    if items.len() == 0 {
        Seq::empty()
    } else {
        list_view(items.drop_last()).push(json_view(items.last()))
    }
}

/// The map that a list of entries spells; a later key replaces an earlier one.
pub open spec fn entries_view(entries: Seq<Entry>) -> Map<Seq<char>, JsonView>
    decreases entries,
{
    if entries.len() == 0 {
        Map::empty()
    } else {
        entries_view(entries.drop_last()).insert(
            entries.last().key@,
            json_view(entries.last().value),
        )
    }
}

impl View for Json {
    type V = JsonView;

    open spec fn view(&self) -> JsonView {
        json_view(*self)
    }
}

impl View for Object {
    type V = Map<Seq<char>, JsonView>;

    open spec fn view(&self) -> Map<Seq<char>, JsonView> {
        entries_view(self.entries@)
    }
}

/// A list is what its items are.
pub proof fn lemma_list_view(items: Seq<Json>)
    ensures
        list_view(items).len() == items.len(),
        forall|i: int|
            0 <= i < items.len() ==> #[trigger] list_view(items)[i] == json_view(items[i]),
    decreases items.len(),
{
    if items.len() > 0 {
        lemma_list_view(items.drop_last());
    }
}

proof fn lemma_members_finite(entries: Seq<(String, Value)>)
    ensures
        members(entries).dom().finite(),
    decreases entries.len(),
{
    if entries.len() > 0 {
        lemma_members_finite(entries.drop_last());
    }
}

proof fn lemma_member(entries: Seq<(String, Value)>, i: int)
    requires
        distinct_keys(entries),
        0 <= i < entries.len(),
    ensures
        members(entries).dom().contains(entries[i].0@),
        members(entries)[entries[i].0@] == value_json(entries[i].1),
        members(entries).dom().finite(),
    decreases entries.len(),
{
    lemma_members_finite(entries);
    if i < entries.len() - 1 {
        let init = entries.drop_last();
        assert(init[i] == entries[i]);
        assert(entries.last() == entries[entries.len() - 1]);
        assert forall|a: int, b: int| 0 <= a < b < init.len() implies (#[trigger] init[a]).0@
            != (#[trigger] init[b]).0@ by {
            assert(init[a] == entries[a] && init[b] == entries[b]);
        }
        lemma_member(init, i);
    }
}

/// The value of the library that holds what `v` holds.
fn from_value(v: Value) -> (r: Json)
    ensures
        r@ == value_json(v),
    decreases value_json(v),
{
    let ghost whole = value_json(v);
    match open_value(v) {
        Shape::Null => Json::Null,
        Shape::Bool(b) => Json::Bool(b),
        Shape::Numeral(n) => Json::Numeral(n),
        Shape::Text(t) => Json::Text(t),
        Shape::List(vs) => {
            let ghost all = vs@;
            let mut items: Vec<Json> = Vec::new();
            for x in it: vs
                invariant
                    it.seq() == all,
                    whole == value_json(v),
                    whole == JsonView::List(all.map_values(|v: Value| value_json(v))),
                    list_view(items@) == all.map_values(|v: Value| value_json(v)).take(
                        it.index() as int,
                    ),
            {
                let ghost i = it.index() as int;
                let ghost views = all.map_values(|v: Value| value_json(v));
                proof {
                    assert(views[i] == value_json(x));
                    assert(decreases_to!(whole => whole->List_0));
                    assert(decreases_to!(whole->List_0 => whole->List_0[i]));
                }
                let ghost before = items@;
                items.push(from_value(x));
                proof {
                    assert(items@.drop_last() =~= before);
                    assert(views.take(i + 1) =~= views.take(i).push(views[i]));
                }
            }
            proof {
                let views = all.map_values(|v: Value| value_json(v));
                assert(views.take(views.len() as int) =~= views);
            }
            Json::List(items)
        },
        Shape::Object(es) => {
            let ghost all = es@;
            let mut entries: Vec<Entry> = Vec::new();
            for e in it: es
                invariant
                    it.seq() == all,
                    whole == value_json(v),
                    whole == JsonView::Object(members(all)),
                    distinct_keys(all),
                    entries_view(entries@) == members(all.take(it.index() as int)),
            {
                let ghost i = it.index() as int;
                proof {
                    lemma_member(all, i);
                    assert(decreases_to!(whole => whole->Object_0));
                    assert(decreases_to!(whole->Object_0 => whole->Object_0[all[i].0@]));
                }
                let ghost before = entries@;
                entries.push(Entry { key: e.0, value: from_value(e.1) });
                proof {
                    assert(entries@.drop_last() =~= before);
                    assert(all.take(i + 1).drop_last() =~= all.take(i));
                }
            }
            proof {
                assert(all.take(all.len() as int) =~= all);
            }
            Json::Object(Object { entries })
        },
    }
}

proof fn lemma_entries_front(s: Seq<Entry>)
    requires
        s.len() > 0,
    ensures
        entries_view(s) == if entries_view(s.skip(1)).dom().contains(s[0].key@) {
            entries_view(s.skip(1))
        } else {
            entries_view(s.skip(1)).insert(s[0].key@, json_view(s[0].value))
        },
    decreases s.len(),
{
    let init = s.drop_last();
    let tail = s.skip(1);
    if s.len() == 1 {
        assert(init =~= Seq::empty());
        assert(tail =~= Seq::empty());
    } else {
        lemma_entries_front(init);
        assert(init.skip(1) =~= tail.drop_last());
        assert(tail.last() == s.last());
        assert(init[0] == s[0]);
        assert(entries_view(s) =~= if entries_view(tail).dom().contains(s[0].key@) {
            entries_view(tail)
        } else {
            entries_view(tail).insert(s[0].key@, json_view(s[0].value))
        });
    }
}

proof fn lemma_no_member(entries: Seq<(String, Value)>, key: Seq<char>)
    requires
        forall|k: int| 0 <= k < entries.len() ==> (#[trigger] entries[k]).0@ != key,
    ensures
        !members(entries).dom().contains(key),
    decreases entries.len(),
{
    if entries.len() > 0 {
        let init = entries.drop_last();
        assert(entries.last() == entries[entries.len() - 1]);
        assert forall|k: int| 0 <= k < init.len() implies (#[trigger] init[k]).0@ != key by {
            assert(init[k] == entries[k]);
        }
        lemma_no_member(init, key);
    }
}

/// Whether a key stands among entries.
fn has_key(es: &Vec<(String, Value)>, key: &str) -> (r: bool)
    requires
        distinct_keys(es@),
    ensures
        r == members(es@).dom().contains(key@),
{
    let mut i: usize = 0;
    while i < es.len()
        invariant
            i <= es.len(),
            distinct_keys(es@),
            forall|k: int| 0 <= k < i ==> (#[trigger] es@[k]).0@ != key@,
        decreases es.len() - i,
    {
        if same_text(es[i].0.as_str(), key) {
            proof {
                lemma_member(es@, i as int);
            }
            return true;
        }
        i += 1;
    }
    proof {
        lemma_no_member(es@, key@);
    }
    false
}

/// The `serde_json::Value` that holds what `j` holds.
fn to_value(j: &Json) -> (r: Value)
    ensures
        value_json(r) == j@,
    decreases j,
{
    match j {
        Json::Null => seal_value(Shape::Null),
        Json::Bool(b) => seal_value(Shape::Bool(*b)),
        Json::Unsigned(n) => seal_value(Shape::Numeral(number_of_u64(*n))),
        Json::Negative(n) => seal_value(Shape::Numeral(number_of_i64(*n))),
        Json::Numeral(n) => seal_value(Shape::Numeral(n.clone())),
        Json::Text(t) => seal_value(Shape::Text(t.clone())),
        Json::List(items) => {
            let mut vs: Vec<Value> = Vec::new();
            let mut i: usize = 0;
            while i < items.len()
                invariant
                    i <= items.len(),
                    *j == Json::List(*items),
                    vs@.map_values(|v: Value| value_json(v)) == list_view(items@.take(i as int)),
                decreases items.len() - i,
            {
                let ghost before = vs@;
                proof {
                    assert(decreases_to!(*j => j->List_0));
                    assert(decreases_to!(j->List_0 => j->List_0@));
                    assert(decreases_to!(j->List_0@ => j->List_0@[i as int]));
                }
                vs.push(to_value(&items[i]));
                i += 1;
                proof {
                    assert(items@.take(i as int).drop_last() =~= items@.take(i - 1));
                    assert(vs@.map_values(|v: Value| value_json(v)) =~= before.map_values(
                        |v: Value| value_json(v),
                    ).push(value_json(vs@.last())));
                }
            }
            proof {
                assert(items@.take(i as int) =~= items@);
            }
            seal_value(Shape::List(vs))
        },
        Json::Object(o) => {
            let mut es: Vec<(String, Value)> = Vec::new();
            let mut i: usize = o.entries.len();
            proof {
                assert(o.entries@.skip(i as int) =~= Seq::<Entry>::empty());
            }
            // From the back, so that of two entries with one key the later stays.
            while i > 0
                invariant
                    i <= o.entries.len(),
                    *j == Json::Object(*o),
                    distinct_keys(es@),
                    members(es@) == entries_view(o.entries@.skip(i as int)),
                decreases i,
            {
                i -= 1;
                let ghost before = es@;
                proof {
                    let tail = o.entries@.skip(i as int);
                    assert(tail[0] == o.entries@[i as int]);
                    assert(tail.skip(1) =~= o.entries@.skip(i + 1));
                    lemma_entries_front(tail);
                    assert(decreases_to!(*j => j->Object_0));
                    assert(decreases_to!(j->Object_0 => j->Object_0.entries));
                    assert(decreases_to!(o.entries => o.entries@));
                    assert(decreases_to!(o.entries@ => o.entries@[i as int]));
                    assert(decreases_to!(o.entries@[i as int] => o.entries@[i as int].value));
                }
                if !has_key(&es, o.entries[i].key.as_str()) {
                    es.push((o.entries[i].key.clone(), to_value(&o.entries[i].value)));
                    proof {
                        assert(es@.drop_last() =~= before);
                        assert forall|a: int, b: int| 0 <= a < b < es@.len() implies (
                        #[trigger] es@[a]).0@ != (#[trigger] es@[b]).0@ by {
                            assert(es@[a] == before[a]);
                            if b < before.len() {
                                assert(es@[b] == before[b]);
                            } else {
                                lemma_member(before, a);
                            }
                        }
                    }
                }
            }
            proof {
                assert(o.entries@.skip(0) =~= o.entries@);
            }
            seal_value(Shape::Object(es))
        },
    }
}

// ---------------------------------------------------------------- reading --

impl JsonView {
    /// The member of an object under a key; null where there is none.
    pub open spec fn at(self, key: Seq<char>) -> JsonView {
        match self {
            JsonView::Object(m) => if m.dom().contains(key) {
                m[key]
            } else {
                JsonView::Null
            },
            _ => JsonView::Null,
        }
    }

    /// The item of a list at an index; null where there is none.
    pub open spec fn item(self, i: int) -> JsonView {
        match self {
            JsonView::List(items) => if 0 <= i < items.len() {
                items[i]
            } else {
                JsonView::Null
            },
            _ => JsonView::Null,
        }
    }

    /// The text, where the value is one.
    pub open spec fn text(self) -> Option<Seq<char>> {
        match self {
            JsonView::Text(t) => Some(t),
            _ => None,
        }
    }

    /// The text, or a default for a value that is none.
    pub open spec fn text_or(self, default: Seq<char>) -> Seq<char> {
        match self {
            JsonView::Text(t) => t,
            _ => default,
        }
    }

    /// The number, where it is an integer that a `u64` holds.
    pub open spec fn uint(self) -> Option<u64> {
        match self {
            JsonView::Int(n) => if 0 <= n <= u64::MAX {
                Some(n as u64)
            } else {
                None
            },
            _ => None,
        }
    }

    /// That number, or a default.
    pub open spec fn uint_or(self, default: u64) -> u64 {
        match self.uint() {
            Some(n) => n,
            None => default,
        }
    }

    /// The number, where it is an integer that an `i64` holds.
    pub open spec fn sint(self) -> Option<i64> {
        match self {
            JsonView::Int(n) => if i64::MIN <= n <= i64::MAX {
                Some(n as i64)
            } else {
                None
            },
            _ => None,
        }
    }

    /// That number, or a default.
    pub open spec fn sint_or(self, default: i64) -> i64 {
        match self.sint() {
            Some(n) => n,
            None => default,
        }
    }

    /// The truth value; false for anything else.
    pub open spec fn truth(self) -> bool {
        self == JsonView::Bool(true)
    }

    /// The items of a list; none for anything else.
    pub open spec fn items(self) -> Seq<JsonView> {
        match self {
            JsonView::List(items) => items,
            _ => Seq::empty(),
        }
    }
}

proof fn lemma_entries_last(entries: Seq<Entry>, i: int)
    requires
        0 <= i < entries.len(),
        forall|k: int| i < k < entries.len() ==> (#[trigger] entries[k]).key@ != entries[i].key@,
    ensures
        entries_view(entries).dom().contains(entries[i].key@),
        entries_view(entries)[entries[i].key@] == json_view(entries[i].value),
    decreases entries.len(),
{
    if i < entries.len() - 1 {
        let init = entries.drop_last();
        assert(init[i] == entries[i]);
        assert(entries.last() == entries[entries.len() - 1]);
        assert forall|k: int| i < k < init.len() implies (#[trigger] init[k]).key@
            != init[i].key@ by {
            assert(init[k] == entries[k]);
        }
        lemma_entries_last(init, i);
    }
}

proof fn lemma_entries_absent(entries: Seq<Entry>, key: Seq<char>)
    requires
        forall|k: int| 0 <= k < entries.len() ==> (#[trigger] entries[k]).key@ != key,
    ensures
        !entries_view(entries).dom().contains(key),
    decreases entries.len(),
{
    if entries.len() > 0 {
        let init = entries.drop_last();
        assert(entries.last() == entries[entries.len() - 1]);
        assert forall|k: int| 0 <= k < init.len() implies (#[trigger] init[k]).key@ != key by {
            assert(init[k] == entries[k]);
        }
        lemma_entries_absent(init, key);
    }
}

impl Object {
    /// An object without members.
    pub fn new() -> (r: Object)
        ensures
            r@ == Map::<Seq<char>, JsonView>::empty(),
    {
        Object { entries: Vec::new() }
    }

    /// Gives a key its value, in place of any it had.
    pub fn set(&mut self, key: &str, value: Json)
        ensures
            final(self)@ == old(self)@.insert(key@, value@),
    {
        let ghost before = self.entries@;
        self.entries.push(Entry { key: key.to_owned(), value });
        proof {
            assert(self.entries@.drop_last() =~= before);
        }
    }

    /// The value of a key.
    pub fn get(&self, key: &str) -> (r: Option<&Json>)
        ensures
            match r {
                Some(j) => self@.dom().contains(key@) && self@[key@] == j@,
                None => !self@.dom().contains(key@),
            },
    {
        let mut i: usize = self.entries.len();
        while i > 0
            invariant
                i <= self.entries.len(),
                forall|k: int|
                    i <= k < self.entries.len() ==> (#[trigger] self.entries@[k]).key@ != key@,
            decreases i,
        {
            i -= 1;
            if same_text(self.entries[i].key.as_str(), key) {
                proof {
                    lemma_entries_last(self.entries@, i as int);
                }
                return Some(&self.entries[i].value);
            }
        }
        proof {
            lemma_entries_absent(self.entries@, key@);
        }
        None
    }
}

/// Appends an item to a list of values.
pub fn push_item(items: &mut Vec<Json>, item: Json)
    ensures
        list_view(final(items)@) == list_view(old(items)@).push(item@),
{
    let ghost before = items@;
    items.push(item);
    proof {
        assert(items@.drop_last() =~= before);
    }
}

impl Json {
    /// Reads JSON text; `None` where the bytes are none.
    pub fn parse(bytes: &[u8]) -> (r: Option<Json>)
        ensures
            match r {
                Some(j) => json_of(bytes@) == Some(j@),
                None => json_of(bytes@) is None,
            },
    {
        match value_of(bytes) {
            Some(v) => Some(from_value(v)),
            None => None,
        }
    }

    /// The compact JSON text of the value.
    pub fn to_text(&self) -> (r: String)
        ensures
            prints(r@, self@),
    {
        value_text(&to_value(self))
    }

    /// A value of its own that holds the same.
    pub fn copy(&self) -> (r: Json)
        ensures
            r@ == self@,
    {
        from_value(to_value(self))
    }

    /// Whether the two are equal as JSON.
    pub fn same(&self, other: &Json) -> (r: bool)
        ensures
            r == json_same(self@, other@),
            self@ == other@ ==> r,
            r && plain(self@, max_depth()) ==> self@ == other@,
    {
        values_equal(&to_value(self), &to_value(other))
    }

    /// A text as a JSON value.
    pub fn string(s: &str) -> (r: Json)
        ensures
            r@ == JsonView::Text(s@),
    {
        Json::Text(s.to_owned())
    }

    /// The member under a key; null where there is none.
    pub fn at(&self, key: &str) -> (r: &Json)
        ensures
            r@ == self@.at(key@),
    {
        match self {
            Json::Object(o) => match o.get(key) {
                Some(j) => j,
                None => &Json::Null,
            },
            _ => &Json::Null,
        }
    }

    /// The item at an index; null where there is none.
    pub fn item(&self, i: usize) -> (r: &Json)
        ensures
            r@ == self@.item(i as int),
    {
        match self {
            Json::List(items) => {
                proof {
                    lemma_list_view(items@);
                }
                if i < items.len() {
                    &items[i]
                } else {
                    &Json::Null
                }
            },
            _ => &Json::Null,
        }
    }

    /// The text, where the value is one.
    pub fn as_str(&self) -> (r: Option<&str>)
        ensures
            match r {
                Some(t) => self@.text() == Some(t@),
                None => self@.text() is None,
            },
    {
        match self {
            Json::Text(t) => Some(t.as_str()),
            _ => None,
        }
    }

    /// The text, or a default for a value that is none.
    pub fn str_or<'a>(&'a self, default: &'a str) -> (r: &'a str)
        ensures
            r@ == self@.text_or(default@),
    {
        match self {
            Json::Text(t) => t.as_str(),
            _ => default,
        }
    }

    /// The number, where it is an integer that a `u64` holds.
    pub fn as_u64(&self) -> (r: Option<u64>)
        ensures
            r == self@.uint(),
    {
        match self {
            Json::Unsigned(n) => Some(*n),
            Json::Negative(n) => if *n >= 0 {
                Some(*n as u64)
            } else {
                None
            },
            Json::Numeral(n) => number_u64(n),
            _ => None,
        }
    }

    /// That number, or a default.
    pub fn u64_or(&self, default: u64) -> (r: u64)
        ensures
            r == self@.uint_or(default),
    {
        match self.as_u64() {
            Some(n) => n,
            None => default,
        }
    }

    /// The number, where it is an integer that an `i64` holds.
    pub fn as_i64(&self) -> (r: Option<i64>)
        ensures
            r == self@.sint(),
    {
        match self {
            Json::Unsigned(n) => if *n <= i64::MAX as u64 {
                Some(*n as i64)
            } else {
                None
            },
            Json::Negative(n) => Some(*n),
            Json::Numeral(n) => number_i64(n),
            _ => None,
        }
    }

    /// That number, or a default.
    pub fn i64_or(&self, default: i64) -> (r: i64)
        ensures
            r == self@.sint_or(default),
    {
        match self.as_i64() {
            Some(n) => n,
            None => default,
        }
    }

    /// The truth value; false for anything else.
    pub fn truth(&self) -> (r: bool)
        ensures
            r == self@.truth(),
    {
        match self {
            Json::Bool(b) => *b,
            _ => false,
        }
    }

    /// Whether the value is null.
    pub fn is_null(&self) -> (r: bool)
        ensures
            r == (self@ is Null),
    {
        match self {
            Json::Null => true,
            _ => false,
        }
    }

    /// Whether the value is an object.
    pub fn is_object(&self) -> (r: bool)
        ensures
            r == (self@ is Object),
    {
        match self {
            Json::Object(_) => true,
            _ => false,
        }
    }

    /// Whether the value is a list.
    pub fn is_list(&self) -> (r: bool)
        ensures
            r == (self@ is List),
    {
        match self {
            Json::List(_) => true,
            _ => false,
        }
    }

    /// Gives a member of an object its value; null becomes an object first.
    pub fn put(&mut self, key: &str, value: Json)
        requires
            old(self)@ is Null || old(self)@ is Object,
        ensures
            final(self)@ == JsonView::Object(
                (match old(self)@ {
                    JsonView::Object(m) => m,
                    _ => Map::empty(),
                }).insert(key@, value@),
            ),
    {
        match self {
            Json::Object(o) => o.set(key, value),
            _ => {
                let mut o = Object::new();
                o.set(key, value);
                *self = Json::Object(o);
            },
        }
    }

    /// Appends an item to a list.
    pub fn push(&mut self, item: Json)
        requires
            old(self)@ is List,
        ensures
            final(self)@ == JsonView::List(old(self)@.items().push(item@)),
    {
        if let Json::List(items) = self {
            push_item(items, item);
        }
    }

    /// The items as a list of their own; an empty list for anything else.
    pub fn items(&self) -> (r: Json)
        ensures
            r@ == JsonView::List(self@.items()),
    {
        if self.is_list() {
            self.copy()
        } else {
            Json::List(Vec::new())
        }
    }

    /// How many items the list has; none for anything else.
    pub fn count(&self) -> (r: usize)
        ensures
            r == self@.items().len(),
    {
        match self {
            Json::List(items) => {
                proof {
                    lemma_list_view(items@);
                }
                items.len()
            },
            _ => 0,
        }
    }
}

// ------------------------------------------------------------------- laws --

/// A member is what it was last set to, and setting it leaves the others alone; a
/// value that is no object has none.
pub proof fn law_members(
    m: Map<Seq<char>, JsonView>,
    key: Seq<char>,
    other: Seq<char>,
    v: JsonView,
    j: JsonView,
)
    ensures
        JsonView::Object(m.insert(key, v)).at(key) == v,
        other != key ==> JsonView::Object(m.insert(key, v)).at(other) == JsonView::Object(m).at(
            other,
        ),
        JsonView::Object(Map::empty()).at(key) is Null,
        !(j is Object) ==> j.at(key) is Null,
{
}

/// What a value is read as.
pub proof fn law_readings(j: JsonView, n: int, t: Seq<char>, s: Seq<JsonView>, i: int, b: bool)
    ensures
        JsonView::Text(t).text() == Some(t) && JsonView::Text(t).text_or(Seq::empty()) == t,
        !(j is Text) ==> j.text() is None && j.text_or(t) == t,
        0 <= n <= u64::MAX ==> JsonView::Int(n).uint() == Some(n as u64) && JsonView::Int(
            n,
        ).uint_or(7) == n,
        i64::MIN <= n <= i64::MAX ==> JsonView::Int(n).sint() == Some(n as i64) && JsonView::Int(
            n,
        ).sint_or(7) == n,
        n < 0 || n > u64::MAX ==> JsonView::Int(n).uint() is None,
        n < i64::MIN || n > i64::MAX ==> JsonView::Int(n).sint() is None,
        !(j is Int) ==> j.uint() is None && j.sint() is None && j.uint_or(7) == 7 && j.sint_or(7)
            == 7,
        JsonView::Bool(b).truth() == b,
        !(j is Bool) ==> !j.truth(),
        JsonView::List(s).items() == s,
        0 <= i < s.len() ==> JsonView::List(s).item(i) == s[i],
        i >= s.len() ==> JsonView::List(s).item(i) is Null,
        !(j is List) ==> j.items().len() == 0 && j.item(i) is Null,
{
}

/// What was printed is on one line and reads back, with or without a line feed.
pub proof fn law_printed(t: Seq<char>, j: JsonView, i: int)
    requires
        prints(t, j),
    ensures
        t == json_text(j),
        0 <= i < t.len() ==> t[i] != '\n' && t[i] != '\r',
        plain(j, 127) ==> json_of(encode_utf8(t)) == Some(j) && json_of(encode_utf8(t + "\n"@))
            == Some(j),
{
}

} // verus!
