//! Between JSON text and JSON values, by way of `serde_json`.

use vstd::prelude::*;
use serde_json::{Error, Number, Value};
use crate::json::{lemma_dict_tree, lemma_list_tree, number_text, number_u64, trees, whole, written, Json, JsonView};
use crate::keymap::{ascending, KeyMap};
use crate::text::{lemma_not_blank, one_line, trimmed, white_space};

verus! {

/// A value of `serde_json`.
#[verifier::external_type_specification]
#[verifier::external_body]
pub struct ExValue(Value);

/// The error with which `serde_json` refuses a text.
#[verifier::external_type_specification]
#[verifier::external_body]
pub struct ExError(Error);

/// What a value of `serde_json` holds.
pub uninterp spec fn value_tree(v: Value) -> JsonView;

/// What `serde_json` makes of a text: the value, or the words of its error.
pub uninterp spec fn parsed(text: Seq<char>) -> Result<JsonView, Seq<char>>;

/// The words of an error of `serde_json`.
pub uninterp spec fn error_text(e: Error) -> Seq<char>;

/// The compact JSON text that `serde_json` writes for a value.
pub uninterp spec fn json_text(v: JsonView) -> Seq<char>;

/// One level of a value of `serde_json`.
pub enum Node {
    Null,
    Bool(bool),
    Num(Number),
    Text(String),
    List(Vec<Value>),
    Dict(Vec<(String, Value)>),
}

/// The members of a node with what they hold.
pub open spec fn node_pairs(entries: Seq<(String, Value)>) -> Seq<(Seq<char>, JsonView)> {
    entries.map_values(|e: (String, Value)| (e.0@, value_tree(e.1)))
}

/// What a node holds.
pub open spec fn node_tree(n: Node) -> JsonView {
    match n {
        Node::Null => JsonView::Null,
        Node::Bool(b) => JsonView::Bool(b),
        Node::Num(x) => JsonView::Num(x),
        Node::Text(s) => JsonView::Text(s@),
        Node::List(list) => JsonView::List(list@.map_values(|v: Value| value_tree(v))),
        Node::Dict(entries) => JsonView::Dict(node_pairs(entries@)),
    }
}

/// The variants of `Value` of `serde_json`, one level deep. An object is a
/// `BTreeMap` by default, so it hands its members out in ascending order of keys.
#[verifier::external_body]
fn open_value(v: Value) -> (r: Node)
    ensures
        node_tree(r) == value_tree(v),
        r matches Node::Dict(entries) ==> ascending(node_pairs(entries@)),
{
    match v {
        Value::Null => Node::Null,
        Value::Bool(b) => Node::Bool(b),
        Value::Number(n) => Node::Num(n),
        Value::String(s) => Node::Text(s),
        Value::Array(list) => Node::List(list),
        Value::Object(map) => Node::Dict(map.into_iter().collect()),
    }
}

/// The variants of `Value` of `serde_json`, built from one level. Collecting pairs
/// with ascending keys into its map keeps every pair, in that order.
#[verifier::external_body]
fn close_value(n: Node) -> (r: Value)
    requires
        n matches Node::Dict(entries) ==> ascending(node_pairs(entries@)),
    ensures
        value_tree(r) == node_tree(n),
{
    match n {
        Node::Null => Value::Null,
        Node::Bool(b) => Value::Bool(b),
        Node::Num(x) => Value::Number(x),
        Node::Text(s) => Value::String(s),
        Node::List(list) => Value::Array(list),
        Node::Dict(entries) => Value::Object(entries.into_iter().collect()),
    }
}

/// `serde_json::from_str` into a `Value`. Which texts it takes, what it makes of
/// them and what its error says is only named.
#[verifier::external_body]
fn parse_value(text: &str) -> (r: Result<Value, Error>)
    ensures
        parsed(text@) == match r {
            Ok(v) => Ok(value_tree(v)),
            Err(e) => Err(error_text(e)),
        },
{
    serde_json::from_str(text)
}

/// `Display` for `Error` of `serde_json`.
#[verifier::external_body]
fn text_of_error(e: &Error) -> (r: String)
    ensures
        r@ == error_text(*e),
{
    e.to_string()
}

/// The two values are the same but for numbers that are no integers.
pub open spec fn alike(a: JsonView, b: JsonView) -> bool
    decreases a,
{
    match (a, b) {
        (JsonView::Null, JsonView::Null) => true,
        (JsonView::Bool(x), JsonView::Bool(y)) => x == y,
        (JsonView::Num(x), JsonView::Num(y)) => number_u64(x) == number_u64(y) && (whole(x) ==> x == y),
        (JsonView::Text(x), JsonView::Text(y)) => x == y,
        (JsonView::List(x), JsonView::List(y)) => {
            &&& x.len() == y.len()
            &&& forall|i: int| 0 <= i < x.len() ==> alike(#[trigger] x[i], y[i])
        },
        (JsonView::Dict(x), JsonView::Dict(y)) => {
            &&& x.len() == y.len()
            &&& forall|i: int| 0 <= i < x.len() ==> (#[trigger] x[i]).0 == y[i].0 && alike(x[i].1, y[i].1)
        },
        _ => false,
    }
}

/// The value nests no deeper than `depth`, and its numbers are integers.
pub open spec fn fits(v: JsonView, depth: nat) -> bool
    decreases v,
{
    match v {
        JsonView::Num(n) => whole(n),
        JsonView::List(list) => depth > 0 && forall|i: int|
            0 <= i < list.len() ==> fits(#[trigger] list[i], (depth - 1) as nat),
        JsonView::Dict(pairs) => depth > 0 && forall|i: int|
            0 <= i < pairs.len() ==> fits((#[trigger] pairs[i]).1, (depth - 1) as nat),
        _ => true,
    }
}

/// `Display` for `Value` of `serde_json`, which is the compact text that
/// `serde_json::to_string` gives too. It is one line; it starts with a character that is
/// no white space; that of a number is the number's own, which for an unsigned integer is
/// decimal notation; truth values are their names. Where `serde_json` reads the text
/// back, it gets a value that is the same but for numbers with a fraction or an exponent,
/// whose last digits may differ; it does read it back where no number is of that sort and
/// the value nests at most 127 deep. Of other values it is not said whether the text is
/// read back.
#[verifier::external_body]
fn text_of_value(v: &Value) -> (r: String)
    ensures
        r@ == json_text(value_tree(*v)),
        one_line(r@),
        r@.len() > 0 && !white_space(r@[0]),
        value_tree(*v) matches JsonView::Num(n) ==> r@ == number_text(n) && r@ == written(n),
        value_tree(*v) == JsonView::Bool(true) ==> r@ == "true"@,
        value_tree(*v) == JsonView::Bool(false) ==> r@ == "false"@,
        parsed(r@) matches Ok(w) ==> alike(value_tree(*v), w),
        fits(value_tree(*v), 127) ==> parsed(r@) is Ok,
{
    v.to_string()
}

/// What is read of the text is `v`.
pub open spec fn reads_as(text: Seq<char>, v: JsonView) -> bool {
    parsed(text) == Ok::<JsonView, Seq<char>>(v)
}

/// A value whose numbers are integers is like no other.
pub proof fn lemma_fits_alike(v: JsonView, w: JsonView, depth: nat)
    requires
        fits(v, depth),
        alike(v, w),
    ensures
        v == w,
    decreases v,
{
    match (v, w) {
        (JsonView::List(x), JsonView::List(y)) => {
            assert forall|i: int| 0 <= i < x.len() implies x[i] == y[i] by {
                lemma_fits_alike(x[i], y[i], (depth - 1) as nat);
            }
            assert(x =~= y);
        },
        (JsonView::Dict(x), JsonView::Dict(y)) => {
            assert forall|i: int| 0 <= i < x.len() implies x[i] == y[i] by {
                assert(x[i].0 == y[i].0);
                lemma_fits_alike(x[i].1, y[i].1, (depth - 1) as nat);
            }
            assert(x =~= y);
        },
        _ => {},
    }
}

/// Why a text is no JSON.
#[derive(Debug, PartialEq)]
pub struct NotJson {
    pub message: String,
}

/// The value that a value of `serde_json` holds.
pub fn from_value(v: Value) -> (r: Json)
    ensures
        r@ == value_tree(v),
    decreases value_tree(v),
{
    match open_value(v) {
        Node::Null => Json::Null,
        Node::Bool(b) => Json::Bool(b),
        Node::Num(n) => Json::Num(n),
        Node::Text(s) => Json::Text(s),
        Node::List(list) => {
            let ghost whole = value_tree(v);
            let ghost shown = list@.map_values(|x: Value| value_tree(x));
            let mut out: Vec<Json> = Vec::new();
            for item in it: list.into_iter()
                invariant
                    whole == JsonView::List(shown),
                    whole == value_tree(v),
                    shown == it.seq().map_values(|x: Value| value_tree(x)),
                    out@.len() == it.index(),
                    forall|i: int| 0 <= i < out@.len() ==> (#[trigger] out@[i])@ == shown[i],
            {
                let ghost k = out@.len() as int;
                assert(value_tree(item) == shown[k]);
                assert(decreases_to!(whole => whole->List_0[k]));
                out.push(from_value(item));
            }
            proof {
                lemma_list_tree(out);
                assert(trees(out@) =~= shown);
            }
            Json::List(out)
        },
        Node::Dict(entries) => {
            let ghost whole = value_tree(v);
            let ghost shown = node_pairs(entries@);
            let mut out: Vec<(String, Json)> = Vec::new();
            for entry in it: entries.into_iter()
                invariant
                    whole == JsonView::Dict(shown),
                    whole == value_tree(v),
                    shown == node_pairs(it.seq()),
                    out@.len() == it.index(),
                    forall|i: int| 0 <= i < out@.len() ==> ((#[trigger] out@[i]).0@, out@[i].1@) == shown[i],
            {
                let ghost k = out@.len() as int;
                let (key, item) = entry;
                assert(value_tree(item) == shown[k].1);
                assert(decreases_to!(whole => whole->Dict_0[k].1));
                out.push((key, from_value(item)));
            }
            let ghost pairs = Seq::new(out@.len(), |i: int| (out@[i].0@, out@[i].1));
            proof {
                assert forall|i: int, j: int| 0 <= i < j < pairs.len() implies crate::text::precedes(
                    (#[trigger] pairs[i]).0,
                    (#[trigger] pairs[j]).0,
                ) by {
                    assert((out@[i].0@, out@[i].1@) == shown[i] && (out@[j].0@, out@[j].1@) == shown[j]);
                    assert(crate::text::precedes(shown[i].0, shown[j].0));
                }
            }
            let map = KeyMap::from_entries(out);
            proof {
                lemma_dict_tree(map);
                assert(Json::Dict(map)@->Dict_0 =~= shown);
            }
            Json::Dict(map)
        },
    }
}

/// Reads a JSON text.
pub fn parse_json(text: &str) -> (r: Result<Json, NotJson>)
    ensures
        parsed(text@) == match r {
            Ok(j) => Ok(j@),
            Err(e) => Err(e.message@),
        },
{
    match parse_value(text) {
        Ok(v) => Ok(from_value(v)),
        Err(e) => Err(NotJson { message: text_of_error(&e) }),
    }
}

/// The value of `serde_json` that holds a value.
pub fn to_value(j: &Json) -> (r: Value)
    ensures
        value_tree(r) == j@,
    decreases j,
{
    match j {
        Json::Null => close_value(Node::Null),
        Json::Bool(b) => close_value(Node::Bool(*b)),
        Json::Num(n) => close_value(Node::Num(crate::json::clone_number(n))),
        Json::Text(s) => close_value(Node::Text(s.clone())),
        Json::List(list) => {
            let mut out: Vec<Value> = Vec::new();
            for i in 0..list.len()
                invariant
                    out@.len() == i,
                    j == Json::List(*list),
                    forall|k: int| 0 <= k < i ==> value_tree(#[trigger] out@[k]) == list@[k]@,
            {
                let item = &list[i];
                assert(decreases_to!(*j => *item)) by {
                    assert(decreases_to!(*j => j->List_0));
                    assert(decreases_to!(*list => list@));
                    assert(decreases_to!(list@ => list@[i as int]));
                }
                out.push(to_value(item));
            }
            proof {
                lemma_list_tree(*list);
                assert(out@.map_values(|v: Value| value_tree(v)) =~= trees(list@));
            }
            close_value(Node::List(out))
        },
        Json::Dict(m) => {
            let mut out: Vec<(String, Value)> = Vec::new();
            let n = m.len();
            proof {
                use_type_invariant(m);
                lemma_dict_tree(*m);
            }
            for i in 0..n
                invariant
                    out@.len() == i,
                    n == m.pairs().len(),
                    j == Json::Dict(*m),
                    forall|k: int|
                        0 <= k < i ==> (#[trigger] out@[k]).0@ == m.pairs()[k].0 && value_tree(out@[k].1)
                            == m.pairs()[k].1@,
            {
                let item = m.value_at(i);
                assert(decreases_to!(*j => *item)) by {
                    assert(decreases_to!(*j => j->Dict_0));
                    m.lemma_smaller(i as int);
                }
                out.push((m.key_at(i).clone(), to_value(item)));
            }
            assert(node_pairs(out@) =~= j@->Dict_0);
            close_value(Node::Dict(out))
        },
    }
}

/// Writes a value as compact JSON text on one line.
pub fn render(j: &Json) -> (r: String)
    ensures
        r@ == json_text(j@),
        one_line(r@),
        trimmed(r@).len() > 0,
        j@ matches JsonView::Num(n) ==> r@ == number_text(n) && r@ == written(n),
        j@ == JsonView::Bool(true) ==> r@ == "true"@,
        j@ == JsonView::Bool(false) ==> r@ == "false"@,
        parsed(r@) matches Ok(w) ==> alike(j@, w),
        fits(j@, 127) ==> reads_as(r@, j@),
{
    let v = to_value(j);
    let r = text_of_value(&v);
    proof {
        lemma_not_blank(r@);
        if fits(j@, 127) {
            lemma_fits_alike(j@, parsed(r@)->Ok_0, 127);
        }
    }
    r
}

} // verus!
