//! JSON values: what the library reads of them and how it builds them.

use vstd::prelude::*;
use serde_json::Number;
use crate::keymap::{ascending, lookup, put, KeyMap};

verus! {

/// A JSON number of `serde_json`, carried through as it is.
#[verifier::external_type_specification]
#[verifier::external_body]
pub struct ExNumber(Number);

/// The text that `serde_json` writes for a number.
pub uninterp spec fn number_text(n: Number) -> Seq<char>;

/// What `serde_json` gives for a number as a `u64`.
pub uninterp spec fn number_u64(n: Number) -> Option<u64>;

/// The number that `serde_json` makes of a `u64`.
pub uninterp spec fn number_from(n: u64) -> Number;

/// The text of a number: decimal notation for an unsigned integer, the text that
/// `serde_json` writes for any other.
pub open spec fn written(n: Number) -> Seq<char> {
    match number_u64(n) {
        Some(k) => crate::text::decimal(k as nat),
        None => number_text(n),
    }
}

/// `Number::clone` of `serde_json`: the same number again.
#[verifier::external_body]
pub(crate) fn clone_number(n: &Number) -> (r: Number)
    ensures
        r == *n,
{
    n.clone()
}

/// `Display` for `Number` of `serde_json`. A number that is an unsigned integer is
/// written in decimal notation; of other numbers the text is only named.
#[verifier::external_body]
pub(crate) fn text_of_number(n: &Number) -> (r: String)
    ensures
        r@ == number_text(*n),
        number_u64(*n) matches Some(k) ==> r@ == crate::text::decimal(k as nat),
{
    n.to_string()
}

/// `Number::as_u64` of `serde_json`: the value of an unsigned integer, whose text is in
/// decimal notation, and nothing for other numbers.
#[verifier::external_body]
fn u64_of_number(n: &Number) -> (r: Option<u64>)
    ensures
        r == number_u64(*n),
        r matches Some(k) ==> number_text(*n) == crate::text::decimal(k as nat),
{
    n.as_u64()
}

/// `From<u64>` for `Number` of `serde_json`: an unsigned integer of that value, which
/// is written in decimal notation.
#[verifier::external_body]
fn number_of_u64(n: u64) -> (r: Number)
    ensures
        r == number_from(n),
        number_u64(r) == Some(n),
        number_text(r) == crate::text::decimal(n as nat),
{
    Number::from(n)
}

/// What a JSON value holds. The members of an object stand in the order in which
/// they are walked, which is the order of their keys.
pub enum JsonView {
    Null,
    Bool(bool),
    Num(Number),
    Text(Seq<char>),
    List(Seq<JsonView>),
    Dict(Seq<(Seq<char>, JsonView)>),
}

/// A JSON value.
#[derive(Debug, PartialEq)]
pub enum Json {
    Null,
    Bool(bool),
    Num(Number),
    Text(String),
    List(Vec<Json>),
    Dict(KeyMap<Json>),
}

pub open spec fn tree(j: Json) -> JsonView
    decreases j,
{
    match j {
        Json::Null => JsonView::Null,
        Json::Bool(b) => JsonView::Bool(b),
        Json::Num(n) => JsonView::Num(n),
        Json::Text(s) => JsonView::Text(s@),
        Json::List(items) => JsonView::List(
            Seq::new(
                items@.len(),
                |i: int|
                    if 0 <= i < items@.len() {
                        tree(items@[i])
                    } else {
                        arbitrary()
                    },
            ),
        ),
        Json::Dict(m) => {
            proof {
                assert forall|i: int| 0 <= i < m.pairs().len() implies #[trigger] decreases_to!(m => m.pairs()[i].1) by {
                    m.lemma_smaller(i);
                }
            }
            JsonView::Dict(
                Seq::new(
                    m.pairs().len(),
                    |i: int|
                        if 0 <= i < m.pairs().len() {
                            (m.pairs()[i].0, tree(m.pairs()[i].1))
                        } else {
                            arbitrary()
                        },
                ),
            )
        },
    }
}

impl View for Json {
    type V = JsonView;

    open spec fn view(&self) -> JsonView {
        tree(*self)
    }
}

/// What an optional JSON value holds.
pub open spec fn seen(j: Option<&Json>) -> Option<JsonView> {
    match j {
        Some(v) => Some(v@),
        None => None,
    }
}

/// What a list of JSON values holds.
pub open spec fn trees(items: Seq<Json>) -> Seq<JsonView> {
    items.map_values(|j: Json| j@)
}

/// The member of an object under `key`.
pub open spec fn member(v: JsonView, key: Seq<char>) -> Option<JsonView> {
    match v {
        JsonView::Dict(pairs) => lookup(pairs, key),
        _ => None,
    }
}

/// The member under `key` of a value that may be absent.
pub open spec fn within(v: Option<JsonView>, key: Seq<char>) -> Option<JsonView> {
    match v {
        Some(x) => member(x, key),
        None => None,
    }
}

/// The text of a string value.
pub open spec fn text(v: Option<JsonView>) -> Option<Seq<char>> {
    match v {
        Some(JsonView::Text(s)) => Some(s),
        _ => None,
    }
}

/// The items of an array value; none where there is no array.
pub open spec fn items(v: Option<JsonView>) -> Seq<JsonView> {
    match v {
        Some(JsonView::List(list)) => list,
        _ => Seq::empty(),
    }
}

/// A list shows the trees of its items.
pub proof fn lemma_list_tree(list: Vec<Json>)
    ensures
        Json::List(list)@ == JsonView::List(trees(list@)),
{
    assert(Json::List(list)@->List_0 =~= trees(list@));
}

/// The pairs of an object and what it shows of them.
pub proof fn lemma_dict_tree(m: KeyMap<Json>)
    ensures
        Json::Dict(m)@ is Dict,
        Json::Dict(m)@->Dict_0.len() == m.pairs().len(),
        forall|i: int|
            0 <= i < m.pairs().len() ==> #[trigger] Json::Dict(m)@->Dict_0[i] == (
                m.pairs()[i].0,
                m.pairs()[i].1@,
            ),
        ascending(m.pairs()) ==> ascending(Json::Dict(m)@->Dict_0),
{
    let shown = Json::Dict(m)@->Dict_0;
    if ascending(m.pairs()) {
        assert forall|i: int, j: int| 0 <= i < j < shown.len() implies crate::text::precedes(
            (#[trigger] shown[i]).0,
            (#[trigger] shown[j]).0,
        ) by {
            assert(crate::text::precedes(m.pairs()[i].0, m.pairs()[j].0));
        }
    }
}

impl Json {
    /// The member of an object under `key`.
    pub fn get(&self, key: &str) -> (r: Option<&Json>)
        ensures
            seen(r) == member(self@, key@),
    {
        match self {
            Json::Dict(m) => {
                let found = m.get(key);
                proof {
                    use_type_invariant(m);
                    lemma_dict_tree(*m);
                    lemma_lookup_tree(*m, key@);
                }
                found
            },
            _ => None,
        }
    }

    /// The text of a string.
    pub fn as_str(&self) -> (r: Option<&str>)
        ensures
            match r {
                Some(s) => self@ == JsonView::Text(s@),
                None => !(self@ is Text),
            },
    {
        match self {
            Json::Text(s) => Some(s.as_str()),
            _ => None,
        }
    }

    pub fn is_null(&self) -> (r: bool)
        ensures
            r == (self@ is Null),
    {
        match self {
            Json::Null => true,
            _ => false,
        }
    }

    /// The value of an unsigned integer.
    pub fn as_u64(&self) -> (r: Option<u64>)
        ensures
            r == match self@ {
                JsonView::Num(n) => number_u64(n),
                _ => None,
            },
            r matches Some(k) ==> number_text(self@->Num_0) == crate::text::decimal(k as nat),
    {
        match self {
            Json::Num(n) => u64_of_number(n),
            _ => None,
        }
    }

    /// The same value again.
    pub fn duplicate(&self) -> (r: Json)
        ensures
            r@ == self@,
        decreases self,
    {
        match self {
            Json::Null => Json::Null,
            Json::Bool(b) => Json::Bool(*b),
            Json::Num(n) => Json::Num(clone_number(n)),
            Json::Text(s) => Json::Text(s.clone()),
            Json::List(list) => {
                let mut out: Vec<Json> = Vec::new();
                for i in 0..list.len()
                    invariant
                        out@.len() == i,
                        self == Json::List(*list),
                        forall|j: int| 0 <= j < i ==> (#[trigger] out@[j])@ == list@[j]@,
                {
                    let item = &list[i];
                    assert(decreases_to!(*self => *item)) by {
                        assert(decreases_to!(*self => self->List_0));
                        assert(decreases_to!(*list => list@));
                        assert(decreases_to!(list@ => list@[i as int]));
                    }
                    out.push(item.duplicate());
                }
                proof {
                    lemma_list_tree(*list);
                    lemma_list_tree(out);
                    assert(trees(out@) =~= trees(list@));
                }
                Json::List(out)
            },
            Json::Dict(m) => {
                let mut out: Vec<(String, Json)> = Vec::new();
                let n = m.len();
                for i in 0..n
                    invariant
                        out@.len() == i,
                        n == m.pairs().len(),
                        self == Json::Dict(*m),
                        forall|j: int|
                            0 <= j < i ==> m.pairs()[j].0 == (#[trigger] out@[j]).0@ && m.pairs()[j].1@ == out@[j].1@,
                {
                    let item = m.value_at(i);
                    assert(decreases_to!(*self => *item)) by {
                        assert(decreases_to!(*self => self->Dict_0));
                        m.lemma_smaller(i as int);
                    }
                    out.push((m.key_at(i).clone(), item.duplicate()));
                }
                let ghost copied = Seq::new(out@.len(), |i: int| (out@[i].0@, out@[i].1));
                proof {
                    use_type_invariant(m);
                    assert forall|i: int, j: int| 0 <= i < j < copied.len() implies crate::text::precedes(
                        (#[trigger] copied[i]).0,
                        (#[trigger] copied[j]).0,
                    ) by {
                        assert(crate::text::precedes(m.pairs()[i].0, m.pairs()[j].0));
                        assert(out@[i].0@ == m.pairs()[i].0 && out@[j].0@ == m.pairs()[j].0);
                    }
                }
                let copy = KeyMap::from_entries(out);
                proof {
                    lemma_dict_tree(*m);
                    lemma_dict_tree(copy);
                    assert(Json::Dict(copy)@->Dict_0 =~= Json::Dict(*m)@->Dict_0);
                }
                Json::Dict(copy)
            },
        }
    }
}

/// Looking a key up commutes with showing the values.
pub proof fn lemma_lookup_tree(m: KeyMap<Json>, key: Seq<char>)
    requires
        ascending(m.pairs()),
    ensures
        lookup(Json::Dict(m)@->Dict_0, key) == match lookup(m.pairs(), key) {
            Some(v) => Some(v@),
            None => None,
        },
{
    let shown = Json::Dict(m)@->Dict_0;
    lemma_dict_tree(m);
    if crate::keymap::has_key(m.pairs(), key) {
        let i = choose|i: int| 0 <= i < m.pairs().len() && (#[trigger] m.pairs()[i]).0 == key;
        assert(m.pairs()[i].0 == key);
        crate::keymap::lemma_lookup(m.pairs(), i);
        assert(shown[i] == (key, m.pairs()[i].1@));
        crate::keymap::lemma_lookup(shown, i);
    } else if crate::keymap::has_key(shown, key) {
        let i = choose|i: int| 0 <= i < shown.len() && (#[trigger] shown[i]).0 == key;
        assert(shown[i] == (m.pairs()[i].0, m.pairs()[i].1@));
    }
}

/// What an object shows of its members.
pub open spec fn shown(m: KeyMap<Json>) -> Seq<(Seq<char>, JsonView)> {
    tree(Json::Dict(m))->Dict_0
}

/// Puts a member into an object.
pub fn set_member(m: &mut KeyMap<Json>, key: &str, value: Json)
    ensures
        shown(*final(m)) == put(shown(*old(m)), key@, value@),
{
    let ghost before = *m;
    let ghost after_value = value;
    proof {
        use_type_invariant(&*m);
        lemma_dict_tree(*m);
    }
    m.insert(key.to_owned(), value);
    proof {
        use_type_invariant(&*m);
        lemma_dict_tree(*m);
        lemma_put_tree(before, *m, key@, after_value);
    }
}

proof fn lemma_put_tree(before: KeyMap<Json>, after: KeyMap<Json>, key: Seq<char>, value: Json)
    requires
        ascending(before.pairs()),
        ascending(after.pairs()),
        after.pairs() == put(before.pairs(), key, value),
    ensures
        shown(after) == put(shown(before), key, value@),
{
    lemma_dict_tree(before);
    lemma_dict_tree(after);
    crate::keymap::lemma_position_divides(before.pairs(), key);
    crate::keymap::lemma_position_divides(shown(before), key);
    let i = crate::keymap::position(before.pairs(), key);
    let j = crate::keymap::position(shown(before), key);
    lemma_lookup_tree(before, key);
    if i < j {
        assert(crate::text::precedes(shown(before)[i].0, key));
        crate::text::lemma_precedes_total(shown(before)[i].0, key);
        assert(before.pairs()[i].0 == key || crate::text::precedes(key, before.pairs()[i].0));
    }
    if j < i {
        assert(crate::text::precedes(before.pairs()[j].0, key));
        crate::text::lemma_precedes_total(before.pairs()[j].0, key);
        assert(shown(before)[j].0 == key || crate::text::precedes(key, shown(before)[j].0));
    }
    assert(shown(after) =~= put(shown(before), key, value@));
}

/// A string value.
pub fn text_value(s: &str) -> (r: Json)
    ensures
        r@ == JsonView::Text(s@),
{
    Json::Text(s.to_owned())
}

/// The number is an integer: its text has digits and a sign only.
pub open spec fn whole(n: Number) -> bool {
    forall|i: int|
        0 <= i < number_text(n).len() ==> #[trigger] number_text(n)[i] == '-' || '0' as int <= number_text(n)[i] as int
            <= '9' as int
}

/// A number value.
pub fn count_value(n: u64) -> (r: Json)
    ensures
        r@ == JsonView::Num(number_from(n)),
        number_u64(number_from(n)) == Some(n),
        number_text(number_from(n)) == crate::text::decimal(n as nat),
        whole(number_from(n)),
{
    let x = number_of_u64(n);
    proof {
        crate::text::lemma_decimal_digits(n as nat);
    }
    Json::Num(x)
}

/// The array of string values that shows `list`.
pub open spec fn text_list(list: Seq<Seq<char>>) -> JsonView {
    JsonView::List(list.map_values(|s: Seq<char>| JsonView::Text(s)))
}

/// An array of strings.
pub fn text_list_value(list: &Vec<String>) -> (r: Json)
    ensures
        r@ == text_list(crate::text::texts(list@)),
{
    let mut out: Vec<Json> = Vec::new();
    for i in 0..list.len()
        invariant
            out@.len() == i,
            forall|j: int| 0 <= j < i ==> (#[trigger] out@[j])@ == JsonView::Text(list@[j]@),
    {
        out.push(text_value(list[i].as_str()));
    }
    proof {
        lemma_list_tree(out);
        assert(trees(out@) =~= text_list(crate::text::texts(list@))->List_0);
    }
    Json::List(out)
}

/// The member under `key` of a value that may be absent.
pub fn get_within<'a>(v: Option<&'a Json>, key: &str) -> (r: Option<&'a Json>)
    ensures
        seen(r) == within(seen(v), key@),
{
    match v {
        Some(j) => j.get(key),
        None => None,
    }
}

/// The items of an array.
pub fn list_within(v: Option<&Json>) -> (r: Option<&Vec<Json>>)
    ensures
        items(seen(v)) == match r {
            Some(list) => trees(list@),
            None => Seq::empty(),
        },
        r is Some <==> seen(v) matches Some(JsonView::List(_)),
{
    match v {
        Some(j) => match j {
            Json::List(list) => {
                proof {
                    lemma_list_tree(*list);
                }
                Some(list)
            },
            _ => None,
        },
        None => None,
    }
}

} // verus!
