//! What the library's values show of themselves, and how members are looked up.

use vstd::prelude::*;
use crate::audit::scope;
use crate::codec::{node_tree, value_tree, Node};
use crate::export::{are_rows, batch_views, line_views, Batch, Entry};
use crate::flatten::{is_row_of, Row};
use crate::json::{items, lemma_dict_tree, lemma_list_tree, member, seen, text, trees, within, Json, JsonView};
use crate::keymap::{ascending, lemma_lookup, lemma_put, lookup, KeyMap};
use crate::probe::{counts_of, occurrences};
use crate::search::{city_views, listing_views, page_state, with_cities, CityMode, CityView};
use crate::store::{byte_lines, TokenSet};
use crate::text::texts;

verus! {

/// A JSON value shows what it is: a string its text, an array its items in their order,
/// an object its pairs in theirs.
pub proof fn law_values_show_themselves(
    truth: bool,
    n: serde_json::Number,
    s: String,
    list: Vec<Json>,
    m: KeyMap<Json>,
    i: int,
)
    ensures
        Json::Null@ == JsonView::Null,
        Json::Bool(truth)@ == JsonView::Bool(truth),
        Json::Num(n)@ == JsonView::Num(n),
        Json::Text(s)@ == JsonView::Text(s@),
        Json::List(list)@ matches JsonView::List(shown) && shown.len() == list@.len() && (0 <= i < list@.len() ==> shown[i]
            == list@[i]@),
        Json::Dict(m)@ matches JsonView::Dict(shown) && shown.len() == m.pairs().len() && (0 <= i < m.pairs().len()
            ==> shown[i] == (m.pairs()[i].0, m.pairs()[i].1@)),
{
    lemma_list_tree(list);
    lemma_dict_tree(m);
    if 0 <= i < list@.len() {
        assert(trees(list@)[i] == list@[i]@);
    }
}

/// A node of a parsed text holds what it is, level by level.
pub proof fn law_nodes_hold_what_they_are(
    truth: bool,
    n: serde_json::Number,
    s: String,
    list: Vec<serde_json::Value>,
    entries: Vec<(String, serde_json::Value)>,
    i: int,
)
    ensures
        node_tree(Node::Null) == JsonView::Null,
        node_tree(Node::Bool(truth)) == JsonView::Bool(truth),
        node_tree(Node::Num(n)) == JsonView::Num(n),
        node_tree(Node::Text(s)) == JsonView::Text(s@),
        node_tree(Node::List(list)) matches JsonView::List(shown) && shown.len() == list@.len() && (0 <= i < list@.len()
            ==> shown[i] == value_tree(list@[i])),
        node_tree(Node::Dict(entries)) matches JsonView::Dict(shown) && shown.len() == entries@.len() && (0 <= i
            < entries@.len() ==> shown[i] == (entries@[i].0@, value_tree(entries@[i].1))),
{
}

/// The member of an object is the value that stands with its key. Other values have no
/// members, as they have no text or no items.
pub proof fn law_members(v: JsonView, pairs: Seq<(Seq<char>, JsonView)>, key: Seq<char>, i: int)
    requires
        ascending(pairs),
    ensures
        0 <= i < pairs.len() && pairs[i].0 == key ==> member(JsonView::Dict(pairs), key) == Some(pairs[i].1),
        (forall|j: int| 0 <= j < pairs.len() ==> (#[trigger] pairs[j]).0 != key) ==> member(JsonView::Dict(pairs), key) is None,
        !(v is Dict) ==> member(v, key) is None,
        within(Some(v), key) == member(v, key),
        within(None, key) is None,
        text(None) is None,
        !(v is Text) ==> text(Some(v)) is None,
        v matches JsonView::Text(t) ==> text(Some(v)) == Some(t),
        items(None).len() == 0,
        !(v is List) ==> items(Some(v)).len() == 0,
        v matches JsonView::List(list) ==> items(Some(v)) == list,
{
    if 0 <= i < pairs.len() {
        lemma_lookup(pairs, i);
    }
}

/// Ways to name cities show what they name, each as what it is.
pub proof fn law_city_modes_show_themselves(list: Vec<String>, modes: Seq<CityMode>, i: int)
    ensures
        CityMode::Omit@ == CityView::Omit,
        CityMode::Ids(list)@ matches CityView::Ids(shown) && shown.len() == list@.len() && (0 <= i < list@.len() ==> shown[i]
            == list@[i]@),
        CityMode::Slugs(list)@ matches CityView::Slugs(shown) && shown.len() == list@.len() && (0 <= i < list@.len()
            ==> shown[i] == list@[i]@),
        city_views(modes).len() == modes.len(),
        0 <= i < modes.len() ==> city_views(modes)[i] == modes[i]@,
{
}

/// Naming the cities in a request changes the one member that names them.
pub proof fn law_cities_are_put_in(pairs: Seq<(Seq<char>, JsonView)>, list: Seq<Seq<char>>, key: Seq<char>)
    requires
        ascending(pairs),
    ensures
        ({
            let body = JsonView::Dict(pairs);
            let said = JsonView::List(list.map_values(|t: Seq<char>| JsonView::Text(t)));
            &&& with_cities(body, CityView::Omit) == body
            &&& member(with_cities(body, CityView::Ids(list)), "city_ids"@) == Some(said)
            &&& member(with_cities(body, CityView::Slugs(list)), "cities"@) == Some(said)
            &&& key != "city_ids"@ ==> member(with_cities(body, CityView::Ids(list)), key) == member(body, key)
            &&& key != "cities"@ ==> member(with_cities(body, CityView::Slugs(list)), key) == member(body, key)
        }),
{
    let said = JsonView::List(list.map_values(|t: Seq<char>| JsonView::Text(t)));
    lemma_put(pairs, "city_ids"@, said);
    lemma_put(pairs, "cities"@, said);
}

/// Lists show their items one for one, in their order.
pub proof fn law_lists_show_their_items(
    strings: Seq<String>,
    values: Seq<Json>,
    found: Seq<(String, String)>,
    bytes: Seq<Vec<u8>>,
    lines: Seq<Vec<String>>,
    batches: Seq<Batch>,
    i: int,
)
    ensures
        texts(strings).len() == strings.len(),
        0 <= i < strings.len() ==> texts(strings)[i] == strings[i]@,
        trees(values).len() == values.len(),
        0 <= i < values.len() ==> trees(values)[i] == values[i]@,
        listing_views(found).len() == found.len(),
        0 <= i < found.len() ==> listing_views(found)[i] == (found[i].0@, found[i].1@),
        byte_lines(bytes).len() == bytes.len(),
        0 <= i < bytes.len() ==> byte_lines(bytes)[i] == bytes[i]@,
        line_views(lines).len() == lines.len(),
        0 <= i < lines.len() ==> line_views(lines)[i] == texts(lines[i]@),
        batch_views(batches).len() == batches.len(),
        0 <= i < batches.len() ==> batch_views(batches)[i] == line_views(batches[i].lines@),
{
}

/// What may be absent shows what is there, or that nothing is.
pub proof fn law_options_show_what_is_there(v: Json, page: Json, tokens: TokenSet)
    ensures
        seen(None) is None,
        seen(Some(&v)) == Some(v@),
        page_state(None) is None,
        page_state(Some((&v, &page))) == Some((v@, page@)),
        scope(None) is None,
        scope(Some(&tokens)) == Some(tokens@),
{
}

/// The rows of an export are those of its listings, one for one.
pub proof fn law_rows_of_listings(rows: Seq<Row>, list: Seq<Entry>, i: int)
    requires
        are_rows(rows, list),
    ensures
        rows.len() == list.len(),
        0 <= i < rows.len() ==> is_row_of(rows[i], list[i].token, list[i].detail, list[i].at),
{
}

/// Counts of labels: each label that occurs stands once, in ascending order, with how
/// often it occurs; no other label stands there.
pub proof fn law_counts(pairs: Seq<(Seq<char>, usize)>, labels: Seq<Seq<char>>, i: int, label: Seq<char>)
    requires
        counts_of(pairs, labels),
        labels.len() <= usize::MAX,
    ensures
        ascending(pairs),
        0 <= i < pairs.len() ==> pairs[i].1 == occurrences(labels, pairs[i].0) && pairs[i].1 > 0,
        occurrences(labels, label) > 0 ==> exists|k: int| 0 <= k < pairs.len() && (#[trigger] pairs[k]).0 == label,
{
    if 0 <= i < pairs.len() {
        lemma_lookup(pairs, i);
        crate::probe::lemma_occurrences_bounded(labels, pairs[i].0);
    }
    if occurrences(labels, label) > 0 {
        assert(lookup(pairs, label) is Some);
    }
}

} // verus!
