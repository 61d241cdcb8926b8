//! Texts and pairs read out of a JSON payload.

use vstd::prelude::*;
use vstd::string::StringExecFns;
use crate::codec::{json_text, render};
use crate::json::{lemma_dict_tree, lemma_list_tree, member, text, text_of_number, written, Json, JsonView};
use crate::keymap::{lookup, TextMap};
use crate::text::{is_blank, trimmed};

verus! {

/// The text of a string, a number or a truth value.
pub open spec fn scalar_text(v: JsonView) -> Seq<char> {
    match v {
        JsonView::Text(s) => s,
        JsonView::Num(n) => written(n),
        JsonView::Bool(true) => "true"@,
        JsonView::Bool(false) => "false"@,
        _ => Seq::empty(),
    }
}

/// A value as the text of a table cell: nothing for null or for no value, JSON text for
/// an array or an object, its own text for anything else.
pub open spec fn plain(v: Option<JsonView>) -> Seq<char> {
    match v {
        None => Seq::empty(),
        Some(JsonView::List(list)) => json_text(JsonView::List(list)),
        Some(JsonView::Dict(pairs)) => json_text(JsonView::Dict(pairs)),
        Some(other) => scalar_text(other),
    }
}

/// A value as the text of a table cell.
pub fn s(v: Option<&Json>) -> (r: String)
    ensures
        r@ == plain(crate::json::seen(v)),
{
    match v {
        None => String::new(),
        Some(j) => match j {
            Json::Null => String::new(),
            Json::Text(x) => x.clone(),
            _ => render(j),
        },
    }
}

/// The pair that an object makes of its `title` and its `value`, where both say
/// something.
pub open spec fn own_pair(pairs: Seq<(Seq<char>, JsonView)>) -> Seq<(Seq<char>, Seq<char>)> {
    match (text(lookup(pairs, "title"@)), lookup(pairs, "value"@)) {
        (Some(title), Some(value)) => {
            if trimmed(title).len() > 0 && trimmed(scalar_text(value)).len() > 0 {
                seq![(trimmed(title), scalar_text(value))]
            } else {
                Seq::empty()
            }
        },
        _ => Seq::empty(),
    }
}

/// Every pair in a payload, an object's own before those of its members.
pub open spec fn pairs_in(v: JsonView) -> Seq<(Seq<char>, Seq<char>)>
    decreases v, 1nat,
{
    match v {
        JsonView::Dict(pairs) => own_pair(pairs) + pairs_below(v).flatten(),
        _ => pairs_below(v).flatten(),
    }
}

/// The pairs in each member of an object or item of an array.
pub open spec fn pairs_below(v: JsonView) -> Seq<Seq<(Seq<char>, Seq<char>)>>
    decreases v, 0nat,
{
    match v {
        JsonView::Dict(pairs) => Seq::new(
            pairs.len(),
            |i: int|
                if 0 <= i < pairs.len() {
                    pairs_in(pairs[i].1)
                } else {
                    arbitrary()
                },
        ),
        JsonView::List(list) => Seq::new(
            list.len(),
            |i: int|
                if 0 <= i < list.len() {
                    pairs_in(list[i])
                } else {
                    arbitrary()
                },
        ),
        _ => Seq::empty(),
    }
}

/// `m` with each pair added whose key is not there yet.
pub open spec fn first_wins(
    m: Map<Seq<char>, Seq<char>>,
    pairs: Seq<(Seq<char>, Seq<char>)>,
) -> Map<Seq<char>, Seq<char>>
    decreases pairs.len(),
{
    if pairs.len() == 0 {
        m
    } else {
        let front = first_wins(m, pairs.drop_last());
        if front.contains_key(pairs.last().0) {
            front
        } else {
            front.insert(pairs.last().0, pairs.last().1)
        }
    }
}

/// `m` with each pair put in, a later one over an earlier one.
pub open spec fn last_wins(
    m: Map<Seq<char>, Seq<char>>,
    pairs: Seq<(Seq<char>, Seq<char>)>,
) -> Map<Seq<char>, Seq<char>>
    decreases pairs.len(),
{
    if pairs.len() == 0 {
        m
    } else {
        last_wins(m, pairs.drop_last()).insert(pairs.last().0, pairs.last().1)
    }
}

pub proof fn lemma_first_wins_concat(
    m: Map<Seq<char>, Seq<char>>,
    a: Seq<(Seq<char>, Seq<char>)>,
    b: Seq<(Seq<char>, Seq<char>)>,
)
    ensures
        first_wins(m, a + b) == first_wins(first_wins(m, a), b),
    decreases b.len(),
{
    if b.len() == 0 {
        assert(a + b =~= a);
    } else {
        assert((a + b).drop_last() =~= a + b.drop_last());
        lemma_first_wins_concat(m, a, b.drop_last());
    }
}

pub proof fn lemma_last_wins_concat(
    m: Map<Seq<char>, Seq<char>>,
    a: Seq<(Seq<char>, Seq<char>)>,
    b: Seq<(Seq<char>, Seq<char>)>,
)
    ensures
        last_wins(m, a + b) == last_wins(last_wins(m, a), b),
    decreases b.len(),
{
    if b.len() == 0 {
        assert(a + b =~= a);
    } else {
        assert((a + b).drop_last() =~= a + b.drop_last());
        lemma_last_wins_concat(m, a, b.drop_last());
    }
}

fn scalar_string(v: &Json) -> (r: String)
    ensures
        r@ == scalar_text(v@),
{
    match v {
        Json::Text(x) => x.clone(),
        Json::Num(n) => text_of_number(n),
        Json::Bool(b) => if *b {
            "true".to_owned()
        } else {
            "false".to_owned()
        },
        _ => String::new(),
    }
}

/// Harvests every pair of a payload, whatever it is nested in. The first pair with a
/// key stays.
pub fn harvest_pairs(v: &Json, out: &mut TextMap)
    ensures
        final(out)@ == first_wins(old(out)@, pairs_in(v@)),
    decreases v,
{
    match v {
        Json::Dict(m) => {
            let ghost start = out@;
            let ghost shown = v@->Dict_0;
            proof {
                use_type_invariant(m);
                lemma_dict_tree(*m);
            }
            let title = match v.get("title") {
                Some(t) => t.as_str(),
                None => None,
            };
            let value = v.get("value");
            match (title, value) {
                (Some(k), Some(val)) => {
                    let content = scalar_string(val);
                    if !is_blank(k) && !is_blank(content.as_str()) {
                        proof {
                            let pair = (trimmed(k@), content@);
                            assert(own_pair(shown) == seq![pair]);
                            assert(seq![pair].drop_last() =~= Seq::empty());
                            assert(first_wins(start, seq![pair].drop_last()) == start);
                        }
                        out.or_insert(k.trim().to_owned(), content);
                    }
                },
                _ => {},
            }
            assert(out@ == first_wins(start, own_pair(shown)));
            let ghost parts = pairs_below(v@);
            assert(parts.take(0).flatten() =~= Seq::empty());
            assert(own_pair(shown) + Seq::empty() =~= own_pair(shown));
            let n = m.len();
            for i in 0..n
                invariant
                    n == m.pairs().len(),
                    n == shown.len(),
                    n == parts.len(),
                    *v == Json::Dict(*m),
                    v@ == JsonView::Dict(shown),
                    parts == pairs_below(v@),
                    forall|k: int| 0 <= k < n ==> #[trigger] shown[k] == (m.pairs()[k].0, m.pairs()[k].1@),
                    out@ == first_wins(start, own_pair(shown) + parts.take(i as int).flatten()),
            {
                let child = m.value_at(i);
                assert(decreases_to!(*v => *child)) by {
                    assert(decreases_to!(*v => v->Dict_0));
                    m.lemma_smaller(i as int);
                }
                harvest_pairs(child, out);
                proof {
                    assert(shown[i as int].1 == child@);
                    assert(parts[i as int] == pairs_in(child@));
                    crate::seqs::lemma_flatten_step(parts, i as int);
                    let before = own_pair(shown) + parts.take(i as int).flatten();
                    lemma_first_wins_concat(start, before, parts[i as int]);
                    assert(before + parts[i as int] =~= own_pair(shown) + parts.take(i + 1).flatten());
                }
            }
            assert(parts.take(n as int) =~= parts);
        },
        Json::List(list) => {
            let ghost start = out@;
            let ghost shown = crate::json::trees(list@);
            let ghost parts = pairs_below(v@);
            proof {
                lemma_list_tree(*list);
                assert(parts.take(0).flatten() =~= Seq::empty());
            }
            for i in 0..list.len()
                invariant
                    shown == crate::json::trees(list@),
                    *v == Json::List(*list),
                    v@ == JsonView::List(shown),
                    parts == pairs_below(v@),
                    parts.len() == list@.len(),
                    out@ == first_wins(start, parts.take(i as int).flatten()),
            {
                let child = &list[i];
                assert(decreases_to!(*v => *child)) by {
                    assert(decreases_to!(*v => v->List_0));
                    assert(decreases_to!(*list => list@));
                    assert(decreases_to!(list@ => list@[i as int]));
                }
                harvest_pairs(child, out);
                proof {
                    assert(parts[i as int] == pairs_in(child@));
                    crate::seqs::lemma_flatten_step(parts, i as int);
                    lemma_first_wins_concat(start, parts.take(i as int).flatten(), parts[i as int]);
                }
            }
            assert(parts.take(list@.len() as int) =~= parts);
        },
        _ => {
            assert(pairs_in(v@) =~= Seq::empty());
        },
    }
}

/// Where a scalar stands in nested objects: the text of it under its path, and so on
/// for each member that is an object; other members give nothing.
pub open spec fn scalars_in(v: JsonView, prefix: Seq<char>) -> Seq<(Seq<char>, Seq<char>)>
    decreases v, 1nat,
{
    scalars_below(v, prefix).flatten()
}

/// What each member gives under `prefix`.
pub open spec fn scalars_below(v: JsonView, prefix: Seq<char>) -> Seq<Seq<(Seq<char>, Seq<char>)>>
    decreases v, 0nat,
{
    match v {
        JsonView::Dict(pairs) => Seq::new(
            pairs.len(),
            |i: int|
                if 0 <= i < pairs.len() {
                    match pairs[i].1 {
                        JsonView::Dict(_) => scalars_in(pairs[i].1, prefix + pairs[i].0 + "_"@),
                        JsonView::List(_) => Seq::empty(),
                        JsonView::Null => Seq::empty(),
                        _ => seq![(prefix + pairs[i].0, plain(Some(pairs[i].1)))],
                    }
                } else {
                    arbitrary()
                },
        ),
        _ => Seq::empty(),
    }
}

/// Puts the scalars of nested objects under their paths, joined with `_`.
pub fn flatten_scalars(v: &Json, prefix: &str, out: &mut TextMap)
    ensures
        final(out)@ == last_wins(old(out)@, scalars_in(v@, prefix@)),
    decreases v,
{
    let ghost parts = scalars_below(v@, prefix@);
    assert(parts.take(0).flatten() =~= Seq::empty());
    match v {
        Json::Dict(m) => {
            let ghost start = out@;
            let ghost shown = v@->Dict_0;
            proof {
                use_type_invariant(m);
                lemma_dict_tree(*m);
            }
            let n = m.len();
            for i in 0..n
                invariant
                    n == m.pairs().len(),
                    n == shown.len(),
                    n == parts.len(),
                    *v == Json::Dict(*m),
                    v@ == JsonView::Dict(shown),
                    parts == scalars_below(v@, prefix@),
                    forall|k: int| 0 <= k < n ==> #[trigger] shown[k] == (m.pairs()[k].0, m.pairs()[k].1@),
                    out@ == last_wins(start, parts.take(i as int).flatten()),
            {
                let child = m.value_at(i);
                let key = m.key_at(i);
                proof {
                    assert(shown[i as int] == (key@, child@));
                    crate::seqs::lemma_flatten_step(parts, i as int);
                    lemma_last_wins_concat(start, parts.take(i as int).flatten(), parts[i as int]);
                }
                match child {
                    Json::Dict(_) => {
                        assert(decreases_to!(*v => *child)) by {
                            assert(decreases_to!(*v => v->Dict_0));
                            m.lemma_smaller(i as int);
                        }
                        let path = prefix.to_owned().concat(key.as_str()).concat("_");
                        flatten_scalars(child, path.as_str(), out);
                    },
                    Json::List(_) => {
                        assert(parts[i as int] =~= Seq::empty());
                    },
                    Json::Null => {
                        assert(parts[i as int] =~= Seq::empty());
                    },
                    _ => {
                        let ghost before = out@;
                        let path = prefix.to_owned().concat(key.as_str());
                        let cell = s(Some(child));
                        proof {
                            let one = seq![(path@, cell@)];
                            assert(parts[i as int] == one);
                            assert(one.drop_last() =~= Seq::empty());
                            assert(last_wins(before, one.drop_last()) == before);
                        }
                        out.insert(path, cell);
                    },
                }
            }
            assert(parts.take(n as int) =~= parts);
        },
        _ => {
            assert(parts.flatten() =~= Seq::empty());
        },
    }
}

/// `part` stands somewhere in `v`.
pub open spec fn has_part(v: JsonView, part: JsonView) -> bool
    decreases v,
{
    v == part || match v {
        JsonView::List(list) => exists|i: int| 0 <= i < list.len() && has_part(#[trigger] list[i], part),
        JsonView::Dict(pairs) => exists|i: int| 0 <= i < pairs.len() && has_part((#[trigger] pairs[i]).1, part),
        _ => false,
    }
}

/// The pair of an object is found, however deep in the payload the object stands and
/// whatever stands around it.
pub proof fn law_nested_pairs_are_found(v: JsonView, pairs: Seq<(Seq<char>, JsonView)>)
    requires
        has_part(v, JsonView::Dict(pairs)),
        own_pair(pairs).len() > 0,
    ensures
        pairs_in(v).contains(own_pair(pairs)[0]),
    decreases v,
{
    let part = JsonView::Dict(pairs);
    let pair = own_pair(pairs)[0];
    if v == part {
        assert(pairs_in(v)[0] == pair);
    } else {
        let parts = pairs_below(v);
        match v {
            JsonView::List(list) => {
                let i = choose|i: int| 0 <= i < list.len() && has_part(#[trigger] list[i], part);
                law_nested_pairs_are_found(list[i], pairs);
                assert(parts[i] == pairs_in(list[i]));
                crate::seqs::lemma_flatten_has(parts, i, pair);
            },
            JsonView::Dict(members) => {
                let i = choose|i: int| 0 <= i < members.len() && has_part((#[trigger] members[i]).1, part);
                law_nested_pairs_are_found(members[i].1, pairs);
                assert(parts[i] == pairs_in(members[i].1));
                crate::seqs::lemma_flatten_has(parts, i, pair);
                let own = own_pair(members);
                let below = parts.flatten();
                let k = choose|k: int| 0 <= k < below.len() && below[k] == pair;
                assert((own + below)[own.len() + k] == pair);
            },
            _ => {},
        }
    }
}

/// Every key among the pairs is in the map that they are added to.
pub proof fn lemma_first_wins_keys(m: Map<Seq<char>, Seq<char>>, pairs: Seq<(Seq<char>, Seq<char>)>)
    ensures
        forall|k: Seq<char>| m.contains_key(k) ==> #[trigger] first_wins(m, pairs).contains_key(k),
        forall|i: int| 0 <= i < pairs.len() ==> first_wins(m, pairs).contains_key((#[trigger] pairs[i]).0),
    decreases pairs.len(),
{
    if pairs.len() > 0 {
        let front = first_wins(m, pairs.drop_last());
        lemma_first_wins_keys(m, pairs.drop_last());
        assert forall|k: Seq<char>| m.contains_key(k) implies #[trigger] first_wins(m, pairs).contains_key(k) by {
            assert(front.contains_key(k));
        }
        assert forall|i: int| 0 <= i < pairs.len() implies first_wins(m, pairs).contains_key((#[trigger] pairs[i]).0) by {
            if i < pairs.len() - 1 {
                assert(pairs.drop_last()[i] == pairs[i]);
            }
        }
    }
}

pub proof fn lemma_last_wins_keys(m: Map<Seq<char>, Seq<char>>, pairs: Seq<(Seq<char>, Seq<char>)>)
    ensures
        forall|k: Seq<char>| m.contains_key(k) ==> #[trigger] last_wins(m, pairs).contains_key(k),
    decreases pairs.len(),
{
    if pairs.len() > 0 {
        let front = last_wins(m, pairs.drop_last());
        lemma_last_wins_keys(m, pairs.drop_last());
        assert forall|k: Seq<char>| m.contains_key(k) implies #[trigger] last_wins(m, pairs).contains_key(k) by {
            assert(front.contains_key(k));
        }
    }
}

} // verus!
