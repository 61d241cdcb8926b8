//! What is harvested from a payload wherever it stands: pairs, scalars and city ids.

use vstd::prelude::*;
use crate::cities::{ids_below, ids_in, own_id};
use crate::codec::json_text;
use crate::flatten::{analysis, column_names, harvested, is_row_of, sections, Row};
use crate::harvest::{
    first_wins, has_part, last_wins, own_pair, pairs_below, pairs_in, plain, scalar_text, scalars_below, scalars_in,
};
use crate::json::{items, member, number_text, number_u64, text, JsonView};
use crate::text::{decimal, trimmed};

verus! {

/// The text of a value: its own for a string, a number or a truth value, nothing for
/// null or for no value, JSON text for an array or an object.
pub proof fn law_texts_of_values(v: JsonView)
    ensures
        plain(None).len() == 0,
        v == JsonView::Null ==> plain(Some(v)).len() == 0,
        v matches JsonView::Text(t) ==> plain(Some(v)) == t,
        v == JsonView::Bool(true) ==> plain(Some(v)) == "true"@,
        v == JsonView::Bool(false) ==> plain(Some(v)) == "false"@,
        v matches JsonView::Num(n) ==> plain(Some(v)) == match number_u64(n) {
            Some(k) => decimal(k as nat),
            None => number_text(n),
        },
        v is List || v is Dict ==> plain(Some(v)) == json_text(v),
{
}

/// An object makes a pair of its "title", a text that is not blank, and its "value", a
/// string, number or truth value that is not blank. The title is trimmed, the value is
/// not. Any other object makes none.
pub proof fn law_own_pair(pairs: Seq<(Seq<char>, JsonView)>, title: Seq<char>, value: JsonView)
    ensures
        ({
            let key = member(JsonView::Dict(pairs), "title"@);
            let said = member(JsonView::Dict(pairs), "value"@);
            &&& text(key) is None || said is None ==> own_pair(pairs).len() == 0
            &&& key == Some(JsonView::Text(title)) && said == Some(value) ==> {
                &&& trimmed(title).len() == 0 ==> own_pair(pairs).len() == 0
                &&& value is Null || value is List || value is Dict ==> own_pair(pairs).len() == 0
                &&& value is Text || value is Num || value is Bool ==> {
                    &&& trimmed(plain(Some(value))).len() == 0 ==> own_pair(pairs).len() == 0
                    &&& trimmed(title).len() > 0 && trimmed(plain(Some(value))).len() > 0 ==> own_pair(pairs) == seq![
                        (trimmed(title), plain(Some(value))),
                    ]
                }
            }
        }),
{
    let empty = Seq::<char>::empty();
    assert(trimmed(empty).len() == 0);
    assert(scalar_text(JsonView::Null) == empty);
}

proof fn lemma_flatten_concat<A>(a: Seq<Seq<A>>, b: Seq<Seq<A>>)
    ensures
        (a + b).flatten() == a.flatten() + b.flatten(),
    decreases b.len(),
{
    if b.len() == 0 {
        assert(a + b =~= a);
        assert(b.flatten() =~= Seq::empty());
        assert(a.flatten() + b.flatten() =~= a.flatten());
    } else {
        let front = b.drop_last();
        lemma_flatten_concat(a, front);
        (a + front).lemma_flatten_push(b.last());
        front.lemma_flatten_push(b.last());
        assert((a + front).push(b.last()) =~= a + b);
        assert(front.push(b.last()) =~= b);
        assert((a + b).flatten() =~= a.flatten() + b.flatten());
    }
}

proof fn lemma_flatten_single<A>(one: Seq<A>)
    ensures
        seq![one].flatten() == one,
{
    let none = Seq::<Seq<A>>::empty();
    none.lemma_flatten_push(one);
    assert(none.push(one) =~= seq![one]);
    assert(none.flatten() =~= Seq::empty());
    assert(none.flatten() + one =~= one);
}

/// Pairs are found in the order in which the payload holds them: an object's own before
/// those of its members, those of an item before those of the next. What is neither an
/// array nor an object has none.
pub proof fn law_pairs_in_order(v: JsonView, a: Seq<JsonView>, b: Seq<JsonView>, pairs: Seq<(Seq<char>, JsonView)>)
    ensures
        !(v is List) && !(v is Dict) ==> pairs_in(v).len() == 0,
        pairs_in(JsonView::List(seq![v])) == pairs_in(v),
        pairs_in(JsonView::List(a + b)) == pairs_in(JsonView::List(a)) + pairs_in(JsonView::List(b)),
        pairs_in(JsonView::Dict(pairs)) == own_pair(pairs) + pairs_in(
            JsonView::List(pairs.map_values(|p: (Seq<char>, JsonView)| p.1)),
        ),
{
    if !(v is List) && !(v is Dict) {
        assert(pairs_below(v).flatten() =~= Seq::empty());
    }
    assert(pairs_below(JsonView::List(seq![v])) =~= seq![pairs_in(v)]);
    lemma_flatten_single(pairs_in(v));
    assert(pairs_below(JsonView::List(a + b)) =~= pairs_below(JsonView::List(a)) + pairs_below(JsonView::List(b)));
    lemma_flatten_concat(pairs_below(JsonView::List(a)), pairs_below(JsonView::List(b)));
    let values = pairs.map_values(|p: (Seq<char>, JsonView)| p.1);
    assert(pairs_below(JsonView::Dict(pairs)) =~= pairs_below(JsonView::List(values)));
}

/// Every pair that is found is that of some object in the payload.
pub proof fn law_pairs_are_those_of_objects(v: JsonView, p: (Seq<char>, Seq<char>))
    requires
        pairs_in(v).contains(p),
    ensures
        exists|pairs: Seq<(Seq<char>, JsonView)>| #[trigger]
            has_part(v, JsonView::Dict(pairs)) && own_pair(pairs) == seq![p],
    decreases v,
{
    let parts = pairs_below(v);
    match v {
        JsonView::Dict(members) => {
            let own = own_pair(members);
            let k = choose|k: int| 0 <= k < pairs_in(v).len() && pairs_in(v)[k] == p;
            if k < own.len() {
                assert(own[k] == p);
                assert(own =~= seq![p]);
                assert(has_part(v, JsonView::Dict(members)));
            } else {
                assert(parts.flatten()[k - own.len()] == p);
                let i = lemma_in_part(parts, p);
                assert(parts[i] == pairs_in(members[i].1));
                law_pairs_are_those_of_objects(members[i].1, p);
                let pairs = choose|pairs: Seq<(Seq<char>, JsonView)>| #[trigger]
                    has_part(members[i].1, JsonView::Dict(pairs)) && own_pair(pairs) == seq![p];
                assert(has_part(v, JsonView::Dict(pairs)));
            }
        },
        JsonView::List(list) => {
            let i = lemma_in_part(parts, p);
            assert(parts[i] == pairs_in(list[i]));
            law_pairs_are_those_of_objects(list[i], p);
            let pairs = choose|pairs: Seq<(Seq<char>, JsonView)>| #[trigger]
                has_part(list[i], JsonView::Dict(pairs)) && own_pair(pairs) == seq![p];
            assert(has_part(v, JsonView::Dict(pairs)));
        },
        _ => {
            assert(parts.flatten() =~= Seq::empty());
        },
    }
}

proof fn lemma_in_part<A>(parts: Seq<Seq<A>>, x: A) -> (i: int)
    requires
        parts.flatten().contains(x),
    ensures
        0 <= i < parts.len(),
        parts[i].contains(x),
    decreases parts.len(),
{
    if parts.len() == 0 {
        assert(parts.flatten() =~= Seq::empty());
        0
    } else {
        let n = parts.len() - 1;
        let front = parts.drop_last();
        assert(parts.take(n + 1) =~= parts);
        assert(parts.take(n) =~= front);
        crate::seqs::lemma_flatten_step(parts, n);
        let k = choose|k: int| 0 <= k < parts.flatten().len() && parts.flatten()[k] == x;
        if k < front.flatten().len() {
            assert(front.flatten()[k] == x);
            let i = lemma_in_part(front, x);
            assert(front[i] == parts[i]);
            i
        } else {
            assert(parts[n][k - front.flatten().len()] == x);
            n
        }
    }
}

/// Of pairs with one key the first stays, and what the map holds already stays over
/// them all.
pub proof fn law_first_wins(m: Map<Seq<char>, Seq<char>>, pairs: Seq<(Seq<char>, Seq<char>)>, key: Seq<char>, i: int)
    ensures
        m.contains_key(key) ==> first_wins(m, pairs).contains_key(key) && first_wins(m, pairs)[key] == m[key],
        !m.contains_key(key) && 0 <= i < pairs.len() && pairs[i].0 == key && (forall|j: int|
            0 <= j < i ==> (#[trigger] pairs[j]).0 != key) ==> first_wins(m, pairs).contains_key(key) && first_wins(
            m,
            pairs,
        )[key] == pairs[i].1,
        !m.contains_key(key) && (forall|j: int| 0 <= j < pairs.len() ==> (#[trigger] pairs[j]).0 != key)
            ==> !first_wins(m, pairs).contains_key(key),
    decreases pairs.len(),
{
    if pairs.len() > 0 {
        let front = pairs.drop_last();
        let n = pairs.len() - 1;
        law_first_wins(m, front, key, i);
        assert(pairs[n] == pairs.last());
        if !m.contains_key(key) && 0 <= i < pairs.len() && pairs[i].0 == key && (forall|j: int|
            0 <= j < i ==> (#[trigger] pairs[j]).0 != key) {
            assert forall|j: int| 0 <= j < i && j < n implies (#[trigger] front[j]).0 != key by {
                assert(front[j] == pairs[j]);
            }
            if i < n {
                assert(front[i] == pairs[i]);
            }
        }
        if forall|j: int| 0 <= j < pairs.len() ==> (#[trigger] pairs[j]).0 != key {
            assert forall|j: int| 0 <= j < front.len() implies (#[trigger] front[j]).0 != key by {
                assert(front[j] == pairs[j]);
            }
        }
    }
}

/// Of pairs with one key the last is taken, over what the map holds already.
pub proof fn law_last_wins(m: Map<Seq<char>, Seq<char>>, pairs: Seq<(Seq<char>, Seq<char>)>, key: Seq<char>, i: int)
    ensures
        0 <= i < pairs.len() && pairs[i].0 == key && (forall|j: int| i < j < pairs.len() ==> (#[trigger] pairs[j]).0 != key)
            ==> last_wins(m, pairs).contains_key(key) && last_wins(m, pairs)[key] == pairs[i].1,
        (forall|j: int| 0 <= j < pairs.len() ==> (#[trigger] pairs[j]).0 != key) ==> {
            &&& last_wins(m, pairs).contains_key(key) <==> m.contains_key(key)
            &&& m.contains_key(key) ==> last_wins(m, pairs)[key] == m[key]
        },
    decreases pairs.len(),
{
    if pairs.len() > 0 {
        let front = pairs.drop_last();
        let n = pairs.len() - 1;
        law_last_wins(m, front, key, i);
        assert(pairs[n] == pairs.last());
        if 0 <= i < n {
            assert(front[i] == pairs[i]);
        }
        if 0 <= i && (forall|j: int| i < j < pairs.len() ==> (#[trigger] pairs[j]).0 != key) {
            assert forall|j: int| i < j < front.len() implies (#[trigger] front[j]).0 != key by {
                assert(front[j] == pairs[j]);
            }
        }
        if forall|j: int| 0 <= j < pairs.len() ==> (#[trigger] pairs[j]).0 != key {
            assert forall|j: int| 0 <= j < front.len() implies (#[trigger] front[j]).0 != key by {
                assert(front[j] == pairs[j]);
            }
        }
    }
}

/// Scalars are taken out of objects only, member by member. A string, number or truth
/// value is taken under its key behind the prefix, an object's members behind the
/// prefix, its key and "_"; null and arrays give nothing.
pub proof fn law_scalars(
    v: JsonView,
    prefix: Seq<char>,
    key: Seq<char>,
    a: Seq<(Seq<char>, JsonView)>,
    b: Seq<(Seq<char>, JsonView)>,
)
    ensures
        !(v is Dict) ==> scalars_in(v, prefix).len() == 0,
        scalars_in(JsonView::Dict(a + b), prefix) == scalars_in(JsonView::Dict(a), prefix) + scalars_in(
            JsonView::Dict(b),
            prefix,
        ),
        v is Null || v is List ==> scalars_in(JsonView::Dict(seq![(key, v)]), prefix).len() == 0,
        v is Text || v is Num || v is Bool ==> scalars_in(JsonView::Dict(seq![(key, v)]), prefix) == seq![
            (prefix + key, plain(Some(v))),
        ],
        v is Dict ==> scalars_in(JsonView::Dict(seq![(key, v)]), prefix) == scalars_in(v, prefix + key + "_"@),
{
    if !(v is Dict) {
        assert(scalars_below(v, prefix).flatten() =~= Seq::empty());
    }
    assert(scalars_below(JsonView::Dict(a + b), prefix) =~= scalars_below(JsonView::Dict(a), prefix) + scalars_below(
        JsonView::Dict(b),
        prefix,
    ));
    lemma_flatten_concat(scalars_below(JsonView::Dict(a), prefix), scalars_below(JsonView::Dict(b), prefix));
    let one = scalars_below(JsonView::Dict(seq![(key, v)]), prefix);
    assert(one.len() == 1);
    assert(one =~= seq![one[0]]);
    lemma_flatten_single(one[0]);
}

/// What a payload holds for a key: what it gives for analysis under "analytics" counts
/// most, then what it gives under "webengage", then the first pair in its sections.
pub proof fn law_harvest(detail: JsonView, key: Seq<char>, i: int)
    ensures
        ({
            let m = harvested(detail);
            let under = |name: Seq<char>, prefix: Seq<char>|
                match member(detail, name) {
                    Some(v) => scalars_in(v, prefix),
                    None => Seq::empty(),
                };
            let most = under("analytics"@, "analytics_"@);
            let more = under("webengage"@, "webengage_"@);
            let base = pairs_in(JsonView::List(items(member(detail, "sections"@))));
            let silent = |list: Seq<(Seq<char>, Seq<char>)>|
                forall|j: int| 0 <= j < list.len() ==> (#[trigger] list[j]).0 != key;
            let last = |list: Seq<(Seq<char>, Seq<char>)>|
                0 <= i < list.len() && list[i].0 == key && forall|j: int|
                    i < j < list.len() ==> (#[trigger] list[j]).0 != key;
            let first = |list: Seq<(Seq<char>, Seq<char>)>|
                0 <= i < list.len() && list[i].0 == key && forall|j: int| 0 <= j < i ==> (#[trigger] list[j]).0 != key;
            &&& last(most) ==> m.contains_key(key) && m[key] == most[i].1
            &&& silent(most) && last(more) ==> m.contains_key(key) && m[key] == more[i].1
            &&& silent(most) && silent(more) && first(base) ==> m.contains_key(key) && m[key] == base[i].1
            &&& silent(most) && silent(more) && silent(base) ==> !m.contains_key(key)
        }),
{
    let none = Map::<Seq<char>, Seq<char>>::empty();
    let most = analysis(detail, "analytics"@, "analytics_"@);
    let more = analysis(detail, "webengage"@, "webengage_"@);
    let list = items(member(detail, "sections"@));
    let base = pairs_in(JsonView::List(list));
    let parts = sections(detail).map_values(|section: JsonView| pairs_in(section));
    assert(parts =~= pairs_below(JsonView::List(list)));
    let shown = first_wins(none, base);
    let engaged = last_wins(shown, more);
    law_first_wins(none, base, key, i);
    law_last_wins(shown, more, key, i);
    law_last_wins(engaged, most, key, i);
}

/// A row's other cells are what was harvested, except under the names of the columns
/// that every table has.
pub proof fn law_row_harvest(row: Row, token: Seq<char>, detail: JsonView, fetched_at: u64, key: Seq<char>)
    requires
        is_row_of(row, token, detail, fetched_at),
    ensures
        row.dynamic@.contains_key(key) <==> harvested(detail).contains_key(key) && !column_names().contains(key),
        row.dynamic@.contains_key(key) ==> row.dynamic@[key] == harvested(detail)[key],
{
    assert(column_names().to_set().contains(key) <==> column_names().contains(key));
}

/// An object has an id where it has a name or a slug, and under "id" a number or a text
/// of digits.
pub proof fn law_own_id(pairs: Seq<(Seq<char>, JsonView)>, id: JsonView)
    ensures
        ({
            let object = JsonView::Dict(pairs);
            let named = member(object, "name"@) is Some || member(object, "slug"@) is Some;
            &&& member(object, "id"@) is None || !named ==> own_id(pairs).len() == 0
            &&& member(object, "id"@) == Some(id) && named ==> match id {
                JsonView::Num(n) => match number_u64(n) {
                    Some(k) => own_id(pairs) == seq![decimal(k as nat)],
                    None => number_text(n).len() > 0 ==> own_id(pairs) == seq![number_text(n)],
                },
                JsonView::Text(t) => {
                    &&& t.len() > 0 && (forall|i: int| 0 <= i < t.len() ==> '0' <= #[trigger] t[i] <= '9') ==> own_id(
                        pairs,
                    ) == seq![t]
                    &&& t.len() == 0 || (exists|i: int| 0 <= i < t.len() && !('0' <= #[trigger] t[i] <= '9')) ==> own_id(
                        pairs,
                    ).len() == 0
                },
                _ => own_id(pairs).len() == 0,
            }
        }),
{
    match id {
        JsonView::Num(n) => match number_u64(n) {
            Some(k) => {
                crate::text::lemma_decimal_digits(k as nat);
            },
            None => {},
        },
        JsonView::Text(t) => {
            if exists|i: int| 0 <= i < t.len() && !('0' <= #[trigger] t[i] <= '9') {
                let i = choose|i: int| 0 <= i < t.len() && !('0' <= #[trigger] t[i] <= '9');
                assert(!('0' as int <= t[i] as int <= '9' as int));
            }
        },
        _ => {},
    }
}

/// Ids are found in the order in which the payload holds them, an object's own before
/// those of its members.
pub proof fn law_ids_in_order(v: JsonView, a: Seq<JsonView>, b: Seq<JsonView>, pairs: Seq<(Seq<char>, JsonView)>)
    ensures
        !(v is List) && !(v is Dict) ==> ids_in(v).len() == 0,
        ids_in(JsonView::List(seq![v])) == ids_in(v),
        ids_in(JsonView::List(a + b)) == ids_in(JsonView::List(a)) + ids_in(JsonView::List(b)),
        ids_in(JsonView::Dict(pairs)) == own_id(pairs) + ids_in(
            JsonView::List(pairs.map_values(|p: (Seq<char>, JsonView)| p.1)),
        ),
{
    if !(v is List) && !(v is Dict) {
        assert(ids_below(v).flatten() =~= Seq::empty());
    }
    assert(ids_below(JsonView::List(seq![v])) =~= seq![ids_in(v)]);
    lemma_flatten_single(ids_in(v));
    assert(ids_below(JsonView::List(a + b)) =~= ids_below(JsonView::List(a)) + ids_below(JsonView::List(b)));
    lemma_flatten_concat(ids_below(JsonView::List(a)), ids_below(JsonView::List(b)));
    let values = pairs.map_values(|p: (Seq<char>, JsonView)| p.1);
    assert(ids_below(JsonView::Dict(pairs)) =~= ids_below(JsonView::List(values)));
}

/// The id of an object is found, however deep in the payload the object stands.
pub proof fn law_nested_ids_are_found(v: JsonView, pairs: Seq<(Seq<char>, JsonView)>)
    requires
        has_part(v, JsonView::Dict(pairs)),
        own_id(pairs).len() > 0,
    ensures
        ids_in(v).contains(own_id(pairs)[0]),
    decreases v,
{
    let part = JsonView::Dict(pairs);
    let id = own_id(pairs)[0];
    if v == part {
        assert(ids_in(v)[0] == id);
    } else {
        let parts = ids_below(v);
        match v {
            JsonView::List(list) => {
                let i = choose|i: int| 0 <= i < list.len() && has_part(#[trigger] list[i], part);
                law_nested_ids_are_found(list[i], pairs);
                assert(parts[i] == ids_in(list[i]));
                crate::seqs::lemma_flatten_has(parts, i, id);
            },
            JsonView::Dict(members) => {
                let i = choose|i: int| 0 <= i < members.len() && has_part((#[trigger] members[i]).1, part);
                law_nested_ids_are_found(members[i].1, pairs);
                assert(parts[i] == ids_in(members[i].1));
                crate::seqs::lemma_flatten_has(parts, i, id);
                let own = own_id(members);
                let below = parts.flatten();
                let k = choose|k: int| 0 <= k < below.len() && below[k] == id;
                assert((own + below)[own.len() + k] == id);
            },
            _ => {},
        }
    }
}

} // verus!
