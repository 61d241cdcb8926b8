//! The numbers of cities, read out of a payload of any shape.

use vstd::prelude::*;
use crate::json::{lemma_dict_tree, lemma_list_tree, text_of_number, trees, written, Json, JsonView};
use crate::keymap::{has_key, lookup};
use crate::probe::{is_listed, with_new};
use crate::text::{all_digits, is_digits, texts};

verus! {

/// The text of a numeric id: that of a number, or a string of digits. Nothing for any
/// other value.
pub open spec fn id_text(v: JsonView) -> Seq<char> {
    match v {
        JsonView::Text(s) => if all_digits(s) {
            s
        } else {
            Seq::empty()
        },
        JsonView::Num(n) => written(n),
        _ => Seq::empty(),
    }
}

/// The numeric id of an object that has a name.
pub open spec fn own_id(pairs: Seq<(Seq<char>, JsonView)>) -> Seq<Seq<char>> {
    match lookup(pairs, "id"@) {
        Some(v) => if (has_key(pairs, "name"@) || has_key(pairs, "slug"@)) && id_text(v).len() > 0 {
            seq![id_text(v)]
        } else {
            Seq::empty()
        },
        None => Seq::empty(),
    }
}

/// Every numeric id in a payload that stands next to a name, an object's own before those of
/// its members.
pub open spec fn ids_in(v: JsonView) -> Seq<Seq<char>>
    decreases v, 1nat,
{
    match v {
        JsonView::Dict(pairs) => own_id(pairs) + ids_below(v).flatten(),
        _ => ids_below(v).flatten(),
    }
}

/// The ids in each member of an object or item of an array.
pub open spec fn ids_below(v: JsonView) -> Seq<Seq<Seq<char>>>
    decreases v, 0nat,
{
    match v {
        JsonView::Dict(pairs) => Seq::new(
            pairs.len(),
            |i: int|
                if 0 <= i < pairs.len() {
                    ids_in(pairs[i].1)
                } else {
                    arbitrary()
                },
        ),
        JsonView::List(list) => Seq::new(
            list.len(),
            |i: int|
                if 0 <= i < list.len() {
                    ids_in(list[i])
                } else {
                    arbitrary()
                },
        ),
        _ => Seq::empty(),
    }
}

proof fn lemma_with_new_concat(list: Seq<Seq<char>>, a: Seq<Seq<char>>, b: Seq<Seq<char>>)
    ensures
        with_new(list, a + b) == with_new(with_new(list, a), b),
    decreases b.len(),
{
    if b.len() == 0 {
        assert(a + b =~= a);
    } else {
        assert((a + b).drop_last() =~= a + b.drop_last());
        lemma_with_new_concat(list, a, b.drop_last());
    }
}

fn id_string(v: &Json) -> (r: String)
    ensures
        r@ == id_text(v@),
{
    match v {
        Json::Text(x) => if is_digits(x.as_str()) {
            x.clone()
        } else {
            String::new()
        },
        Json::Num(n) => text_of_number(n),
        _ => String::new(),
    }
}

/// Adds every numeric id in a payload that stands next to a name and is not in the list yet.
/// Payloads nest their cities differently, so no shape is asked for.
pub fn collect_city_ids(v: &Json, out: &mut Vec<String>)
    ensures
        texts(final(out)@) == with_new(texts(old(out)@), ids_in(v@)),
    decreases v,
{
    match v {
        Json::Dict(m) => {
            let ghost start = texts(out@);
            let ghost shown = v@->Dict_0;
            proof {
                use_type_invariant(m);
                lemma_dict_tree(*m);
                crate::json::lemma_lookup_tree(*m, "name"@);
                crate::json::lemma_lookup_tree(*m, "slug"@);
            }
            if m.contains_key("name") || m.contains_key("slug") {
                match v.get("id") {
                    Some(id) => {
                        let found = id_string(id);
                        if !found.as_str().is_empty() {
                            proof {
                                assert(own_id(shown) == seq![found@]);
                                assert(seq![found@].drop_last() =~= Seq::empty());
                                assert(with_new(start, seq![found@].drop_last()) == start);
                            }
                            if !is_listed(out, found.as_str()) {
                                let ghost now = found@;
                                out.push(found);
                                assert(texts(out@) =~= start.push(now));
                            }
                        }
                    },
                    None => {},
                }
            }
            assert(texts(out@) == with_new(start, own_id(shown)));
            let ghost parts = ids_below(v@);
            assert(parts.take(0).flatten() =~= Seq::empty());
            assert(own_id(shown) + Seq::empty() =~= own_id(shown));
            let n = m.len();
            for i in 0..n
                invariant
                    n == m.pairs().len(),
                    n == shown.len(),
                    n == parts.len(),
                    *v == Json::Dict(*m),
                    v@ == JsonView::Dict(shown),
                    parts == ids_below(v@),
                    forall|k: int| 0 <= k < n ==> #[trigger] shown[k] == (m.pairs()[k].0, m.pairs()[k].1@),
                    texts(out@) == with_new(start, own_id(shown) + parts.take(i as int).flatten()),
            {
                let child = m.value_at(i);
                assert(decreases_to!(*v => *child)) by {
                    assert(decreases_to!(*v => v->Dict_0));
                    m.lemma_smaller(i as int);
                }
                collect_city_ids(child, out);
                proof {
                    assert(shown[i as int].1 == child@);
                    assert(parts[i as int] == ids_in(child@));
                    crate::seqs::lemma_flatten_step(parts, i as int);
                    let before = own_id(shown) + parts.take(i as int).flatten();
                    lemma_with_new_concat(start, before, parts[i as int]);
                    assert(before + parts[i as int] =~= own_id(shown) + parts.take(i + 1).flatten());
                }
            }
            assert(parts.take(n as int) =~= parts);
        },
        Json::List(list) => {
            let ghost start = texts(out@);
            let ghost shown = trees(list@);
            let ghost parts = ids_below(v@);
            proof {
                lemma_list_tree(*list);
                assert(parts.take(0).flatten() =~= Seq::empty());
            }
            for i in 0..list.len()
                invariant
                    shown == trees(list@),
                    *v == Json::List(*list),
                    v@ == JsonView::List(shown),
                    parts == ids_below(v@),
                    parts.len() == list@.len(),
                    texts(out@) == with_new(start, parts.take(i as int).flatten()),
            {
                let child = &list[i];
                assert(decreases_to!(*v => *child)) by {
                    assert(decreases_to!(*v => v->List_0));
                    assert(decreases_to!(*list => list@));
                    assert(decreases_to!(list@ => list@[i as int]));
                }
                collect_city_ids(child, out);
                proof {
                    assert(parts[i as int] == ids_in(child@));
                    crate::seqs::lemma_flatten_step(parts, i as int);
                    lemma_with_new_concat(start, parts.take(i as int).flatten(), parts[i as int]);
                }
            }
            assert(parts.take(list@.len() as int) =~= parts);
        },
        _ => {
            assert(ids_in(v@) =~= Seq::empty());
        },
    }
}

} // verus!
