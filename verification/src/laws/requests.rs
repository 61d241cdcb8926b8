//! The search feed: what a request holds, what is read of a page, and when the walk ends.

use vstd::prelude::*;
use crate::feed::{
    client_error, has_next, left_off, share, stale, success, tokens, turn, with_fresh, Turn,
};
use crate::json::{member, text, within, Json, JsonView};
use crate::keymap::{ascending, lemma_put, lookup};
use crate::probe::{known_categories, objection, occurrences, page_label, with_new};
use crate::search::{
    candidates, categorized, categorized_data, categorized_form, described, lemma_request_members, listing, listings,
    listings_among, members, request, single, CityView,
};
use crate::text::{decimal, list_items};

verus! {

/// The members of an object stand in the order of their keys. Of another value nothing
/// is said.
pub open spec fn orderly(v: Option<JsonView>) -> bool {
    match v {
        Some(JsonView::Dict(pairs)) => ascending(pairs),
        _ => true,
    }
}

/// Every request, for the first page or a later one, names the cities: their numbers
/// under "city_ids", or their names under "cities", or neither where cities are left out.
pub proof fn law_request_names_the_cities(
    city: CityView,
    list: Seq<Seq<char>>,
    category: Seq<char>,
    prev: Option<(JsonView, JsonView)>,
)
    ensures
        city == CityView::Ids(list) ==> {
            &&& member(request(city, category, prev), "city_ids"@) matches Some(JsonView::List(said))
            &&& said.len() == list.len()
            &&& forall|i: int| 0 <= i < list.len() ==> #[trigger] said[i] == JsonView::Text(list[i])
        },
        city == CityView::Ids(list) ==> member(request(city, category, prev), "cities"@) is None,
        city == CityView::Slugs(list) ==> {
            &&& member(request(city, category, prev), "cities"@) matches Some(JsonView::List(said))
            &&& said.len() == list.len()
            &&& forall|i: int| 0 <= i < list.len() ==> #[trigger] said[i] == JsonView::Text(list[i])
        },
        city == CityView::Slugs(list) ==> member(request(city, category, prev), "city_ids"@) is None,
        city == CityView::Omit ==> member(request(city, category, prev), "city_ids"@) is None && member(
            request(city, category, prev),
            "cities"@,
        ) is None,
{
    lemma_request_members(city, category, prev);
}

/// The first request has no page to go on from. A later one sends back what the last
/// page said of it, unless that was null.
pub proof fn law_request_goes_on(city: CityView, category: Seq<char>, echoed: JsonView, page: JsonView)
    ensures
        member(request(city, category, None), "pagination_data"@) is None,
        page != JsonView::Null ==> member(request(city, category, Some((echoed, page))), "pagination_data"@) == Some(page),
        page == JsonView::Null ==> member(request(city, category, Some((echoed, page))), "pagination_data"@) is None,
{
    lemma_request_members(city, category, None);
    lemma_request_members(city, category, Some((echoed, page)));
}

/// Nothing but the search data, the cities and the page is in a request.
pub proof fn law_request_holds_nothing_else(
    city: CityView,
    category: Seq<char>,
    prev: Option<(JsonView, JsonView)>,
    key: Seq<char>,
)
    requires
        key != "search_data"@,
        key != "city_ids"@,
        key != "cities"@,
        key != "pagination_data"@,
    ensures
        member(request(city, category, prev), key) is None,
{
    lemma_request_members(city, category, prev);
}

proof fn lemma_categorized(echoed: JsonView, category: Seq<char>)
    requires
        orderly(Some(echoed)),
        orderly(member(echoed, "form_data"@)),
        orderly(within(member(echoed, "form_data"@), "data"@)),
    ensures
        ({
            let asked = Some(categorized(echoed, category));
            let form = member(echoed, "form_data"@);
            let data = within(form, "data"@);
            &&& within(within(within(within(within(asked, "form_data"@), "data"@), "category"@), "str"@), "value"@) == Some(
                JsonView::Text(category),
            )
            &&& forall|key: Seq<char>| key != "form_data"@ ==> #[trigger] within(asked, key) == member(echoed, key)
            &&& forall|key: Seq<char>|
                key != "data"@ ==> #[trigger] within(within(asked, "form_data"@), key) == within(form, key)
            &&& forall|key: Seq<char>|
                key != "category"@ ==> #[trigger] within(within(within(asked, "form_data"@), "data"@), key) == within(
                    data,
                    key,
                )
        }),
{
    let none = Seq::<(Seq<char>, JsonView)>::empty();
    let form = member(echoed, "form_data"@);
    let data = within(form, "data"@);
    assert(data == lookup(members(form), "data"@)) by {
        assert(lookup(none, "data"@) is None);
    }
    let wanted = JsonView::Text(category);
    let filter = single("str"@, single("value"@, wanted));
    lemma_put(none, "value"@, wanted);
    lemma_put(none, "str"@, single("value"@, wanted));
    lemma_put(members(data), "category"@, filter);
    lemma_put(members(form), "data"@, categorized_data(data, category));
    lemma_put(members(Some(echoed)), "form_data"@, categorized_form(form, category));
    assert forall|key: Seq<char>| #[trigger] lookup(none, key) is None by {}
}

/// Every request asks for the category, at its place in the search data. What the
/// server sent back of the search data stays beside it.
pub proof fn law_request_asks_for_the_category(
    city: CityView,
    category: Seq<char>,
    echoed: JsonView,
    page: JsonView,
    key: Seq<char>,
)
    requires
        orderly(Some(echoed)),
        orderly(member(echoed, "form_data"@)),
        orderly(within(member(echoed, "form_data"@), "data"@)),
    ensures
        ({
            let asked = member(request(city, category, None), "search_data"@);
            within(within(within(within(within(asked, "form_data"@), "data"@), "category"@), "str"@), "value"@) == Some(
                JsonView::Text(category),
            )
        }),
        ({
            let asked = member(request(city, category, Some((echoed, page))), "search_data"@);
            let form = member(echoed, "form_data"@);
            let data = within(form, "data"@);
            &&& within(within(within(within(within(asked, "form_data"@), "data"@), "category"@), "str"@), "value"@) == Some(
                JsonView::Text(category),
            )
            &&& key != "form_data"@ ==> within(asked, key) == member(echoed, key)
            &&& key != "data"@ ==> within(within(asked, "form_data"@), key) == within(form, key)
            &&& key != "category"@ ==> within(within(within(asked, "form_data"@), "data"@), key) == within(data, key)
        }),
{
    lemma_request_members(city, category, None);
    lemma_request_members(city, category, Some((echoed, page)));
    lemma_categorized(JsonView::Null, category);
    lemma_categorized(echoed, category);
}

/// One word for the whole country is tried without cities, then with the number 0, then
/// with the name of the country. Any other list is taken as numbers.
pub proof fn law_ways_to_name_the_cities(raw: Seq<char>)
    ensures
        list_items(raw) == seq!["iran"@] || list_items(raw) == seq!["all"@] || list_items(raw) == seq!["0"@] ==> {
            &&& candidates(raw).len() == 3
            &&& candidates(raw)[0] == CityView::Omit
            &&& candidates(raw)[1] == CityView::Ids(seq!["0"@])
            &&& candidates(raw)[2] == CityView::Slugs(seq!["iran"@])
        },
        list_items(raw) != seq!["iran"@] && list_items(raw) != seq!["all"@] && list_items(raw) != seq!["0"@] ==> {
            &&& candidates(raw).len() == 1
            &&& candidates(raw)[0] == CityView::Ids(list_items(raw))
        },
{
    let ids = list_items(raw);
    if ids.len() == 1 {
        assert(ids =~= seq![ids[0]]);
        assert(seq!["iran"@][0] == "iran"@ && seq!["all"@][0] == "all"@ && seq!["0"@][0] == "0"@);
    }
}

/// What a way to name the cities is called: up to six numbers are shown, more are
/// counted.
pub proof fn law_city_modes_in_words(list: Seq<Seq<char>>)
    ensures
        list.len() <= 6 ==> described(CityView::Ids(list)) == "city_ids: "@ + crate::search::debug_text(list),
        list.len() >= 7 ==> described(CityView::Ids(list)) == "city_ids: "@ + decimal(list.len()) + " ids"@,
        described(CityView::Omit) == "no city field (whole country)"@,
        described(CityView::Slugs(list)) == "cities: "@ + crate::search::debug_text(list),
{
}

/// Only a request that failed speaks against a way to name the cities.
pub proof fn law_only_failures_object(city: CityView, outcome: Result<Json, String>)
    ensures
        outcome is Ok <==> objection(city, outcome) is None,
        outcome matches Err(message) ==> objection(city, outcome) == Some(described(city) + ": "@ + message@),
{
}

/// A widget shows a listing exactly where its payload has a text as token. The category
/// is that of the listing's own information, under "category_slug" or, where nothing is
/// there, under "category".
pub proof fn law_listing(widget: JsonView, slug: Seq<char>)
    ensures
        ({
            let payload = within(within(member(widget, "data"@), "action"@), "payload"@);
            let own = within(within(payload, "web_info"@), "category_slug"@);
            let other = within(within(payload, "web_info"@), "category"@);
            &&& listing(widget) is Some <==> text(within(payload, "token"@)) is Some
            &&& listing(widget) matches Some((t, s)) ==> {
                &&& within(payload, "token"@) == Some(JsonView::Text(t))
                &&& own == Some(JsonView::Text(slug)) ==> s == slug
                &&& own is None && other == Some(JsonView::Text(slug)) ==> s == slug
                &&& own is None && text(other) is None ==> s.len() == 0
                &&& own is Some && text(own) is None ==> s.len() == 0
            }
        }),
{
}

/// The listings of a page are those of the widgets in its list, in their order.
pub proof fn law_page_listings(page: JsonView, a: Seq<JsonView>, b: Seq<JsonView>, widget: JsonView)
    ensures
        member(page, "list_widgets"@) == Some(JsonView::List(a)) ==> listings(page) == listings_among(a),
        !(member(page, "list_widgets"@) matches Some(JsonView::List(_))) ==> listings(page).len() == 0,
        listings_among(a + b) == listings_among(a) + listings_among(b),
        listings_among(Seq::empty()).len() == 0,
        listings_among(seq![widget]) == match listing(widget) {
            Some(p) => seq![p],
            None => Seq::empty(),
        },
    decreases b.len(),
{
    assert(seq![widget].drop_last() =~= Seq::empty());
    assert(listings_among(Seq::<JsonView>::empty()) =~= Seq::empty());
    assert(listings_among(seq![widget]) =~= match listing(widget) {
        Some(p) => seq![p],
        None => Seq::empty(),
    });
    if b.len() == 0 {
        assert(a + b =~= a);
        assert(listings_among(a) + listings_among(b) =~= listings_among(a));
    } else {
        law_page_listings(page, a, b.drop_last(), widget);
        assert((a + b).drop_last() =~= a + b.drop_last());
        assert(listings_among(a + b) =~= listings_among(a) + listings_among(b));
    }
}

/// The categories that are tried whatever was named.
pub proof fn law_known_categories()
    ensures
        known_categories() == seq!["vehicles"@, "auto"@, "cars"@, "car"@, "light"@, "heavy"@, "classic"@] + seq![
            "motorcycles"@,
            "auto-parts"@,
            "car-rental"@,
            "rent-car"@,
            "vans"@,
            "trucks"@,
            "buses"@,
        ] + seq!["light-car"@, "heavy-car"@, "automobile"@, "vehicle"@],
{
}

/// Names are added in their order, each that is not there yet, at the end.
pub proof fn law_names_are_added(list: Seq<Seq<char>>, a: Seq<Seq<char>>, b: Seq<Seq<char>>, name: Seq<char>)
    ensures
        with_new(list, Seq::empty()) == list,
        list.contains(name) ==> with_new(list, seq![name]) == list,
        !list.contains(name) ==> with_new(list, seq![name]) == list.push(name),
        with_new(list, a + b) == with_new(with_new(list, a), b),
    decreases b.len(),
{
    assert(seq![name].drop_last() =~= Seq::empty());
    assert(seq![name].last() == name);
    assert(with_new(list, Seq::empty()) == list);
    if b.len() == 0 {
        assert(a + b =~= a);
    } else {
        law_names_are_added(list, a, b.drop_last(), name);
        assert((a + b).drop_last() =~= a + b.drop_last());
    }
}

/// How often a label occurs is the number of places where it stands.
pub proof fn law_occurrences(labels: Seq<Seq<char>>, more: Seq<Seq<char>>, label: Seq<char>, other: Seq<char>)
    requires
        other != label,
    ensures
        occurrences(Seq::empty(), label) == 0,
        occurrences(seq![label], label) == 1,
        occurrences(seq![other], label) == 0,
        occurrences(labels + more, label) == occurrences(labels, label) + occurrences(more, label),
    decreases more.len(),
{
    assert(seq![label].drop_last() =~= Seq::empty());
    assert(seq![other].drop_last() =~= Seq::empty());
    assert(occurrences(Seq::empty(), label) == 0);
    if more.len() == 0 {
        assert(labels + more =~= labels);
    } else {
        law_occurrences(labels, more.drop_last(), label, other);
        assert((labels + more).drop_last() =~= labels + more.drop_last());
    }
}

/// A listing on a page that is tried counts for the category it gives, or for "?".
pub proof fn law_page_label(token: Seq<char>, slug: Seq<char>)
    ensures
        slug.len() > 0 ==> page_label((token, slug)) == slug,
        slug.len() == 0 ==> page_label((token, slug)) == "?"@,
{
}

/// Listings are added in their order, each whose token is not there yet, at the end.
pub proof fn law_listings_are_added(
    list: Seq<(Seq<char>, Seq<char>)>,
    a: Seq<(Seq<char>, Seq<char>)>,
    b: Seq<(Seq<char>, Seq<char>)>,
    p: (Seq<char>, Seq<char>),
)
    ensures
        with_fresh(list, Seq::empty()) == list,
        (exists|i: int| 0 <= i < list.len() && (#[trigger] list[i]).0 == p.0) ==> with_fresh(list, seq![p]) == list,
        (forall|i: int| 0 <= i < list.len() ==> (#[trigger] list[i]).0 != p.0) ==> with_fresh(list, seq![p]) == list.push(
            p,
        ),
        with_fresh(list, a + b) == with_fresh(with_fresh(list, a), b),
    decreases b.len(),
{
    assert(seq![p].drop_last() =~= Seq::empty());
    assert(seq![p].last() == p);
    assert(with_fresh(list, Seq::empty()) == list);
    if exists|i: int| 0 <= i < list.len() && (#[trigger] list[i]).0 == p.0 {
        let i = choose|i: int| 0 <= i < list.len() && (#[trigger] list[i]).0 == p.0;
        assert(tokens(list)[i] == p.0);
        assert(tokens(list).contains(p.0));
    } else {
        assert(!tokens(list).contains(p.0)) by {
            if tokens(list).contains(p.0) {
                let i = choose|i: int| 0 <= i < tokens(list).len() && tokens(list)[i] == p.0;
                assert(list[i].0 == p.0);
            }
        }
    }
    if b.len() == 0 {
        assert(a + b =~= a);
    } else {
        law_listings_are_added(list, a, b.drop_last(), p);
        assert((a + b).drop_last() =~= a + b.drop_last());
    }
}

/// A walk ends with enough listings, or where the page does not say that another
/// follows, or after three pages in a row that brought nothing new.
pub proof fn law_walk_ends(found: nat, wanted: nat, page: JsonView, stale_pages: nat)
    ensures
        turn(found, wanted, page, stale_pages) == Turn::Enough <==> found >= wanted,
        turn(found, wanted, page, stale_pages) == Turn::More <==> found < wanted && stale_pages <= 2 && within(
            member(page, "pagination"@),
            "has_next_page"@,
        ) == Some(JsonView::Bool(true)),
        turn(found, wanted, page, stale_pages) == Turn::Exhausted <==> found < wanted && (stale_pages >= 3 || within(
            member(page, "pagination"@),
            "has_next_page"@,
        ) != Some(JsonView::Bool(true))),
        stale(stale_pages, true) == 0,
        stale(stale_pages, false) == stale_pages + 1,
{
}

/// Where a page leaves off: what it says under "search_data", and under "data" of its
/// "pagination"; null where it says nothing.
pub proof fn law_left_off(page: JsonView, v: JsonView)
    ensures
        member(page, "search_data"@) == Some(v) ==> left_off(page).0 == v,
        member(page, "search_data"@) is None ==> left_off(page).0 == JsonView::Null,
        within(member(page, "pagination"@), "data"@) == Some(v) ==> left_off(page).1 == v,
        within(member(page, "pagination"@), "data"@) is None ==> left_off(page).1 == JsonView::Null,
        has_next(page) <==> within(member(page, "pagination"@), "has_next_page"@) == Some(JsonView::Bool(true)),
{
}

/// Each category but the last is asked for an even share, rounded down, and for one
/// listing at least; the last for all that is left.
pub proof fn law_even_shares(count: nat, collected: nat, categories: nat, index: nat)
    requires
        index < categories,
    ensures
        collected >= count <==> share(count, collected, categories, index) is None,
        collected < count && index + 1 == categories ==> share(count, collected, categories, index) == Some(
            (count - collected) as nat,
        ),
        share(count, collected, categories, index) matches Some(n) ==> {
            let left = count - collected;
            let parts = categories - index;
            &&& n >= 1
            &&& n == 1 || n * parts <= left
            &&& left < (n + 1) * parts
        },
{
    if collected < count {
        let left = count - collected;
        let parts = categories - index;
        let even = left / parts;
        assert(even * parts <= left && left < (even + 1) * parts && even >= 0) by (nonlinear_arith)
            requires
                left >= 0,
                parts >= 1,
                even == left / parts,
        ;
        if index + 1 == categories {
            assert(parts == 1);
        } else if even < 1 {
            assert(left < (1 + 1) * parts) by (nonlinear_arith)
                requires
                    left < (even + 1) * parts,
                    even == 0,
                    parts >= 1,
            ;
        }
    }
}

/// The tokens of listings, in their order.
pub proof fn law_tokens(list: Seq<(Seq<char>, Seq<char>)>, i: int)
    ensures
        tokens(list).len() == list.len(),
        0 <= i < list.len() ==> tokens(list)[i] == list[i].0,
{
}

/// The statuses from 200 to 299 are successes, those from 400 to 499 faults of the
/// request.
pub proof fn law_status_classes(status: u16)
    ensures
        success(status) <==> 200 <= status <= 299,
        client_error(status) <==> 400 <= status <= 499,
{
}

} // verus!
