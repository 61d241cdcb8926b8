//! What is asked of the search feed, and what its pages say.

use vstd::prelude::*;
use vstd::string::StringExecFns;
use crate::json::{
    get_within, items, lemma_dict_tree, lemma_lookup_tree, list_within, member, seen, set_member, shown, text,
    text_list, text_list_value, text_value, trees, within, Json, JsonView,
};
use crate::keymap::{lemma_put, lookup, put, KeyMap};
use crate::text::{decimal, decimal_text, list_items, owned, same, split_list, texts};

verus! {

/// How a request names the cities it is about.
#[derive(Debug, PartialEq)]
pub enum CityMode {
    /// By their numbers.
    Ids(Vec<String>),
    /// Not at all.
    Omit,
    /// By their names.
    Slugs(Vec<String>),
}

/// What a city mode holds.
pub enum CityView {
    Ids(Seq<Seq<char>>),
    Omit,
    Slugs(Seq<Seq<char>>),
}

impl View for CityMode {
    type V = CityView;

    open spec fn view(&self) -> CityView {
        match self {
            CityMode::Ids(ids) => CityView::Ids(texts(ids@)),
            CityMode::Omit => CityView::Omit,
            CityMode::Slugs(names) => CityView::Slugs(texts(names@)),
        }
    }
}

/// What a list of city modes holds.
pub open spec fn city_views(list: Seq<CityMode>) -> Seq<CityView> {
    list.map_values(|c: CityMode| c@)
}

/// `v` with a member under `key`. Null counts as an object without members.
pub open spec fn with_member(v: JsonView, key: Seq<char>, value: JsonView) -> JsonView {
    match v {
        JsonView::Dict(pairs) => JsonView::Dict(put(pairs, key, value)),
        JsonView::Null => JsonView::Dict(put(Seq::empty(), key, value)),
        _ => v,
    }
}

/// A request with the cities named in it.
pub open spec fn with_cities(body: JsonView, city: CityView) -> JsonView {
    match city {
        CityView::Ids(ids) => with_member(body, "city_ids"@, text_list(ids)),
        CityView::Omit => body,
        CityView::Slugs(names) => with_member(body, "cities"@, text_list(names)),
    }
}

/// Puts a member into an object, or makes null an object with that member.
pub(crate) fn add_member(v: &mut Json, key: &str, value: Json)
    requires
        old(v)@ is Dict || old(v)@ is Null,
    ensures
        final(v)@ == with_member(old(v)@, key@, value@),
{
    match v {
        Json::Dict(m) => {
            set_member(m, key, value);
        },
        _ => {
            let mut m: KeyMap<Json> = KeyMap::new();
            proof {
                lemma_dict_tree(m);
                assert(shown(m) =~= Seq::empty());
            }
            set_member(&mut m, key, value);
            *v = Json::Dict(m);
        },
    }
}

/// What std writes for a list of texts when it is debugged.
pub uninterp spec fn debug_text(list: Seq<Seq<char>>) -> Seq<char>;

/// `Debug` for `Vec<String>` of std. How it quotes and escapes is only named.
#[verifier::external_body]
fn debug_list(list: &Vec<String>) -> (r: String)
    ensures
        r@ == debug_text(texts(list@)),
{
    format!("{:?}", list)
}

/// A city mode in words.
pub open spec fn described(city: CityView) -> Seq<char> {
    match city {
        CityView::Ids(ids) => if ids.len() > 6 {
            "city_ids: "@ + decimal(ids.len()) + " ids"@
        } else {
            "city_ids: "@ + debug_text(ids)
        },
        CityView::Omit => "no city field (whole country)"@,
        CityView::Slugs(names) => "cities: "@ + debug_text(names),
    }
}

impl CityMode {
    /// Names the cities in a request.
    pub fn apply(&self, body: &mut Json)
        requires
            !(self@ is Omit) ==> old(body)@ is Dict || old(body)@ is Null,
        ensures
            final(body)@ == with_cities(old(body)@, self@),
    {
        match self {
            CityMode::Ids(ids) => {
                add_member(body, "city_ids", text_list_value(ids));
            },
            CityMode::Omit => {},
            CityMode::Slugs(names) => {
                add_member(body, "cities", text_list_value(names));
            },
        }
    }

    /// Says in words how the cities are named.
    pub fn describe(&self) -> (r: String)
        ensures
            r@ == described(self@),
    {
        match self {
            CityMode::Ids(ids) => if ids.len() > 6 {
                "city_ids: ".to_owned().concat(decimal_text(ids.len() as u64).as_str()).concat(" ids")
            } else {
                "city_ids: ".to_owned().concat(debug_list(ids).as_str())
            },
            CityMode::Omit => "no city field (whole country)".to_owned(),
            CityMode::Slugs(names) => "cities: ".to_owned().concat(debug_list(names).as_str()),
        }
    }
}

/// The word means every city.
pub open spec fn means_everywhere(word: Seq<char>) -> bool {
    word == "iran"@ || word == "all"@ || word == "0"@
}

/// The ways to name the cities that are worth a try, the best first.
pub open spec fn candidates(raw: Seq<char>) -> Seq<CityView> {
    let ids = list_items(raw);
    if ids.len() == 1 && means_everywhere(ids[0]) {
        seq![CityView::Omit, CityView::Ids(seq!["0"@]), CityView::Slugs(seq!["iran"@])]
    } else {
        seq![CityView::Ids(ids)]
    }
}

/// A list of cities as it was given. One word for every city has to be tried in
/// several ways; any other list is taken as it is.
pub fn city_candidates(raw: &str) -> (r: Vec<CityMode>)
    ensures
        city_views(r@) == candidates(raw@),
{
    let ids = split_list(raw);
    let everywhere = if ids.len() == 1 {
        let word = ids[0].as_str();
        assert(texts(ids@)[0] == word@);
        same(word, "iran") || same(word, "all") || same(word, "0")
    } else {
        false
    };
    let mut out: Vec<CityMode> = Vec::new();
    if !everywhere {
        out.push(CityMode::Ids(ids));
    } else {
        let zero = owned(&["0"]);
        let iran = owned(&["iran"]);
        assert(texts(zero@) =~= seq!["0"@]);
        assert(texts(iran@) =~= seq!["iran"@]);
        out.push(CityMode::Omit);
        out.push(CityMode::Ids(zero));
        out.push(CityMode::Slugs(iran));
    }
    assert(city_views(out@) =~= candidates(raw@));
    out
}

/// The members of a value that may be absent or no object: then none.
pub open spec fn members(v: Option<JsonView>) -> Seq<(Seq<char>, JsonView)> {
    match v {
        Some(JsonView::Dict(pairs)) => pairs,
        _ => Seq::empty(),
    }
}

/// An object with one member.
pub open spec fn single(key: Seq<char>, value: JsonView) -> JsonView {
    JsonView::Dict(put(Seq::empty(), key, value))
}

/// The form's data with the category set in it.
pub open spec fn categorized_data(data: Option<JsonView>, category: Seq<char>) -> JsonView {
    let filter = single("str"@, single("value"@, JsonView::Text(category)));
    JsonView::Dict(put(members(data), "category"@, filter))
}

/// The form with the category set in its data.
pub open spec fn categorized_form(form: Option<JsonView>, category: Seq<char>) -> JsonView {
    let data = lookup(members(form), "data"@);
    JsonView::Dict(put(members(form), "data"@, categorized_data(data, category)))
}

/// Search data with the category set in its form, whatever it was before.
pub open spec fn categorized(search_data: JsonView, category: Seq<char>) -> JsonView {
    let form = member(search_data, "form_data"@);
    JsonView::Dict(put(members(Some(search_data)), "form_data"@, categorized_form(form, category)))
}

/// A copy of the members of a value that may be absent or no object.
fn copy_members(v: Option<&Json>) -> (r: KeyMap<Json>)
    ensures
        shown(r) == members(seen(v)),
{
    match v {
        Some(j) => match j.duplicate() {
            Json::Dict(m) => m,
            _ => empty_members(),
        },
        None => empty_members(),
    }
}

pub(crate) fn empty_members() -> (r: KeyMap<Json>)
    ensures
        shown(r) == Seq::<(Seq<char>, JsonView)>::empty(),
{
    let m: KeyMap<Json> = KeyMap::new();
    proof {
        lemma_dict_tree(m);
        assert(shown(m) =~= Seq::empty());
    }
    m
}

fn make_single(key: &str, value: Json) -> (r: Json)
    ensures
        r@ == single(key@, value@),
{
    let mut m = empty_members();
    set_member(&mut m, key, value);
    Json::Dict(m)
}

/// The category that search data asks for.
pub open spec fn asked_category(search_data: Option<JsonView>) -> Option<Seq<char>> {
    let data = within(within(search_data, "form_data"@), "data"@);
    text(within(within(within(data, "category"@), "str"@), "value"@))
}

/// Sets the category in search data. What stands in its way and is no object is
/// replaced by one, so that the category is always there; everything beside it stays.
pub fn force_category(search_data: &mut Json, category: &str)
    ensures
        final(search_data)@ == categorized(old(search_data)@, category@),
        asked_category(Some(final(search_data)@)) == Some(category@),
        forall|key: Seq<char>|
            key != "form_data"@ ==> #[trigger] member(final(search_data)@, key) == member(old(search_data)@, key),
        forall|key: Seq<char>|
            key != "data"@ ==> #[trigger] within(member(final(search_data)@, "form_data"@), key) == within(
                member(old(search_data)@, "form_data"@),
                key,
            ),
        forall|key: Seq<char>|
            key != "category"@ ==> #[trigger] within(
                within(member(final(search_data)@, "form_data"@), "data"@),
                key,
            ) == within(within(member(old(search_data)@, "form_data"@), "data"@), key),
{
    let ghost before = search_data@;
    let mut top = copy_members(Some(&*search_data));
    let mut form = copy_members(top.get("form_data"));
    let mut data = copy_members(form.get("data"));
    let filter = make_single("str", make_single("value", text_value(category)));
    proof {
        use_type_invariant(&top);
        use_type_invariant(&form);
        use_type_invariant(&data);
        lemma_lookup_tree(top, "form_data"@);
        lemma_lookup_tree(form, "data"@);
        lemma_dict_tree(top);
        lemma_dict_tree(form);
        lemma_dict_tree(data);
        let wanted = JsonView::Text(category@);
        let none = Seq::<(Seq<char>, JsonView)>::empty();
        lemma_put(none, "value"@, wanted);
        lemma_put(none, "str"@, single("value"@, wanted));
        lemma_put(shown(data), "category"@, filter@);
        let new_data = JsonView::Dict(put(shown(data), "category"@, filter@));
        lemma_put(shown(form), "data"@, new_data);
        lemma_put(shown(top), "form_data"@, JsonView::Dict(put(shown(form), "data"@, new_data)));
        lemma_members(Some(before));
        lemma_members(member(before, "form_data"@));
        lemma_members(within(member(before, "form_data"@), "data"@));
    }
    set_member(&mut data, "category", filter);
    set_member(&mut form, "data", Json::Dict(data));
    set_member(&mut top, "form_data", Json::Dict(form));
    *search_data = Json::Dict(top);
}

/// A member of a value stands among its members.
proof fn lemma_members(v: Option<JsonView>)
    ensures
        forall|key: Seq<char>| #[trigger] within(v, key) == lookup(members(v), key),
{
}

/// A search request: the category always, the cities, and where the last page left off.
pub open spec fn request(city: CityView, category: Seq<char>, prev: Option<(JsonView, JsonView)>) -> JsonView {
    let echoed = match prev {
        Some((search_data, _)) => search_data,
        None => JsonView::Null,
    };
    let body = with_cities(single("search_data"@, categorized(echoed, category)), city);
    match prev {
        Some((_, page)) => if page is Null {
            body
        } else {
            with_member(body, "pagination_data"@, page)
        },
        None => body,
    }
}

/// The members of a request, each looked up by its key.
pub proof fn lemma_request_members(city: CityView, category: Seq<char>, prev: Option<(JsonView, JsonView)>)
    ensures
        request(city, category, prev) is Dict,
        member(request(city, category, prev), "search_data"@) == Some(
            categorized(
                match prev {
                    Some((search_data, _)) => search_data,
                    None => JsonView::Null,
                },
                category,
            ),
        ),
        member(request(city, category, prev), "city_ids"@) == match city {
            CityView::Ids(ids) => Some(text_list(ids)),
            _ => None,
        },
        member(request(city, category, prev), "cities"@) == match city {
            CityView::Slugs(names) => Some(text_list(names)),
            _ => None,
        },
        member(request(city, category, prev), "pagination_data"@) == match prev {
            Some((_, page)) => if page is Null {
                None
            } else {
                Some(page)
            },
            None => None,
        },
        forall|key: Seq<char>|
            key != "search_data"@ && key != "city_ids"@ && key != "cities"@ && key != "pagination_data"@
                ==> #[trigger] member(request(city, category, prev), key) is None,
{
    reveal_strlit("search_data");
    reveal_strlit("city_ids");
    reveal_strlit("cities");
    reveal_strlit("pagination_data");
    assert("search_data"@.len() == 11 && "city_ids"@.len() == 8 && "cities"@.len() == 6 && "pagination_data"@.len()
        == 15);
    let none = Seq::<(Seq<char>, JsonView)>::empty();
    let echoed = match prev {
        Some((search_data, _)) => search_data,
        None => JsonView::Null,
    };
    let asked = categorized(echoed, category);
    lemma_put(none, "search_data"@, asked);
    assert forall|key: Seq<char>| #[trigger] lookup(none, key) is None by {}
    let first = single("search_data"@, asked);
    match city {
        CityView::Ids(ids) => {
            lemma_put(first->Dict_0, "city_ids"@, text_list(ids));
        },
        CityView::Omit => {},
        CityView::Slugs(names) => {
            lemma_put(first->Dict_0, "cities"@, text_list(names));
        },
    }
    let named = with_cities(first, city);
    match prev {
        Some((_, page)) => {
            if !(page is Null) {
                lemma_put(named->Dict_0, "pagination_data"@, page);
            }
        },
        None => {},
    }
}

/// What the last page of a search said, to be sent back with the next request.
pub open spec fn page_state(prev: Option<(&Json, &Json)>) -> Option<(JsonView, JsonView)> {
    match prev {
        Some((search_data, page)) => Some((search_data@, page@)),
        None => None,
    }
}

/// Makes a search request. Whatever the server sent back, the category is in it.
pub fn search_body(city: &CityMode, category: &str, prev: Option<(&Json, &Json)>) -> (r: Json)
    ensures
        r@ == request(city@, category@, page_state(prev)),
        asked_category(member(r@, "search_data"@)) == Some(category@),
        city@ matches CityView::Ids(ids) ==> member(r@, "city_ids"@) == Some(text_list(ids)) && member(r@, "cities"@)
            is None,
        city@ matches CityView::Slugs(names) ==> member(r@, "cities"@) == Some(text_list(names)) && member(
            r@,
            "city_ids"@,
        ) is None,
        city@ is Omit ==> member(r@, "city_ids"@) is None && member(r@, "cities"@) is None,
        prev is None ==> member(r@, "pagination_data"@) is None,
        prev matches Some((_, page)) ==> member(r@, "pagination_data"@) == if page@ is Null {
            None
        } else {
            Some(page@)
        },
        prev matches Some((echoed, _)) ==> forall|key: Seq<char>|
            key != "form_data"@ ==> #[trigger] within(member(r@, "search_data"@), key) == member(echoed@, key),
{
    let mut search_data = match prev {
        Some((echoed, _)) => echoed.duplicate(),
        None => Json::Null,
    };
    force_category(&mut search_data, category);
    let mut body = make_single("search_data", search_data);
    city.apply(&mut body);
    match prev {
        Some((_, page)) => {
            if !page.is_null() {
                add_member(&mut body, "pagination_data", page.duplicate());
            }
        },
        None => {},
    }
    proof {
        lemma_request_members(city@, category@, page_state(prev));
    }
    body
}

/// A listing on a page of the feed: its token and the category it gives for itself,
/// which is empty where it gives none.
pub open spec fn listing(widget: JsonView) -> Option<(Seq<char>, Seq<char>)> {
    let payload = within(within(member(widget, "data"@), "action"@), "payload"@);
    let info = within(payload, "web_info"@);
    let own = within(info, "category_slug"@);
    let slug = text(
        if own is Some {
            own
        } else {
            within(info, "category"@)
        },
    );
    match text(within(payload, "token"@)) {
        Some(token) => Some((token, slug.unwrap_or(Seq::empty()))),
        None => None,
    }
}

/// What a list of listings holds.
pub open spec fn listing_views(list: Seq<(String, String)>) -> Seq<(Seq<char>, Seq<char>)> {
    list.map_values(|p: (String, String)| (p.0@, p.1@))
}

fn text_within(v: Option<&Json>) -> (r: Option<&str>)
    ensures
        text(seen(v)) == match r {
            Some(t) => Some(t@),
            None => None,
        },
{
    match v {
        Some(j) => j.as_str(),
        None => None,
    }
}

/// The listing that a widget of the feed shows. The category is the listing's own, not
/// the one that was asked for.
pub fn token_and_category(widget: &Json) -> (r: Option<(String, String)>)
    ensures
        listing(widget@) == match r {
            Some((token, slug)) => Some((token@, slug@)),
            None => None,
        },
{
    let payload = get_within(get_within(widget.get("data"), "action"), "payload");
    let info = get_within(payload, "web_info");
    let own = get_within(info, "category_slug");
    let slug = text_within(
        if own.is_some() {
            own
        } else {
            get_within(info, "category")
        },
    );
    match text_within(get_within(payload, "token")) {
        Some(token) => {
            let named: String = match slug {
                Some(name) => name.to_owned(),
                None => String::new(),
            };
            Some((token.to_owned(), named))
        },
        None => None,
    }
}

/// The listings among widgets, in their order.
pub open spec fn listings_among(widgets: Seq<JsonView>) -> Seq<(Seq<char>, Seq<char>)>
    decreases widgets.len(),
{
    if widgets.len() == 0 {
        Seq::empty()
    } else {
        match listing(widgets.last()) {
            Some(p) => listings_among(widgets.drop_last()).push(p),
            None => listings_among(widgets.drop_last()),
        }
    }
}

/// The listings on a page of the feed.
pub open spec fn listings(page: JsonView) -> Seq<(Seq<char>, Seq<char>)> {
    listings_among(items(member(page, "list_widgets"@)))
}

/// The listings on a page of the feed.
pub fn page_listings(page: &Json) -> (r: Vec<(String, String)>)
    ensures
        listing_views(r@) == listings(page@),
{
    let mut out: Vec<(String, String)> = Vec::new();
    let ghost all = items(member(page@, "list_widgets"@));
    assert(listing_views(out@) =~= listings_among(all.take(0)));
    match list_within(page.get("list_widgets")) {
        Some(list) => {
            for i in 0..list.len()
                invariant
                    all == trees(list@),
                    listing_views(out@) == listings_among(all.take(i as int)),
            {
                proof {
                    assert(all.take(i + 1).drop_last() =~= all.take(i as int));
                    assert(all.take(i + 1).last() == list@[i as int]@);
                }
                match token_and_category(&list[i]) {
                    Some(p) => {
                        let ghost before = listing_views(out@);
                        let ghost now = (p.0@, p.1@);
                        out.push(p);
                        assert(listing_views(out@) =~= before.push(now));
                    },
                    None => {},
                }
            }
            assert(all.take(list@.len() as int) =~= all);
        },
        None => {
            assert(all.take(0) =~= all);
        },
    }
    out
}

/// How many widgets a page of the feed has.
pub fn widget_count(page: &Json) -> (r: usize)
    ensures
        r == items(member(page@, "list_widgets"@)).len(),
{
    match list_within(page.get("list_widgets")) {
        Some(list) => list.len(),
        None => 0,
    }
}

} // verus!
