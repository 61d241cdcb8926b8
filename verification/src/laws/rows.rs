//! The cells of a row, in terms of the payload they are read from.

use vstd::prelude::*;
use crate::flatten::{
    bag, bags, cell, column_names, first_said, first_under, fixed_cells, harvested, is_row_of, last_cell, price_keys,
    section_widgets, sections, widget, widgets, Bag, Cell, Row, Widget,
};
use crate::harvest::plain;
use crate::json::{items, member, within, JsonView};
use crate::text::{decimal, joined};

verus! {

/// The section at place `a` of a payload.
pub open spec fn section_at(detail: JsonView, a: int) -> JsonView {
    items(member(detail, "sections"@))[a]
}

/// The widget at place `b` of that section.
pub open spec fn widget_at(detail: JsonView, a: int, b: int) -> JsonView {
    items(member(section_at(detail, a), "widgets"@))[b]
}

/// The payload has a widget there.
pub open spec fn place(detail: JsonView, a: int, b: int) -> bool {
    &&& 0 <= a < items(member(detail, "sections"@)).len()
    &&& 0 <= b < items(member(section_at(detail, a), "widgets"@)).len()
}

/// The payload has a widget at (`x`, `y`), and that stands after (`a`, `b`).
pub open spec fn after(detail: JsonView, a: int, b: int, x: int, y: int) -> bool {
    place(detail, x, y) && (a < x || (a == x && b < y))
}

/// What the section at place `a` is called.
pub open spec fn section_name(detail: JsonView, a: int) -> Seq<char> {
    plain(member(section_at(detail, a), "section_name"@))
}

/// What the type of a widget is called.
pub open spec fn kind_name(detail: JsonView, a: int, b: int) -> Seq<char> {
    plain(member(widget_at(detail, a, b), "widget_type"@))
}

/// The data of a widget.
pub open spec fn data_at(detail: JsonView, a: int, b: int) -> Option<JsonView> {
    member(widget_at(detail, a, b), "data"@)
}

proof fn lemma_last_of_all(c: Cell, ws: Seq<Widget>, b: int)
    requires
        0 <= b < ws.len(),
        cell(c, ws[b]) is Some,
        forall|y: int| b < y < ws.len() ==> cell(c, #[trigger] ws[y]) is None,
    ensures
        last_cell(c, ws) == cell(c, ws[b]),
    decreases ws.len(),
{
    if b < ws.len() - 1 {
        let front = ws.drop_last();
        assert(cell(c, ws[ws.len() - 1]) is None);
        assert forall|y: int| b < y < front.len() implies cell(c, #[trigger] front[y]) is None by {
            assert(front[y] == ws[y]);
        }
        lemma_last_of_all(c, front, b);
    }
}

proof fn lemma_none_of_all(c: Cell, ws: Seq<Widget>)
    requires
        forall|y: int| 0 <= y < ws.len() ==> cell(c, #[trigger] ws[y]) is None,
    ensures
        last_cell(c, ws) is None,
    decreases ws.len(),
{
    if ws.len() > 0 {
        let front = ws.drop_last();
        assert(cell(c, ws[ws.len() - 1]) is None);
        assert forall|y: int| 0 <= y < front.len() implies cell(c, #[trigger] front[y]) is None by {
            assert(front[y] == ws[y]);
        }
        lemma_none_of_all(c, front);
    }
}

proof fn lemma_last_concat(c: Cell, v: Seq<Widget>, w: Seq<Widget>)
    ensures
        last_cell(c, v + w) == if last_cell(c, w) is Some {
            last_cell(c, w)
        } else {
            last_cell(c, v)
        },
    decreases w.len(),
{
    if w.len() == 0 {
        assert(v + w =~= v);
    } else {
        assert((v + w).drop_last() =~= v + w.drop_last());
        lemma_last_concat(c, v, w.drop_last());
    }
}

/// The widgets of a payload, each at its place.
spec fn by_place(detail: JsonView) -> Seq<Seq<Widget>> {
    sections(detail).map_values(|section: JsonView| section_widgets(section))
}

proof fn lemma_by_place(detail: JsonView)
    ensures
        by_place(detail).flatten() == widgets(detail),
        by_place(detail).len() == items(member(detail, "sections"@)).len(),
        forall|a: int|
            0 <= a < by_place(detail).len() ==> (#[trigger] by_place(detail)[a]).len() == items(
                member(section_at(detail, a), "widgets"@),
            ).len(),
        forall|a: int, b: int|
            place(detail, a, b) ==> #[trigger] by_place(detail)[a][b] == (Widget {
                section: section_name(detail, a),
                kind: kind_name(detail, a, b),
                data: data_at(detail, a, b),
            }),
{
    assert forall|a: int, b: int| place(detail, a, b) implies #[trigger] by_place(detail)[a][b] == (Widget {
        section: section_name(detail, a),
        kind: kind_name(detail, a, b),
        data: data_at(detail, a, b),
    }) by {
        assert(by_place(detail)[a] == section_widgets(section_at(detail, a)));
        assert(by_place(detail)[a][b] == widget(section_at(detail, a), widget_at(detail, a, b)));
    }
}

proof fn lemma_last_of_parts(c: Cell, parts: Seq<Seq<Widget>>, a: int, b: int)
    requires
        0 <= a < parts.len(),
        0 <= b < parts[a].len(),
        cell(c, parts[a][b]) is Some,
        forall|x: int, y: int|
            0 <= x < parts.len() && 0 <= y < parts[x].len() && (a < x || (a == x && b < y)) ==> cell(
                c,
                #[trigger] parts[x][y],
            ) is None,
    ensures
        last_cell(c, parts.flatten()) == cell(c, parts[a][b]),
    decreases parts.len(),
{
    let n = parts.len() - 1;
    let front = parts.drop_last();
    assert(parts.take(n + 1) =~= parts);
    assert(parts.take(n) =~= front);
    crate::seqs::lemma_flatten_step(parts, n);
    lemma_last_concat(c, front.flatten(), parts[n]);
    if a == n {
        lemma_last_of_all(c, parts[n], b);
    } else {
        lemma_none_of_all(c, parts[n]);
        assert(front[a] == parts[a]);
        assert forall|x: int, y: int|
            0 <= x < front.len() && 0 <= y < front[x].len() && (a < x || (a == x && b < y)) implies cell(
            c,
            #[trigger] front[x][y],
        ) is None by {
            assert(front[x][y] == parts[x][y]);
        }
        lemma_last_of_parts(c, front, a, b);
    }
}

proof fn lemma_none_of_parts(c: Cell, parts: Seq<Seq<Widget>>)
    requires
        forall|x: int, y: int|
            0 <= x < parts.len() && 0 <= y < parts[x].len() ==> cell(c, #[trigger] parts[x][y]) is None,
    ensures
        last_cell(c, parts.flatten()) is None,
    decreases parts.len(),
{
    if parts.len() == 0 {
        assert(parts.flatten() =~= Seq::empty());
    } else {
        let n = parts.len() - 1;
        let front = parts.drop_last();
        assert(parts.take(n + 1) =~= parts);
        assert(parts.take(n) =~= front);
        crate::seqs::lemma_flatten_step(parts, n);
        lemma_last_concat(c, front.flatten(), parts[n]);
        lemma_none_of_all(c, parts[n]);
        assert forall|x: int, y: int| 0 <= x < front.len() && 0 <= y < front[x].len() implies cell(
            c,
            #[trigger] front[x][y],
        ) is None by {
            assert(front[x][y] == parts[x][y]);
        }
        lemma_none_of_parts(c, front);
    }
}

/// What the widget at a place says for a column.
spec fn cell_at(c: Cell, detail: JsonView, a: int, b: int) -> Option<Seq<char>> {
    cell(
        c,
        Widget {
            section: section_name(detail, a),
            kind: kind_name(detail, a, b),
            data: data_at(detail, a, b),
        },
    )
}

proof fn lemma_decided(c: Cell, detail: JsonView, a: int, b: int)
    requires
        place(detail, a, b),
        cell_at(c, detail, a, b) is Some,
        forall|x: int, y: int| #[trigger] after(detail, a, b, x, y) ==> cell_at(c, detail, x, y) is None,
    ensures
        last_cell(c, widgets(detail)) == cell_at(c, detail, a, b),
{
    lemma_by_place(detail);
    let parts = by_place(detail);
    assert(parts[a].len() > b);
    assert forall|x: int, y: int|
        0 <= x < parts.len() && 0 <= y < parts[x].len() && (a < x || (a == x && b < y)) implies cell(
        c,
        #[trigger] parts[x][y],
    ) is None by {
        assert(after(detail, a, b, x, y));
        assert(cell_at(c, detail, x, y) is None);
    }
    lemma_last_of_parts(c, parts, a, b);
}

proof fn lemma_undecided(c: Cell, detail: JsonView)
    requires
        forall|x: int, y: int| #[trigger] place(detail, x, y) ==> cell_at(c, detail, x, y) is None,
    ensures
        last_cell(c, widgets(detail)) is None,
{
    lemma_by_place(detail);
    let parts = by_place(detail);
    assert forall|x: int, y: int| 0 <= x < parts.len() && 0 <= y < parts[x].len() implies cell(
        c,
        #[trigger] parts[x][y],
    ) is None by {
        assert(place(detail, x, y));
        assert(cell_at(c, detail, x, y) is None);
    }
    lemma_none_of_parts(c, parts);
}

/// The cell under `key` is `said`, and there is none where nothing is said.
pub open spec fn holds_cell(row: Row, key: Seq<char>, said: Option<Seq<char>>) -> bool {
    match said {
        Some(t) => row.fixed@.contains_key(key) && row.fixed@[key] == t,
        None => !row.fixed@.contains_key(key),
    }
}

#[verifier::rlimit(60)]
proof fn lemma_columns(row: Row, token: Seq<char>, detail: JsonView, fetched_at: u64)
    requires
        is_row_of(row, token, detail, fetched_at),
    ensures
        ({
            let ws = widgets(detail);
            &&& holds_cell(row, "token"@, Some(token))
            &&& holds_cell(row, "url"@, Some("https://divar.ir/v/-/"@ + token))
            &&& holds_cell(row, "fetched_at"@, Some(decimal(fetched_at as nat)))
            &&& holds_cell(row, "seo_title"@, Some(plain(within(member(detail, "seo"@), "title"@))))
            &&& holds_cell(row, "seo_description"@, Some(plain(within(member(detail, "seo"@), "description"@))))
            &&& holds_cell(row, "city"@, Some(plain(within(member(detail, "city"@), "name"@))))
            &&& holds_cell(row, "district"@, Some(plain(within(member(detail, "district"@), "name"@))))
            &&& holds_cell(row, "category"@, Some(crate::flatten::category(detail)))
            &&& holds_cell(row, "title"@, last_cell(Cell::Title, ws))
            &&& holds_cell(row, "subtitle"@, last_cell(Cell::Subtitle, ws))
            &&& holds_cell(row, "posted_raw"@, last_cell(Cell::Posted, ws))
            &&& holds_cell(row, "description"@, last_cell(Cell::Description, ws))
            &&& holds_cell(row, "latitude"@, last_cell(Cell::Latitude, ws))
            &&& holds_cell(row, "longitude"@, last_cell(Cell::Longitude, ws))
            &&& holds_cell(row, "map_radius_m"@, last_cell(Cell::Radius, ws))
            &&& holds_cell(row, "price_raw"@, first_under(harvested(detail), price_keys()))
            &&& holds_cell(row, "image_count"@, Some(decimal(bags(Bag::Images, ws).len())))
            &&& holds_cell(row, "image_urls"@, Some(joined(bags(Bag::Images, ws), " | "@)))
            &&& holds_cell(row, "thumbnail_urls"@, Some(joined(bags(Bag::Thumbnails, ws), " | "@)))
            &&& holds_cell(row, "tags"@, Some(joined(bags(Bag::Tags, ws), " | "@)))
        }),
{
    crate::export::lemma_column_names();
    let names = column_names();
    assert(names[0] == "token"@ && names[1] == "url"@ && names[2] == "title"@ && names[3] == "subtitle"@);
    assert(names[4] == "description"@ && names[5] == "seo_title"@ && names[6] == "seo_description"@);
    assert(names[7] == "category"@ && names[8] == "city"@ && names[9] == "district"@ && names[10] == "posted_raw"@);
    assert(names[11] == "price_raw"@ && names[12] == "latitude"@ && names[13] == "longitude"@);
    assert(names[14] == "map_radius_m"@ && names[15] == "image_count"@ && names[16] == "image_urls"@);
    assert(names[17] == "thumbnail_urls"@ && names[18] == "tags"@ && names[19] == "fetched_at"@);
    assert(row.fixed@ == fixed_cells(token, detail, fetched_at));
}

/// The columns that every table has, in their order.
pub proof fn law_columns()
    ensures
        column_names().len() == 20,
        column_names().take(10) == seq![
            "token"@,
            "url"@,
            "title"@,
            "subtitle"@,
            "description"@,
            "seo_title"@,
            "seo_description"@,
            "category"@,
            "city"@,
            "district"@,
        ],
        column_names().skip(10) == seq![
            "posted_raw"@,
            "price_raw"@,
            "latitude"@,
            "longitude"@,
            "map_radius_m"@,
            "image_count"@,
            "image_urls"@,
            "thumbnail_urls"@,
            "tags"@,
            "fetched_at"@,
        ],
{
}

/// A row says which listing it is of and when that was fetched, and what the payload
/// says of its page, its city and its district.
pub proof fn law_row_names_the_listing(row: Row, token: Seq<char>, detail: JsonView, fetched_at: u64)
    requires
        is_row_of(row, token, detail, fetched_at),
    ensures
        holds_cell(row, "token"@, Some(token)),
        holds_cell(row, "url"@, Some("https://divar.ir/v/-/"@ + token)),
        holds_cell(row, "fetched_at"@, Some(decimal(fetched_at as nat))),
        holds_cell(row, "seo_title"@, Some(plain(within(member(detail, "seo"@), "title"@)))),
        holds_cell(row, "seo_description"@, Some(plain(within(member(detail, "seo"@), "description"@)))),
        holds_cell(row, "city"@, Some(plain(within(member(detail, "city"@), "name"@)))),
        holds_cell(row, "district"@, Some(plain(within(member(detail, "district"@), "name"@)))),
{
    lemma_columns(row, token, detail, fetched_at);
}

/// The category is the slug in the payload's category; where that says nothing, the
/// slug in its web information; where that says nothing either, the category itself.
pub proof fn law_row_category(row: Row, token: Seq<char>, detail: JsonView, fetched_at: u64)
    requires
        is_row_of(row, token, detail, fetched_at),
    ensures
        ({
            let slug = plain(within(member(detail, "category"@), "slug"@));
            let web = plain(within(member(detail, "web_info"@), "category_slug"@));
            let whole = plain(member(detail, "category"@));
            &&& slug.len() > 0 ==> holds_cell(row, "category"@, Some(slug))
            &&& slug.len() == 0 && web.len() > 0 ==> holds_cell(row, "category"@, Some(web))
            &&& slug.len() == 0 && web.len() == 0 ==> holds_cell(row, "category"@, Some(whole))
        }),
{
    lemma_columns(row, token, detail, fetched_at);
    let slug = plain(within(member(detail, "category"@), "slug"@));
    let web = plain(within(member(detail, "web_info"@), "category_slug"@));
    let whole = plain(member(detail, "category"@));
    let list = seq![slug, web, whole];
    assert(list.skip(1) =~= seq![web, whole]);
    assert(list.skip(1).skip(1) =~= seq![whole]);
    assert(list.skip(1).skip(1).skip(1) =~= Seq::empty());
    reveal_with_fuel(first_said, 4);
    if whole.len() == 0 {
        assert(whole =~= Seq::empty());
    }
}

/// Latitude and longitude are those of the last widget in a section "MAP" whose
/// location has a point. Its fuzzy point counts, whether or not there is an exact one;
/// its exact point counts only where it has no fuzzy one.
pub proof fn law_row_point(row: Row, token: Seq<char>, detail: JsonView, fetched_at: u64, a: int, b: int)
    requires
        is_row_of(row, token, detail, fetched_at),
        place(detail, a, b),
        section_name(detail, a) == "MAP"@,
        forall|x: int, y: int| #[trigger]
            after(detail, a, b, x, y) ==> section_name(detail, x) != "MAP"@ || {
                let other = within(data_at(detail, x, y), "location"@);
                &&& within(within(other, "fuzzy_data"@), "point"@) is None
                &&& within(within(other, "exact_data"@), "point"@) is None
            },
    ensures
        ({
            let location = within(data_at(detail, a, b), "location"@);
            let fuzzy = within(within(location, "fuzzy_data"@), "point"@);
            let exact = within(within(location, "exact_data"@), "point"@);
            &&& fuzzy is Some ==> {
                &&& holds_cell(row, "latitude"@, Some(plain(within(fuzzy, "latitude"@))))
                &&& holds_cell(row, "longitude"@, Some(plain(within(fuzzy, "longitude"@))))
            }
            &&& fuzzy is None && exact is Some ==> {
                &&& holds_cell(row, "latitude"@, Some(plain(within(exact, "latitude"@))))
                &&& holds_cell(row, "longitude"@, Some(plain(within(exact, "longitude"@))))
            }
        }),
{
    lemma_columns(row, token, detail, fetched_at);
    let location = within(data_at(detail, a, b), "location"@);
    if within(within(location, "fuzzy_data"@), "point"@) is Some || within(within(location, "exact_data"@), "point"@)
        is Some {
        lemma_decided(Cell::Latitude, detail, a, b);
        lemma_decided(Cell::Longitude, detail, a, b);
    }
}

/// A fuzzy point with texts for its latitude and its longitude gives the row those two
/// texts, where no other widget stands in a section "MAP".
pub proof fn law_row_fuzzy_point(
    row: Row,
    token: Seq<char>,
    detail: JsonView,
    fetched_at: u64,
    a: int,
    b: int,
    latitude: Seq<char>,
    longitude: Seq<char>,
)
    requires
        is_row_of(row, token, detail, fetched_at),
        place(detail, a, b),
        section_name(detail, a) == "MAP"@,
        forall|x: int, y: int| #[trigger]
            place(detail, x, y) && (x, y) != (a, b) ==> section_name(detail, x) != "MAP"@,
        ({
            let point = within(within(within(data_at(detail, a, b), "location"@), "fuzzy_data"@), "point"@);
            &&& within(point, "latitude"@) == Some(JsonView::Text(latitude))
            &&& within(point, "longitude"@) == Some(JsonView::Text(longitude))
        }),
    ensures
        row.fixed@.contains_key("latitude"@),
        row.fixed@["latitude"@] == latitude,
        row.fixed@.contains_key("longitude"@),
        row.fixed@["longitude"@] == longitude,
{
    assert forall|x: int, y: int| #[trigger] after(detail, a, b, x, y) implies section_name(detail, x) != "MAP"@ by {
        assert(place(detail, x, y));
    }
    law_row_point(row, token, detail, fetched_at, a, b);
}

/// Without a point in a section "MAP" a row has no latitude and no longitude.
pub proof fn law_row_without_point(row: Row, token: Seq<char>, detail: JsonView, fetched_at: u64)
    requires
        is_row_of(row, token, detail, fetched_at),
        forall|x: int, y: int| #[trigger]
            place(detail, x, y) ==> section_name(detail, x) != "MAP"@ || {
                let location = within(data_at(detail, x, y), "location"@);
                &&& within(within(location, "fuzzy_data"@), "point"@) is None
                &&& within(within(location, "exact_data"@), "point"@) is None
            },
    ensures
        !row.fixed@.contains_key("latitude"@),
        !row.fixed@.contains_key("longitude"@),
{
    lemma_columns(row, token, detail, fetched_at);
    lemma_undecided(Cell::Latitude, detail);
    lemma_undecided(Cell::Longitude, detail);
}

/// The radius is that of the fuzzy data, in the last widget in a section "MAP" that
/// gives one.
pub proof fn law_row_radius(row: Row, token: Seq<char>, detail: JsonView, fetched_at: u64, a: int, b: int)
    requires
        is_row_of(row, token, detail, fetched_at),
    ensures
        ({
            let radius = |x: int, y: int|
                within(within(within(data_at(detail, x, y), "location"@), "fuzzy_data"@), "radius"@);
            &&& (place(detail, a, b) && section_name(detail, a) == "MAP"@ && radius(a, b) is Some && forall|x: int, y: int|
                #[trigger]
                after(detail, a, b, x, y) ==> section_name(detail, x) != "MAP"@ || radius(x, y) is None) ==> holds_cell(
                row,
                "map_radius_m"@,
                Some(plain(radius(a, b))),
            )
            &&& (forall|x: int, y: int| #[trigger]
                place(detail, x, y) ==> section_name(detail, x) != "MAP"@ || radius(x, y) is None) ==> holds_cell(
                row,
                "map_radius_m"@,
                None,
            )
        }),
{
    lemma_columns(row, token, detail, fetched_at);
    let radius = |x: int, y: int|
        within(within(within(data_at(detail, x, y), "location"@), "fuzzy_data"@), "radius"@);
    if place(detail, a, b) && section_name(detail, a) == "MAP"@ && radius(a, b) is Some && (forall|x: int, y: int|
        #[trigger]
        after(detail, a, b, x, y) ==> section_name(detail, x) != "MAP"@ || radius(x, y) is None) {
        lemma_decided(Cell::Radius, detail, a, b);
    }
    if forall|x: int, y: int| #[trigger]
        place(detail, x, y) ==> section_name(detail, x) != "MAP"@ || radius(x, y) is None {
        lemma_undecided(Cell::Radius, detail);
    }
}

/// Title and subtitle are those of the last widget of type "LEGEND_TITLE_ROW" in a
/// section "TITLE"; without such a widget there are none.
pub proof fn law_row_title(row: Row, token: Seq<char>, detail: JsonView, fetched_at: u64, a: int, b: int)
    requires
        is_row_of(row, token, detail, fetched_at),
    ensures
        ({
            let titles = |x: int, y: int|
                section_name(detail, x) == "TITLE"@ && kind_name(detail, x, y) == "LEGEND_TITLE_ROW"@;
            &&& (place(detail, a, b) && titles(a, b) && forall|x: int, y: int| #[trigger]
                after(detail, a, b, x, y) ==> !titles(x, y)) ==> {
                &&& holds_cell(row, "title"@, Some(plain(within(data_at(detail, a, b), "title"@))))
                &&& holds_cell(row, "subtitle"@, Some(plain(within(data_at(detail, a, b), "subtitle"@))))
            }
            &&& (forall|x: int, y: int| #[trigger] place(detail, x, y) ==> !titles(x, y)) ==> {
                &&& holds_cell(row, "title"@, None)
                &&& holds_cell(row, "subtitle"@, None)
            }
        }),
{
    lemma_columns(row, token, detail, fetched_at);
    let titles = |x: int, y: int|
        section_name(detail, x) == "TITLE"@ && kind_name(detail, x, y) == "LEGEND_TITLE_ROW"@;
    if place(detail, a, b) && titles(a, b) && (forall|x: int, y: int| #[trigger]
        after(detail, a, b, x, y) ==> !titles(x, y)) {
        lemma_decided(Cell::Title, detail, a, b);
        lemma_decided(Cell::Subtitle, detail, a, b);
    }
    if forall|x: int, y: int| #[trigger] place(detail, x, y) ==> !titles(x, y) {
        lemma_undecided(Cell::Title, detail);
        lemma_undecided(Cell::Subtitle, detail);
    }
}

/// When a listing was posted is the title of the last widget of type
/// "EXPANDABLE_SECTION" in a section "TITLE".
pub proof fn law_row_posted(row: Row, token: Seq<char>, detail: JsonView, fetched_at: u64, a: int, b: int)
    requires
        is_row_of(row, token, detail, fetched_at),
    ensures
        ({
            let dates = |x: int, y: int|
                section_name(detail, x) == "TITLE"@ && kind_name(detail, x, y) == "EXPANDABLE_SECTION"@;
            &&& (place(detail, a, b) && dates(a, b) && forall|x: int, y: int| #[trigger]
                after(detail, a, b, x, y) ==> !dates(x, y)) ==> holds_cell(
                row,
                "posted_raw"@,
                Some(plain(within(data_at(detail, a, b), "title"@))),
            )
            &&& (forall|x: int, y: int| #[trigger] place(detail, x, y) ==> !dates(x, y)) ==> holds_cell(
                row,
                "posted_raw"@,
                None,
            )
        }),
{
    lemma_columns(row, token, detail, fetched_at);
    let dates = |x: int, y: int|
        section_name(detail, x) == "TITLE"@ && kind_name(detail, x, y) == "EXPANDABLE_SECTION"@;
    if place(detail, a, b) && dates(a, b) && (forall|x: int, y: int| #[trigger]
        after(detail, a, b, x, y) ==> !dates(x, y)) {
        lemma_decided(Cell::Posted, detail, a, b);
    }
    if forall|x: int, y: int| #[trigger] place(detail, x, y) ==> !dates(x, y) {
        lemma_undecided(Cell::Posted, detail);
    }
}

/// The description is the text of the last widget in a section "DESCRIPTION" that has
/// one, whatever the widget's type.
pub proof fn law_row_description(row: Row, token: Seq<char>, detail: JsonView, fetched_at: u64, a: int, b: int)
    requires
        is_row_of(row, token, detail, fetched_at),
    ensures
        ({
            let words = |x: int, y: int| plain(within(data_at(detail, x, y), "text"@));
            let tells = |x: int, y: int| section_name(detail, x) == "DESCRIPTION"@ && words(x, y).len() > 0;
            &&& (place(detail, a, b) && tells(a, b) && forall|x: int, y: int| #[trigger]
                after(detail, a, b, x, y) ==> !tells(x, y)) ==> holds_cell(row, "description"@, Some(words(a, b)))
            &&& (forall|x: int, y: int| #[trigger] place(detail, x, y) ==> !tells(x, y)) ==> holds_cell(
                row,
                "description"@,
                None,
            )
        }),
{
    lemma_columns(row, token, detail, fetched_at);
    let words = |x: int, y: int| plain(within(data_at(detail, x, y), "text"@));
    let tells = |x: int, y: int| section_name(detail, x) == "DESCRIPTION"@ && words(x, y).len() > 0;
    if place(detail, a, b) && tells(a, b) && (forall|x: int, y: int| #[trigger]
        after(detail, a, b, x, y) ==> !tells(x, y)) {
        lemma_decided(Cell::Description, detail, a, b);
    }
    if forall|x: int, y: int| #[trigger] place(detail, x, y) ==> !tells(x, y) {
        lemma_undecided(Cell::Description, detail);
    }
}

/// What all widgets give, place by place: `given` says what the one at a place gives.
pub open spec fn gathered(detail: JsonView, given: spec_fn(int, int) -> Seq<Seq<char>>) -> Seq<Seq<char>> {
    Seq::new(
        items(member(detail, "sections"@)).len(),
        |a: int| Seq::new(items(member(section_at(detail, a), "widgets"@)).len(), |b: int| given(a, b)).flatten(),
    ).flatten()
}

proof fn lemma_bags_concat(b: Bag, v: Seq<Widget>, w: Seq<Widget>)
    ensures
        bags(b, v + w) == bags(b, v) + bags(b, w),
    decreases w.len(),
{
    if w.len() == 0 {
        assert(v + w =~= v);
        assert(bags(b, v) + bags(b, w) =~= bags(b, v));
    } else {
        assert((v + w).drop_last() =~= v + w.drop_last());
        lemma_bags_concat(b, v, w.drop_last());
        assert(bags(b, v + w) =~= bags(b, v) + bags(b, w));
    }
}

proof fn lemma_bags_of_section(b: Bag, ws: Seq<Widget>, said: Seq<Seq<Seq<char>>>)
    requires
        ws.len() == said.len(),
        forall|y: int| 0 <= y < ws.len() ==> bag(b, #[trigger] ws[y]) == said[y],
    ensures
        bags(b, ws) == said.flatten(),
    decreases ws.len(),
{
    if ws.len() == 0 {
        assert(said.flatten() =~= Seq::empty());
    } else {
        let n = ws.len() - 1;
        assert forall|y: int| 0 <= y < n implies bag(b, #[trigger] ws.drop_last()[y]) == said.drop_last()[y] by {
            assert(ws.drop_last()[y] == ws[y]);
        }
        lemma_bags_of_section(b, ws.drop_last(), said.drop_last());
        assert(said.take(n + 1) =~= said);
        assert(said.take(n) =~= said.drop_last());
        crate::seqs::lemma_flatten_step(said, n);
        assert(bag(b, ws[n]) == said[n]);
    }
}

proof fn lemma_bags_of_parts(b: Bag, parts: Seq<Seq<Widget>>, said: Seq<Seq<Seq<char>>>)
    requires
        parts.len() == said.len(),
        forall|x: int| 0 <= x < parts.len() ==> bags(b, #[trigger] parts[x]) == said[x],
    ensures
        bags(b, parts.flatten()) == said.flatten(),
    decreases parts.len(),
{
    if parts.len() == 0 {
        assert(said.flatten() =~= Seq::empty());
        assert(parts.flatten() =~= Seq::empty());
    } else {
        let n = parts.len() - 1;
        assert forall|x: int| 0 <= x < n implies bags(b, #[trigger] parts.drop_last()[x]) == said.drop_last()[x] by {
            assert(parts.drop_last()[x] == parts[x]);
        }
        lemma_bags_of_parts(b, parts.drop_last(), said.drop_last());
        assert(said.take(n + 1) =~= said);
        assert(said.take(n) =~= said.drop_last());
        crate::seqs::lemma_flatten_step(said, n);
        assert(parts.take(n + 1) =~= parts);
        assert(parts.take(n) =~= parts.drop_last());
        crate::seqs::lemma_flatten_step(parts, n);
        lemma_bags_concat(b, parts.drop_last().flatten(), parts[n]);
        assert(bags(b, parts[n]) == said[n]);
    }
}

proof fn lemma_gathered(b: Bag, detail: JsonView, given: spec_fn(int, int) -> Seq<Seq<char>>)
    requires
        forall|x: int, y: int| #[trigger]
            place(detail, x, y) ==> bag(
                b,
                Widget {
                    section: section_name(detail, x),
                    kind: kind_name(detail, x, y),
                    data: data_at(detail, x, y),
                },
            ) == given(x, y),
    ensures
        bags(b, widgets(detail)) == gathered(detail, given),
{
    lemma_by_place(detail);
    let parts = by_place(detail);
    let said = Seq::new(
        items(member(detail, "sections"@)).len(),
        |a: int| Seq::new(items(member(section_at(detail, a), "widgets"@)).len(), |b: int| given(a, b)).flatten(),
    );
    assert forall|x: int| 0 <= x < parts.len() implies bags(b, #[trigger] parts[x]) == said[x] by {
        let here = Seq::new(items(member(section_at(detail, x), "widgets"@)).len(), |b: int| given(x, b));
        assert forall|y: int| 0 <= y < parts[x].len() implies bag(b, #[trigger] parts[x][y]) == here[y] by {
            assert(place(detail, x, y));
        }
        lemma_bags_of_section(b, parts[x], here);
    }
    lemma_bags_of_parts(b, parts, said);
}

/// The images of a row are those of every widget in a section "IMAGE", in their order:
/// the addresses of its items that are not empty. They are counted, and joined with " | ".
pub proof fn law_row_images(row: Row, token: Seq<char>, detail: JsonView, fetched_at: u64)
    requires
        is_row_of(row, token, detail, fetched_at),
    ensures
        ({
            let shown = |key: Seq<char>|
                gathered(
                    detail,
                    |a: int, b: int|
                        if section_name(detail, a) == "IMAGE"@ {
                            items(within(data_at(detail, a, b), "items"@)).map_values(
                                |item: JsonView| plain(within(member(item, "image"@), key)),
                            ).filter(|t: Seq<char>| t.len() > 0)
                        } else {
                            Seq::empty()
                        },
                );
            &&& holds_cell(row, "image_count"@, Some(decimal(shown("url"@).len())))
            &&& holds_cell(row, "image_urls"@, Some(joined(shown("url"@), " | "@)))
            &&& holds_cell(row, "thumbnail_urls"@, Some(joined(shown("thumbnail_url"@), " | "@)))
        }),
{
    lemma_columns(row, token, detail, fetched_at);
    let from = |key: Seq<char>|
        |a: int, b: int|
            if section_name(detail, a) == "IMAGE"@ {
                items(within(data_at(detail, a, b), "items"@)).map_values(
                    |item: JsonView| plain(within(member(item, "image"@), key)),
                ).filter(|t: Seq<char>| t.len() > 0)
            } else {
                Seq::empty()
            };
    lemma_gathered(Bag::Images, detail, from("url"@));
    lemma_gathered(Bag::Thumbnails, detail, from("thumbnail_url"@));
}

/// The tags of a row are the texts of the chips of every widget, whatever section it
/// stands in, that are not empty, joined with " | ".
pub proof fn law_row_tags(row: Row, token: Seq<char>, detail: JsonView, fetched_at: u64)
    requires
        is_row_of(row, token, detail, fetched_at),
    ensures
        holds_cell(
            row,
            "tags"@,
            Some(
                joined(
                    gathered(
                        detail,
                        |a: int, b: int|
                            items(within(within(data_at(detail, a, b), "chip_list"@), "chips"@)).map_values(
                                |chip: JsonView| plain(member(chip, "text"@)),
                            ).filter(|t: Seq<char>| t.len() > 0),
                    ),
                    " | "@,
                ),
            ),
        ),
{
    lemma_columns(row, token, detail, fetched_at);
    lemma_gathered(
        Bag::Tags,
        detail,
        |a: int, b: int|
            items(within(within(data_at(detail, a, b), "chip_list"@), "chips"@)).map_values(
                |chip: JsonView| plain(member(chip, "text"@)),
            ).filter(|t: Seq<char>| t.len() > 0),
    );
}

/// The price is what was harvested under the first of four keys that is there; without
/// any of them there is none.
pub proof fn law_row_price(row: Row, token: Seq<char>, detail: JsonView, fetched_at: u64)
    requires
        is_row_of(row, token, detail, fetched_at),
    ensures
        ({
            let m = harvested(detail);
            let a = "قیمت"@;
            let b = "قیمت کل"@;
            let c = "قیمت هر متر"@;
            let d = "مبلغ اجاره"@;
            &&& m.contains_key(a) ==> holds_cell(row, "price_raw"@, Some(m[a]))
            &&& !m.contains_key(a) && m.contains_key(b) ==> holds_cell(row, "price_raw"@, Some(m[b]))
            &&& !m.contains_key(a) && !m.contains_key(b) && m.contains_key(c) ==> holds_cell(row, "price_raw"@, Some(m[c]))
            &&& !m.contains_key(a) && !m.contains_key(b) && !m.contains_key(c) && m.contains_key(d) ==> holds_cell(
                row,
                "price_raw"@,
                Some(m[d]),
            )
            &&& !m.contains_key(a) && !m.contains_key(b) && !m.contains_key(c) && !m.contains_key(d) ==> holds_cell(
                row,
                "price_raw"@,
                None,
            )
        }),
{
    lemma_columns(row, token, detail, fetched_at);
    let keys = price_keys();
    assert(keys.skip(1) =~= seq!["قیمت کل"@, "قیمت هر متر"@, "مبلغ اجاره"@]);
    assert(keys.skip(1).skip(1) =~= seq!["قیمت هر متر"@, "مبلغ اجاره"@]);
    assert(keys.skip(1).skip(1).skip(1) =~= seq!["مبلغ اجاره"@]);
    assert(keys.skip(1).skip(1).skip(1).skip(1) =~= Seq::empty());
    reveal_with_fuel(first_under, 5);
}

} // verus!
