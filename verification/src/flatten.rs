//! A listing's payload as one row of a table.

use vstd::prelude::*;
use vstd::string::StringExecFns;
use crate::harvest::{
    first_wins, flatten_scalars, harvest_pairs, has_part, last_wins, law_nested_pairs_are_found, lemma_first_wins_keys,
    lemma_last_wins_keys, own_pair, pairs_in, plain, s, scalars_in,
};
use crate::json::{get_within, items, list_within, member, seen, trees, within, Json, JsonView};
use crate::keymap::TextMap;
use crate::text::{decimal, decimal_text, join, joined, owned, same, texts};

verus! {

/// The columns that every table has, in this order. What else a payload says becomes
/// a column of its own.
pub open spec fn column_names() -> Seq<Seq<char>> {
    seq![
        "token"@,
        "url"@,
        "title"@,
        "subtitle"@,
        "description"@,
        "seo_title"@,
        "seo_description"@,
        "category"@,
        "city"@,
        "district"@,
        "posted_raw"@,
        "price_raw"@,
        "latitude"@,
        "longitude"@,
        "map_radius_m"@,
        "image_count"@,
        "image_urls"@,
        "thumbnail_urls"@,
        "tags"@,
        "fetched_at"@,
    ]
}

/// The names of the columns that every table has.
pub fn fixed_columns() -> (r: Vec<String>)
    ensures
        texts(r@) == column_names(),
{
    let list = [
        "token",
        "url",
        "title",
        "subtitle",
        "description",
        "seo_title",
        "seo_description",
        "category",
        "city",
        "district",
        "posted_raw",
        "price_raw",
        "latitude",
        "longitude",
        "map_radius_m",
        "image_count",
        "image_urls",
        "thumbnail_urls",
        "tags",
        "fetched_at",
    ];
    let r = owned(&list);
    assert(texts(r@) =~= column_names());
    r
}

/// A widget of a payload: the section it stands in, its type and its data.
pub struct Widget {
    pub section: Seq<char>,
    pub kind: Seq<char>,
    pub data: Option<JsonView>,
}

pub open spec fn widget(section: JsonView, w: JsonView) -> Widget {
    Widget {
        section: plain(member(section, "section_name"@)),
        kind: plain(member(w, "widget_type"@)),
        data: member(w, "data"@),
    }
}

/// The widgets of a section.
pub open spec fn section_widgets(section: JsonView) -> Seq<Widget> {
    items(member(section, "widgets"@)).map_values(|w: JsonView| widget(section, w))
}

/// The sections of a payload.
pub open spec fn sections(detail: JsonView) -> Seq<JsonView> {
    items(member(detail, "sections"@))
}

/// The widgets of a payload, section by section.
pub open spec fn widgets(detail: JsonView) -> Seq<Widget> {
    sections(detail).map_values(|section: JsonView| section_widgets(section)).flatten()
}

/// A column of which the last widget that speaks of it decides.
#[derive(Clone, Copy)]
pub enum Cell {
    Title,
    Subtitle,
    Posted,
    Description,
    Latitude,
    Longitude,
    Radius,
}

/// The point of a location: the fuzzy one, or else the exact one.
pub open spec fn point(location: Option<JsonView>) -> Option<JsonView> {
    let fuzzy = within(within(location, "fuzzy_data"@), "point"@);
    if fuzzy is Some {
        fuzzy
    } else {
        within(within(location, "exact_data"@), "point"@)
    }
}

/// What a widget says for a column.
pub open spec fn cell(c: Cell, w: Widget) -> Option<Seq<char>> {
    let location = within(w.data, "location"@);
    match c {
        Cell::Title => if w.section == "TITLE"@ && w.kind == "LEGEND_TITLE_ROW"@ {
            Some(plain(within(w.data, "title"@)))
        } else {
            None
        },
        Cell::Subtitle => if w.section == "TITLE"@ && w.kind == "LEGEND_TITLE_ROW"@ {
            Some(plain(within(w.data, "subtitle"@)))
        } else {
            None
        },
        Cell::Posted => if w.section == "TITLE"@ && w.kind == "EXPANDABLE_SECTION"@ {
            Some(plain(within(w.data, "title"@)))
        } else {
            None
        },
        Cell::Description => if w.section == "DESCRIPTION"@ && plain(within(w.data, "text"@)).len() > 0 {
            Some(plain(within(w.data, "text"@)))
        } else {
            None
        },
        Cell::Latitude => if w.section == "MAP"@ && point(location) is Some {
            Some(plain(within(point(location), "latitude"@)))
        } else {
            None
        },
        Cell::Longitude => if w.section == "MAP"@ && point(location) is Some {
            Some(plain(within(point(location), "longitude"@)))
        } else {
            None
        },
        Cell::Radius => if w.section == "MAP"@ && within(within(location, "fuzzy_data"@), "radius"@) is Some {
            Some(plain(within(within(location, "fuzzy_data"@), "radius"@)))
        } else {
            None
        },
    }
}

/// What the last widget that speaks of a column says.
pub open spec fn last_cell(c: Cell, ws: Seq<Widget>) -> Option<Seq<char>>
    decreases ws.len(),
{
    if ws.len() == 0 {
        None
    } else if cell(c, ws.last()) is Some {
        cell(c, ws.last())
    } else {
        last_cell(c, ws.drop_last())
    }
}

/// A column that lists what all widgets say.
#[derive(Clone, Copy)]
pub enum Bag {
    Images,
    Thumbnails,
    Tags,
}

/// The texts that are not empty.
pub open spec fn said(list: Seq<Seq<char>>) -> Seq<Seq<char>> {
    list.filter(|t: Seq<char>| t.len() > 0)
}

/// What a gallery says under `key` of each of its images.
pub open spec fn image_texts(data: Option<JsonView>, key: Seq<char>) -> Seq<Seq<char>> {
    said(items(within(data, "items"@)).map_values(|item: JsonView| plain(within(member(item, "image"@), key))))
}

/// The texts of a widget's chips.
pub open spec fn chip_texts(data: Option<JsonView>) -> Seq<Seq<char>> {
    said(
        items(within(within(data, "chip_list"@), "chips"@)).map_values(
            |chip: JsonView| plain(member(chip, "text"@)),
        ),
    )
}

/// What a widget adds to a column.
pub open spec fn bag(b: Bag, w: Widget) -> Seq<Seq<char>> {
    match b {
        Bag::Images => if w.section == "IMAGE"@ {
            image_texts(w.data, "url"@)
        } else {
            Seq::empty()
        },
        Bag::Thumbnails => if w.section == "IMAGE"@ {
            image_texts(w.data, "thumbnail_url"@)
        } else {
            Seq::empty()
        },
        Bag::Tags => chip_texts(w.data),
    }
}

/// What all widgets add to a column, in their order.
pub open spec fn bags(b: Bag, ws: Seq<Widget>) -> Seq<Seq<char>>
    decreases ws.len(),
{
    if ws.len() == 0 {
        Seq::empty()
    } else {
        bags(b, ws.drop_last()) + bag(b, ws.last())
    }
}

/// What has been read of the widgets so far.
struct Reading {
    title: Option<String>,
    subtitle: Option<String>,
    posted: Option<String>,
    description: Option<String>,
    latitude: Option<String>,
    longitude: Option<String>,
    radius: Option<String>,
    images: Vec<String>,
    thumbnails: Vec<String>,
    tags: Vec<String>,
}

spec fn opt_text(t: Option<String>) -> Option<Seq<char>> {
    match t {
        Some(x) => Some(x@),
        None => None,
    }
}

impl Reading {
    spec fn of(self, ws: Seq<Widget>) -> bool {
        &&& opt_text(self.title) == last_cell(Cell::Title, ws)
        &&& opt_text(self.subtitle) == last_cell(Cell::Subtitle, ws)
        &&& opt_text(self.posted) == last_cell(Cell::Posted, ws)
        &&& opt_text(self.description) == last_cell(Cell::Description, ws)
        &&& opt_text(self.latitude) == last_cell(Cell::Latitude, ws)
        &&& opt_text(self.longitude) == last_cell(Cell::Longitude, ws)
        &&& opt_text(self.radius) == last_cell(Cell::Radius, ws)
        &&& texts(self.images@) == bags(Bag::Images, ws)
        &&& texts(self.thumbnails@) == bags(Bag::Thumbnails, ws)
        &&& texts(self.tags@) == bags(Bag::Tags, ws)
    }

    /// Reads one widget more.
    fn read(&mut self, section: &str, w: &Json, Ghost(ws): Ghost<Seq<Widget>>, Ghost(now): Ghost<Widget>)
        requires
            old(self).of(ws),
            now.section == section@,
            now.kind == plain(member(w@, "widget_type"@)),
            now.data == member(w@, "data"@),
        ensures
            final(self).of(ws.push(now)),
    {
        let kind = s(w.get("widget_type"));
        let data = w.get("data");
        proof {
            assert(ws.push(now).drop_last() =~= ws);
            assert(ws.push(now).last() == now);
        }
        if same(section, "TITLE") {
            if same(kind.as_str(), "LEGEND_TITLE_ROW") {
                self.title = Some(s(get_within(data, "title")));
                self.subtitle = Some(s(get_within(data, "subtitle")));
            }
            if same(kind.as_str(), "EXPANDABLE_SECTION") {
                self.posted = Some(s(get_within(data, "title")));
            }
        }
        if same(section, "DESCRIPTION") {
            let content = s(get_within(data, "text"));
            if !content.as_str().is_empty() {
                self.description = Some(content);
            }
        }
        if same(section, "IMAGE") {
            image_cells(data, "url", &mut self.images);
            image_cells(data, "thumbnail_url", &mut self.thumbnails);
        }
        chip_cells(data, &mut self.tags);
        if same(section, "MAP") {
            let location = get_within(data, "location");
            let fuzzy = get_within(location, "fuzzy_data");
            let exact = get_within(location, "exact_data");
            let place = match get_within(fuzzy, "point") {
                Some(p) => Some(p),
                None => get_within(exact, "point"),
            };
            if place.is_some() {
                self.latitude = Some(s(get_within(place, "latitude")));
                self.longitude = Some(s(get_within(place, "longitude")));
            }
            let radius = get_within(fuzzy, "radius");
            if radius.is_some() {
                self.radius = Some(s(radius));
            }
        }
    }
}

fn image_cells(data: Option<&Json>, key: &str, out: &mut Vec<String>)
    ensures
        texts(final(out)@) == texts(old(out)@) + image_texts(seen(data), key@),
{
    let ghost start = texts(out@);
    let ghost all = items(within(seen(data), "items"@)).map_values(
        |item: JsonView| plain(within(member(item, "image"@), key@)),
    );
    let ghost keep = |t: Seq<char>| t.len() > 0;
    assert(start + all.take(0).filter(keep) =~= start) by {
        reveal(Seq::filter);
    }
    match list_within(get_within(data, "items")) {
        None => {
            assert(all.take(0) =~= all);
        },
        Some(list) => {
            for i in 0..list.len()
                invariant
                    all == trees(list@).map_values(|item: JsonView| plain(within(member(item, "image"@), key@))),
                    keep == (|t: Seq<char>| t.len() > 0),
                    texts(out@) == start + all.take(i as int).filter(keep),
            {
                let cell = s(get_within(list[i].get("image"), key));
                proof {
                    assert(all[i as int] == cell@);
                    crate::seqs::lemma_filter_step(all, keep, i as int);
                }
                if !cell.as_str().is_empty() {
                    let ghost before = texts(out@);
                    let ghost now = cell@;
                    out.push(cell);
                    assert(texts(out@) =~= before.push(now));
                }
                assert(texts(out@) =~= start + all.take(i + 1).filter(keep));
            }
            assert(all.take(list@.len() as int) =~= all);
        },
    }
}

fn chip_cells(data: Option<&Json>, out: &mut Vec<String>)
    ensures
        texts(final(out)@) == texts(old(out)@) + chip_texts(seen(data)),
{
    let ghost start = texts(out@);
    let ghost all = items(within(within(seen(data), "chip_list"@), "chips"@)).map_values(
        |chip: JsonView| plain(member(chip, "text"@)),
    );
    let ghost keep = |t: Seq<char>| t.len() > 0;
    assert(start + all.take(0).filter(keep) =~= start) by {
        reveal(Seq::filter);
    }
    match list_within(get_within(get_within(data, "chip_list"), "chips")) {
        None => {
            assert(all.take(0) =~= all);
        },
        Some(list) => {
            for i in 0..list.len()
                invariant
                    all == trees(list@).map_values(|chip: JsonView| plain(member(chip, "text"@))),
                    keep == (|t: Seq<char>| t.len() > 0),
                    texts(out@) == start + all.take(i as int).filter(keep),
            {
                let cell = s(list[i].get("text"));
                proof {
                    assert(all[i as int] == cell@);
                    crate::seqs::lemma_filter_step(all, keep, i as int);
                }
                if !cell.as_str().is_empty() {
                    let ghost before = texts(out@);
                    let ghost now = cell@;
                    out.push(cell);
                    assert(texts(out@) =~= before.push(now));
                }
                assert(texts(out@) =~= start + all.take(i + 1).filter(keep));
            }
            assert(all.take(list@.len() as int) =~= all);
        },
    }
}

/// The first of the texts that is not empty.
pub open spec fn first_said(list: Seq<Seq<char>>) -> Seq<char>
    decreases list.len(),
{
    if list.len() == 0 {
        Seq::empty()
    } else if list[0].len() > 0 {
        list[0]
    } else {
        first_said(list.skip(1))
    }
}

/// The category that a payload names for itself.
pub open spec fn category(detail: JsonView) -> Seq<char> {
    first_said(
        seq![
            plain(within(member(detail, "category"@), "slug"@)),
            plain(within(member(detail, "web_info"@), "category_slug"@)),
            plain(member(detail, "category"@)),
        ],
    )
}

/// All pairs of the sections, and over them the scalars that the payload gives for
/// analysis.
pub open spec fn harvested(detail: JsonView) -> Map<Seq<char>, Seq<char>> {
    let pairs = sections(detail).map_values(|section: JsonView| pairs_in(section)).flatten();
    let shown = first_wins(Map::empty(), pairs);
    let engaged = last_wins(shown, analysis(detail, "webengage"@, "webengage_"@));
    last_wins(engaged, analysis(detail, "analytics"@, "analytics_"@))
}

/// The scalars under one key of the payload.
pub open spec fn analysis(detail: JsonView, key: Seq<char>, prefix: Seq<char>) -> Seq<(Seq<char>, Seq<char>)> {
    match member(detail, key) {
        Some(v) => scalars_in(v, prefix),
        None => Seq::empty(),
    }
}

/// The keys under which a price may stand, the one to be preferred first.
pub open spec fn price_keys() -> Seq<Seq<char>> {
    seq!["قیمت"@, "قیمت کل"@, "قیمت هر متر"@, "مبلغ اجاره"@]
}

/// The value under the first of `keys` that is there.
pub open spec fn first_under(m: Map<Seq<char>, Seq<char>>, keys: Seq<Seq<char>>) -> Option<Seq<char>>
    decreases keys.len(),
{
    if keys.len() == 0 {
        None
    } else if m.contains_key(keys[0]) {
        Some(m[keys[0]])
    } else {
        first_under(m, keys.skip(1))
    }
}

/// `m` with a value under `key`, if there is one.
pub open spec fn with(
    m: Map<Seq<char>, Seq<char>>,
    key: Seq<char>,
    value: Option<Seq<char>>,
) -> Map<Seq<char>, Seq<char>> {
    match value {
        Some(v) => m.insert(key, v),
        None => m,
    }
}

/// The cells of a row that stand in columns every table has.
pub open spec fn fixed_cells(token: Seq<char>, detail: JsonView, fetched_at: u64) -> Map<Seq<char>, Seq<char>> {
    let ws = widgets(detail);
    let m = Map::<Seq<char>, Seq<char>>::empty();
    let m = m.insert("token"@, token);
    let m = m.insert("url"@, "https://divar.ir/v/-/"@ + token);
    let m = m.insert("fetched_at"@, decimal(fetched_at as nat));
    let m = m.insert("seo_title"@, plain(within(member(detail, "seo"@), "title"@)));
    let m = m.insert("seo_description"@, plain(within(member(detail, "seo"@), "description"@)));
    let m = m.insert("city"@, plain(within(member(detail, "city"@), "name"@)));
    let m = m.insert("district"@, plain(within(member(detail, "district"@), "name"@)));
    let m = m.insert("category"@, category(detail));
    let m = with(m, "title"@, last_cell(Cell::Title, ws));
    let m = with(m, "subtitle"@, last_cell(Cell::Subtitle, ws));
    let m = with(m, "posted_raw"@, last_cell(Cell::Posted, ws));
    let m = with(m, "description"@, last_cell(Cell::Description, ws));
    let m = with(m, "latitude"@, last_cell(Cell::Latitude, ws));
    let m = with(m, "longitude"@, last_cell(Cell::Longitude, ws));
    let m = with(m, "map_radius_m"@, last_cell(Cell::Radius, ws));
    let m = with(m, "price_raw"@, first_under(harvested(detail), price_keys()));
    let m = m.insert("image_count"@, decimal(bags(Bag::Images, ws).len()));
    let m = m.insert("image_urls"@, joined(bags(Bag::Images, ws), " | "@));
    let m = m.insert("thumbnail_urls"@, joined(bags(Bag::Thumbnails, ws), " | "@));
    m.insert("tags"@, joined(bags(Bag::Tags, ws), " | "@))
}

/// The other cells of a row: what was harvested, except under the name of a column
/// that every table has.
pub open spec fn dynamic_cells(detail: JsonView) -> Map<Seq<char>, Seq<char>> {
    harvested(detail).remove_keys(column_names().to_set())
}

/// One listing as a row.
#[derive(Debug, PartialEq)]
pub struct Row {
    pub fixed: TextMap,
    pub dynamic: TextMap,
}

/// The row is that of a listing.
pub open spec fn is_row_of(row: Row, token: Seq<char>, detail: JsonView, fetched_at: u64) -> bool {
    &&& row.fixed@ == fixed_cells(token, detail, fetched_at)
    &&& row.dynamic@ == dynamic_cells(detail)
}

fn put_some(m: &mut TextMap, key: &str, value: Option<String>)
    ensures
        final(m)@ == with(old(m)@, key@, opt_text(value)),
{
    match value {
        Some(v) => {
            m.insert(key.to_owned(), v);
        },
        None => {},
    }
}

fn read_widgets(parts: &Vec<Json>, Ghost(detail): Ghost<JsonView>) -> (r: Reading)
    requires
        trees(parts@) == sections(detail),
    ensures
        r.of(widgets(detail)),
{
    let mut reading = Reading {
        title: None,
        subtitle: None,
        posted: None,
        description: None,
        latitude: None,
        longitude: None,
        radius: None,
        images: Vec::new(),
        thumbnails: Vec::new(),
        tags: Vec::new(),
    };
    let ghost all = sections(detail).map_values(|section: JsonView| section_widgets(section));
    proof {
        let none = Seq::<Widget>::empty();
        assert(all.take(0).flatten() =~= none);
        assert(texts(reading.images@) =~= bags(Bag::Images, none));
        assert(texts(reading.thumbnails@) =~= bags(Bag::Thumbnails, none));
        assert(texts(reading.tags@) =~= bags(Bag::Tags, none));
    }
    for i in 0..parts.len()
        invariant
            trees(parts@) == sections(detail),
            all == sections(detail).map_values(|section: JsonView| section_widgets(section)),
            reading.of(all.take(i as int).flatten()),
    {
        let section = &parts[i];
        let name = s(section.get("section_name"));
        let ghost before = all.take(i as int).flatten();
        let ghost here = section_widgets(section@);
        proof {
            assert(sections(detail)[i as int] == section@);
            assert(all[i as int] == here);
            crate::seqs::lemma_flatten_step(all, i as int);
            assert(before + here.take(0) =~= before);
        }
        match list_within(section.get("widgets")) {
            None => {
                assert(before + here =~= before);
            },
            Some(list) => {
                for j in 0..list.len()
                    invariant
                        name@ == plain(member(section@, "section_name"@)),
                        here == trees(list@).map_values(|w: JsonView| widget(section@, w)),
                        reading.of(before + here.take(j as int)),
                {
                    let w = &list[j];
                    assert(here[j as int] == widget(section@, w@));
                    reading.read(
                        name.as_str(),
                        w,
                        Ghost(before + here.take(j as int)),
                        Ghost(here[j as int]),
                    );
                    assert((before + here.take(j as int)).push(here[j as int]) =~= before + here.take(j + 1));
                }
                assert(before + here.take(list@.len() as int) =~= before + here);
            },
        }
    }
    assert(all.take(parts@.len() as int) =~= all);
    reading
}

fn harvest_all(parts: &Vec<Json>, detail: &Json) -> (r: TextMap)
    requires
        trees(parts@) == sections(detail@),
    ensures
        r@ == harvested(detail@),
{
    let mut out = TextMap::new();
    let ghost all = sections(detail@).map_values(|section: JsonView| pairs_in(section));
    assert(all.take(0).flatten() =~= Seq::empty());
    for i in 0..parts.len()
        invariant
            trees(parts@) == sections(detail@),
            all == sections(detail@).map_values(|section: JsonView| pairs_in(section)),
            out@ == first_wins(Map::empty(), all.take(i as int).flatten()),
    {
        harvest_pairs(&parts[i], &mut out);
        proof {
            assert(sections(detail@)[i as int] == parts@[i as int]@);
            crate::seqs::lemma_flatten_step(all, i as int);
            crate::harvest::lemma_first_wins_concat(
                Map::empty(),
                all.take(i as int).flatten(),
                all[i as int],
            );
        }
    }
    assert(all.take(parts@.len() as int) =~= all);
    match detail.get("webengage") {
        Some(v) => {
            flatten_scalars(v, "webengage_", &mut out);
        },
        None => {},
    }
    match detail.get("analytics") {
        Some(v) => {
            flatten_scalars(v, "analytics_", &mut out);
        },
        None => {},
    }
    out
}

fn find_price(m: &TextMap) -> (r: Option<String>)
    ensures
        opt_text(r) == first_under(m@, price_keys()),
{
    let keys = owned(&["قیمت", "قیمت کل", "قیمت هر متر", "مبلغ اجاره"]);
    let ghost all = price_keys();
    assert(texts(keys@) =~= all);
    assert(all.skip(0) =~= all);
    for i in 0..keys.len()
        invariant
            all == price_keys(),
            texts(keys@) == all,
            first_under(m@, all) == first_under(m@, all.skip(i as int)),
    {
        proof {
            assert(all.skip(i as int)[0] == keys@[i as int]@);
            assert(all.skip(i as int).skip(1) =~= all.skip(i + 1));
        }
        match m.get(keys[i].as_str()) {
            Some(v) => return Some(v.clone()),
            None => {},
        }
    }
    None
}

fn find_category(detail: &Json) -> (r: String)
    ensures
        r@ == category(detail@),
{
    let slug = s(get_within(detail.get("category"), "slug"));
    let web = s(get_within(detail.get("web_info"), "category_slug"));
    let whole = s(detail.get("category"));
    proof {
        let list = seq![slug@, web@, whole@];
        assert(list.skip(1) =~= seq![web@, whole@]);
        assert(list.skip(1).skip(1) =~= seq![whole@]);
        assert(list.skip(1).skip(1).skip(1) =~= Seq::empty());
        reveal_with_fuel(first_said, 4);
    }
    if !slug.as_str().is_empty() {
        slug
    } else if !web.as_str().is_empty() {
        web
    } else {
        whole
    }
}

/// Makes a row of a listing's payload.
pub fn flatten(token: &str, detail: &Json, fetched_at: u64) -> (r: Row)
    ensures
        is_row_of(r, token@, detail@, fetched_at),
{
    let empty: Vec<Json> = Vec::new();
    let parts: &Vec<Json> = match list_within(detail.get("sections")) {
        Some(list) => list,
        None => &empty,
    };
    assert(trees(parts@) =~= sections(detail@));
    let reading = read_widgets(parts, Ghost(detail@));
    let mut dynamic = harvest_all(parts, detail);

    let mut fixed = TextMap::new();
    fixed.insert("token".to_owned(), token.to_owned());
    fixed.insert("url".to_owned(), "https://divar.ir/v/-/".to_owned().concat(token));
    fixed.insert("fetched_at".to_owned(), decimal_text(fetched_at));
    fixed.insert("seo_title".to_owned(), s(get_within(detail.get("seo"), "title")));
    fixed.insert("seo_description".to_owned(), s(get_within(detail.get("seo"), "description")));
    fixed.insert("city".to_owned(), s(get_within(detail.get("city"), "name")));
    fixed.insert("district".to_owned(), s(get_within(detail.get("district"), "name")));
    fixed.insert("category".to_owned(), find_category(detail));
    put_some(&mut fixed, "title", reading.title);
    put_some(&mut fixed, "subtitle", reading.subtitle);
    put_some(&mut fixed, "posted_raw", reading.posted);
    put_some(&mut fixed, "description", reading.description);
    put_some(&mut fixed, "latitude", reading.latitude);
    put_some(&mut fixed, "longitude", reading.longitude);
    put_some(&mut fixed, "map_radius_m", reading.radius);
    put_some(&mut fixed, "price_raw", find_price(&dynamic));
    fixed.insert("image_count".to_owned(), decimal_text(reading.images.len() as u64));
    fixed.insert("image_urls".to_owned(), join(&reading.images, " | "));
    fixed.insert("thumbnail_urls".to_owned(), join(&reading.thumbnails, " | "));
    fixed.insert("tags".to_owned(), join(&reading.tags, " | "));

    let columns = fixed_columns();
    let ghost all = harvested(detail@);
    let ghost names = column_names();
    assert(dynamic@ =~= all.remove_keys(names.take(0).to_set()));
    for i in 0..columns.len()
        invariant
            texts(columns@) == names,
            dynamic@ == all.remove_keys(names.take(i as int).to_set()),
    {
        dynamic.remove(columns[i].as_str());
        proof {
            assert(names[i as int] == columns@[i as int]@);
            assert(names.take(i + 1) =~= names.take(i as int).push(names[i as int]));
            assert forall|k: Seq<char>| #[trigger] names.take(i + 1).to_set().contains(k) <==> names.take(
                i as int,
            ).to_set().contains(k) || k == names[i as int] by {
                if k == names[i as int] {
                    assert(names.take(i + 1)[i as int] == k);
                }
                if names.take(i as int).contains(k) {
                    let j = choose|j: int| 0 <= j < i && names.take(i as int)[j] == k;
                    assert(names.take(i + 1)[j] == k);
                }
            }
            assert(dynamic@ =~= all.remove_keys(names.take(i + 1).to_set()));
        }
    }
    assert(names.take(columns@.len() as int) =~= names);
    Row { fixed, dynamic }
}

/// Whatever widget a payload puts a pair into, the pair's key is harvested, and it has
/// a column of its own unless every table has one of that name.
pub proof fn law_every_pair_is_harvested(detail: JsonView, section: int, pairs: Seq<(Seq<char>, JsonView)>)
    requires
        0 <= section < sections(detail).len(),
        has_part(sections(detail)[section], JsonView::Dict(pairs)),
        own_pair(pairs).len() > 0,
    ensures
        harvested(detail).contains_key(own_pair(pairs)[0].0),
        !column_names().contains(own_pair(pairs)[0].0) ==> dynamic_cells(detail).contains_key(own_pair(pairs)[0].0),
{
    let pair = own_pair(pairs)[0];
    let parts = sections(detail).map_values(|part: JsonView| pairs_in(part));
    let all = parts.flatten();
    law_nested_pairs_are_found(sections(detail)[section], pairs);
    assert(parts[section] == pairs_in(sections(detail)[section]));
    crate::seqs::lemma_flatten_has(parts, section, pair);
    let i = choose|i: int| 0 <= i < all.len() && all[i] == pair;
    let shown = first_wins(Map::empty(), all);
    lemma_first_wins_keys(Map::empty(), all);
    assert(shown.contains_key(all[i].0));
    let web = analysis(detail, "webengage"@, "webengage_"@);
    lemma_last_wins_keys(shown, web);
    lemma_last_wins_keys(last_wins(shown, web), analysis(detail, "analytics"@, "analytics_"@));
}

/// A harvested cell never stands under the name of a column that every table has, and
/// the other cells stand under no other name.
pub proof fn law_columns_do_not_clash(token: Seq<char>, detail: JsonView, fetched_at: u64, key: Seq<char>)
    ensures
        dynamic_cells(detail).contains_key(key) ==> !column_names().contains(key),
        fixed_cells(token, detail, fetched_at).contains_key(key) ==> column_names().contains(key),
{
    let names = column_names();
    assert(names[0] == "token"@ && names[1] == "url"@ && names[2] == "title"@ && names[3] == "subtitle"@);
    assert(names[4] == "description"@ && names[5] == "seo_title"@ && names[6] == "seo_description"@);
    assert(names[7] == "category"@ && names[8] == "city"@ && names[9] == "district"@ && names[10] == "posted_raw"@);
    assert(names[11] == "price_raw"@ && names[12] == "latitude"@ && names[13] == "longitude"@);
    assert(names[14] == "map_radius_m"@ && names[15] == "image_count"@ && names[16] == "image_urls"@);
    assert(names[17] == "thumbnail_urls"@ && names[18] == "tags"@ && names[19] == "fetched_at"@);
    if dynamic_cells(detail).contains_key(key) && names.contains(key) {
        assert(names.to_set().contains(key));
    }
}

} // verus!
