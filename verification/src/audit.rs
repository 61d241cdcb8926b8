//! Whether what was found is what was asked for.

use vstd::prelude::*;
use crate::export::{entries, entry_of, Entry};
use crate::flatten::{dynamic_cells, fixed_cells, flatten, Row};
use crate::json::{trees, Json, JsonView};
use crate::keymap::{KeyMap, KeySet};
use crate::probe::{count_label, counts_of};
use crate::search::listing_views;
use crate::store::{blames, read_jsonl, readable, record_token, records, token_of, BadLine, TokenSet};
use crate::text::{list_items, owned, same, split_list, texts, trimmed};

verus! {

/// The categories below the one for all vehicles.
pub open spec fn vehicle_subtree() -> Seq<Seq<char>> {
    seq![
        "auto"@,
        "light"@,
        "heavy"@,
        "classic"@,
        "motorcycles"@,
        "auto-parts"@,
        "car-rental"@,
        "vehicles"@,
        "cars"@,
    ]
}

/// The category stands for all vehicles.
pub open spec fn is_parent(category: Seq<char>) -> bool {
    category == "auto"@ || category == "vehicles"@
}

/// The categories that results may have when `category` was asked for. Categories are
/// a tree, and a parent's results carry the names of its children, so the test is one
/// for membership and not for likeness of names.
pub open spec fn accepted(category: Seq<char>) -> Set<Seq<char>> {
    if is_parent(category) {
        vehicle_subtree().to_set().insert(category)
    } else {
        set![category]
    }
}

/// The categories that results may have when any of `list` was asked for.
pub open spec fn accepted_any(list: Seq<Seq<char>>) -> Set<Seq<char>>
    decreases list.len(),
{
    if list.len() == 0 {
        Set::empty()
    } else {
        accepted_any(list.drop_last()).union(accepted(list.last()))
    }
}

fn add_all(set: &mut KeySet, list: &Vec<String>)
    ensures
        final(set)@ == old(set)@.union(texts(list@).to_set()),
{
    let ghost start = set@;
    let ghost all = texts(list@);
    assert(set@ =~= start.union(all.take(0).to_set()));
    for i in 0..list.len()
        invariant
            all == texts(list@),
            set@ == start.union(all.take(i as int).to_set()),
    {
        set.insert(list[i].clone());
        proof {
            assert(all[i as int] == list@[i as int]@);
            crate::seqs::lemma_to_set_step(all, i as int);
            assert(set@ =~= start.union(all.take(i + 1).to_set()));
        }
    }
    assert(all.take(list@.len() as int) =~= all);
}

fn add_accepted(set: &mut KeySet, category: &str)
    ensures
        final(set)@ == old(set)@.union(accepted(category@)),
{
    let ghost start = set@;
    set.insert(category.to_owned());
    if same(category, "auto") || same(category, "vehicles") {
        let subtree = owned(
            &["auto", "light", "heavy", "classic", "motorcycles", "auto-parts", "car-rental", "vehicles", "cars"],
        );
        assert(texts(subtree@) =~= vehicle_subtree());
        add_all(set, &subtree);
    }
    assert(set@ =~= start.union(accepted(category@)));
}

/// The categories that results may have when `category` was asked for.
pub fn accepted_slugs(category: &str) -> (r: KeySet)
    ensures
        r@ == accepted(category@),
        category@ != "auto"@ && category@ != "vehicles"@ ==> forall|slug: Seq<char>|
            #[trigger] r@.contains(slug) <==> slug == category@,
        category@ == "auto"@ || category@ == "vehicles"@ ==> r@.contains("auto"@) && r@.contains("light"@) && r@.contains(
            "heavy"@,
        ) && r@.contains("classic"@) && r@.contains("motorcycles"@) && r@.contains("auto-parts"@) && r@.contains(
            "car-rental"@,
        ) && r@.contains("vehicles"@) && r@.contains("cars"@),
{
    let mut set = KeySet::new();
    add_accepted(&mut set, category);
    proof {
        assert(set@ =~= accepted(category@));
        let tree = vehicle_subtree();
        assert(tree[0] == "auto"@ && tree[1] == "light"@ && tree[2] == "heavy"@ && tree[3] == "classic"@);
        assert(tree[4] == "motorcycles"@ && tree[5] == "auto-parts"@ && tree[6] == "car-rental"@);
        assert(tree[7] == "vehicles"@ && tree[8] == "cars"@);
    }
    set
}

/// The categories that are accepted in a run: those that were named, or where none
/// were, those that follow from what was asked for.
pub open spec fn accepted_in_run(categories: Seq<Seq<char>>, named: Seq<char>) -> Set<Seq<char>> {
    if trimmed(named).len() == 0 {
        accepted_any(categories)
    } else {
        list_items(named).to_set()
    }
}

/// The categories that are accepted in a run.
pub fn run_accepts(categories: &Vec<String>, named: &str) -> (r: KeySet)
    ensures
        r@ == accepted_in_run(texts(categories@), named@),
{
    let mut set = KeySet::new();
    if crate::text::is_blank(named) {
        let ghost all = texts(categories@);
        assert(set@ =~= accepted_any(all.take(0)));
        for i in 0..categories.len()
            invariant
                all == texts(categories@),
                set@ == accepted_any(all.take(i as int)),
        {
            add_accepted(&mut set, categories[i].as_str());
            proof {
                assert(all.take(i + 1).drop_last() =~= all.take(i as int));
                assert(all.take(i + 1).last() == categories@[i as int]@);
            }
        }
        assert(all.take(categories@.len() as int) =~= all);
    } else {
        let list = split_list(named);
        add_all(&mut set, &list);
        assert(set@ =~= list_items(named@).to_set());
    }
    set
}

/// A parent accepts its whole subtree and no other category does: not even one of its
/// children accepts another.
pub proof fn law_only_parents_accept_others(category: Seq<char>, slug: Seq<char>)
    ensures
        accepted(category).contains(category),
        is_parent(category) && vehicle_subtree().contains(slug) ==> accepted(category).contains(slug),
        !is_parent(category) && slug != category ==> !accepted(category).contains(slug),
{
}

/// The categories of listings.
pub open spec fn slugs(list: Seq<(Seq<char>, Seq<char>)>) -> Seq<Seq<char>> {
    list.map_values(|p: (Seq<char>, Seq<char>)| p.1)
}

/// How many of the labels are accepted.
pub open spec fn matching(labels: Seq<Seq<char>>, accept: Set<Seq<char>>) -> nat {
    labels.filter(|label: Seq<char>| accept.contains(label)).len()
}

/// How many labels say something.
pub open spec fn labelled(labels: Seq<Seq<char>>) -> nat {
    labels.filter(|label: Seq<char>| label.len() > 0).len()
}

/// What the categories of the listings found come to.
pub struct CategoryReport {
    /// How often each category occurs.
    pub counts: KeyMap<usize>,
    /// How many listings have an accepted category.
    pub matched: usize,
    /// How many listings have a category at all.
    pub known: usize,
}

/// Counts the categories of listings; nothing where there are no listings.
pub fn audit_categories(list: &Vec<(String, String)>, accept: &KeySet) -> (r: Option<CategoryReport>)
    ensures
        r is None <==> list@.len() == 0,
        r matches Some(report) ==> {
            let labels = slugs(listing_views(list@));
            &&& counts_of(report.counts.pairs(), labels)
            &&& report.matched == matching(labels, accept@)
            &&& report.known == labelled(labels)
        },
{
    if list.len() == 0 {
        return None;
    }
    let ghost labels = slugs(listing_views(list@));
    let ghost takes = |label: Seq<char>| accept@.contains(label);
    let ghost says = |label: Seq<char>| label.len() > 0;
    let mut counts: KeyMap<usize> = KeyMap::new();
    let mut matched: usize = 0;
    let mut known: usize = 0;
    proof {
        assert(labels.take(0) =~= Seq::empty());
        reveal(Seq::filter);
    }
    for i in 0..list.len()
        invariant
            labels == slugs(listing_views(list@)),
            takes == (|label: Seq<char>| accept@.contains(label)),
            says == (|label: Seq<char>| label.len() > 0),
            counts_of(counts.pairs(), labels.take(i as int)),
            matched <= i,
            known <= i,
            matched == labels.take(i as int).filter(takes).len(),
            known == labels.take(i as int).filter(says).len(),
    {
        let slug = list[i].1.as_str();
        proof {
            assert(listing_views(list@)[i as int] == (list@[i as int].0@, list@[i as int].1@));
            assert(labels[i as int] == slug@);
            assert(labels.take(i + 1) =~= labels.take(i as int).push(slug@));
            crate::seqs::lemma_filter_step(labels, takes, i as int);
            crate::seqs::lemma_filter_step(labels, says, i as int);
        }
        count_label(&mut counts, slug, Ghost(labels.take(i as int)));
        if accept.contains(slug) {
            matched = matched + 1;
        }
        if !slug.is_empty() {
            known = known + 1;
        }
    }
    assert(labels.take(list@.len() as int) =~= labels);
    Some(CategoryReport { counts, matched, known })
}

/// What a report on categories means.
#[derive(Clone, Copy, Debug, PartialEq)]
pub enum CategoryVerdict {
    /// The feed gave no categories; nothing can be said.
    Unlabelled,
    Pass,
    Fail,
}

/// Judges a report. `below` says whether the share of accepted categories is below what
/// was demanded; a feed without categories is not held to it.
pub fn judge_categories(report: &CategoryReport, below: bool) -> (r: CategoryVerdict)
    ensures
        r == if report.known == 0 {
            CategoryVerdict::Unlabelled
        } else if below {
            CategoryVerdict::Fail
        } else {
            CategoryVerdict::Pass
        },
        r == CategoryVerdict::Unlabelled <==> report.known == 0,
        r == CategoryVerdict::Fail <==> report.known > 0 && below,
{
    if report.known == 0 {
        CategoryVerdict::Unlabelled
    } else if below {
        CategoryVerdict::Fail
    } else {
        CategoryVerdict::Pass
    }
}

/// What only a vehicle's listing says.
pub open spec fn vehicle_keys() -> Seq<Seq<char>> {
    seq![
        "کارکرد"@,
        "مدل (سال تولید)"@,
        "مدل (سال ساخت)"@,
        "نوع سوخت"@,
        "گیربکس"@,
        "وضعیت بدنه"@,
        "حجم موتور"@,
        "نوع موتور"@,
        "وضعیت فنی موتور و گیربکس"@,
        "بیمهٔ شخص ثالث"@,
        "مهلت بیمهٔ شخص ثالث"@,
        "سال تولید"@,
        "نوع کلاچ"@,
        "میزان فابریک بودن قطعات"@,
        "نوع کمک فنر"@,
        "ظرفیت بار/صندوق"@,
        "نوع وسیلهٔ نقلیه"@,
    ]
}

/// What a vehicle's listing says, but that of a handset too.
pub open spec fn shared_keys() -> Seq<Seq<char>> {
    seq![
        "برند و مدل"@,
    ]
}

/// What no vehicle's listing says.
pub open spec fn foreign_keys() -> Seq<Seq<char>> {
    seq![
        "تعداد سیم\u{200c}کارت"@,
        "مقدار رم"@,
        "حافظهٔ داخلی"@,
        "حافظه داخلی"@,
        "سیستم عامل"@,
        "پردازنده"@,
        "اندازهٔ صفحه"@,
        "کارت حافظه"@,
        "متراژ"@,
        "ودیعه"@,
        "تعداد اتاق"@,
    ]
}

/// Some of `keys` is there.
pub open spec fn has_any(m: Map<Seq<char>, Seq<char>>, keys: Seq<Seq<char>>) -> bool {
    exists|i: int| 0 <= i < keys.len() && m.contains_key(#[trigger] keys[i])
}

/// The cells are those of a vehicle: they say what only a vehicle's listing says, or
/// what it shares with others and nothing foreign to it.
pub open spec fn vehicle(m: Map<Seq<char>, Seq<char>>) -> bool {
    has_any(m, vehicle_keys()) || (has_any(m, shared_keys()) && !has_any(m, foreign_keys()))
}

fn has_one(row: &Row, keys: &[&str]) -> (r: bool)
    ensures
        r == has_any(row.dynamic@, keys@.map_values(|k: &str| k@)),
{
    let ghost all = keys@.map_values(|k: &str| k@);
    for i in 0..keys.len()
        invariant
            all == keys@.map_values(|k: &str| k@),
            forall|j: int| 0 <= j < i ==> !row.dynamic@.contains_key(#[trigger] all[j]),
    {
        if row.dynamic.contains_key(keys[i]) {
            assert(row.dynamic@.contains_key(all[i as int]));
            return true;
        }
    }
    false
}

/// Whether a row is that of a vehicle. Names of categories come and go; what a
/// vehicle's listing says of the vehicle stays.
pub fn looks_like_a_vehicle(row: &Row) -> (r: bool)
    ensures
        r == vehicle(row.dynamic@),
{
    let strong = [
        "کارکرد",
        "مدل (سال تولید)",
        "مدل (سال ساخت)",
        "نوع سوخت",
        "گیربکس",
        "وضعیت بدنه",
        "حجم موتور",
        "نوع موتور",
        "وضعیت فنی موتور و گیربکس",
        "بیمهٔ شخص ثالث",
        "مهلت بیمهٔ شخص ثالث",
        "سال تولید",
        "نوع کلاچ",
        "میزان فابریک بودن قطعات",
        "نوع کمک فنر",
        "ظرفیت بار/صندوق",
        "نوع وسیلهٔ نقلیه",
    ];
    let shared = [
        "برند و مدل",
    ];
    let foreign = [
        "تعداد سیم\u{200c}کارت",
        "مقدار رم",
        "حافظهٔ داخلی",
        "حافظه داخلی",
        "سیستم عامل",
        "پردازنده",
        "اندازهٔ صفحه",
        "کارت حافظه",
        "متراژ",
        "ودیعه",
        "تعداد اتاق",
    ];
    proof {
        assert(strong@.map_values(|k: &str| k@) =~= vehicle_keys());
        assert(shared@.map_values(|k: &str| k@) =~= shared_keys());
        assert(foreign@.map_values(|k: &str| k@) =~= foreign_keys());
    }
    has_one(row, &strong) || (has_one(row, &shared) && !has_one(row, &foreign))
}

/// What only a vehicle says decides by itself; what it shares with handsets counts only
/// where nothing foreign to vehicles is said; without either it is no vehicle.
pub proof fn law_shared_keys_are_weak(m: Map<Seq<char>, Seq<char>>)
    ensures
        has_any(m, vehicle_keys()) ==> vehicle(m),
        !has_any(m, vehicle_keys()) && has_any(m, foreign_keys()) ==> !vehicle(m),
        has_any(m, shared_keys()) && !has_any(m, foreign_keys()) ==> vehicle(m),
        !has_any(m, vehicle_keys()) && !has_any(m, shared_keys()) ==> !vehicle(m),
{
}

/// The tokens that a look at the raw store is limited to.
pub open spec fn scope(only: Option<&TokenSet>) -> Option<Set<Seq<char>>> {
    match only {
        Some(set) => Some(set@),
        None => None,
    }
}

/// The listing is one of those that are looked at: all, or those in `only`.
pub open spec fn looked_at(only: Option<Set<Seq<char>>>, token: Seq<char>) -> bool {
    match only {
        Some(set) => set.contains(token),
        None => true,
    }
}

/// The listings of records that are looked at.
pub open spec fn pilot(list: Seq<JsonView>, only: Option<Set<Seq<char>>>) -> Seq<Entry> {
    entries(list).filter(|e: Entry| looked_at(only, e.token))
}

/// A listing of a vehicle.
pub open spec fn is_vehicle(e: Entry) -> bool {
    vehicle(dynamic_cells(e.detail))
}

/// The title of a listing, or a question mark.
pub open spec fn title_of(e: Entry) -> Seq<char> {
    let cells = fixed_cells(e.token, e.detail, 0);
    if cells.contains_key("title"@) {
        cells["title"@]
    } else {
        "?"@
    }
}

/// The titles of the first listings that are no vehicles, at most three.
pub open spec fn samples_of(list: Seq<Entry>) -> Seq<Seq<char>> {
    let others = list.filter(|e: Entry| !is_vehicle(e)).map_values(|e: Entry| title_of(e));
    if others.len() <= 3 {
        others
    } else {
        others.take(3)
    }
}

/// What the payloads that were fetched come to.
pub struct PayloadReport {
    /// How many listings were looked at.
    pub rows: usize,
    /// How many of them are vehicles.
    pub vehicles: usize,
    /// Titles of some that are not.
    pub samples: Vec<String>,
}

/// The report on listings.
pub open spec fn is_report(report: PayloadReport, list: Seq<Entry>) -> bool {
    &&& report.rows == list.len()
    &&& report.vehicles == list.filter(|e: Entry| is_vehicle(e)).len()
    &&& texts(report.samples@) == samples_of(list)
}

/// Why payloads cannot be judged.
#[derive(Debug, PartialEq)]
pub enum AuditError {
    /// The raw store cannot be read.
    Raw(BadLine),
    /// No listing was there to look at.
    Nothing,
}

/// Looks at the payloads of records.
pub fn audit_records(list: &Vec<Json>, only: Option<&TokenSet>) -> (r: PayloadReport)
    ensures
        is_report(r, pilot(trees(list@), scope(only))),
{
    let ghost all = trees(list@);
    let ghost within_only = scope(only);
    let ghost keep = |e: Entry| looked_at(within_only, e.token);
    let ghost good = |e: Entry| is_vehicle(e);
    let ghost other = |e: Entry| !is_vehicle(e);
    let ghost name = |e: Entry| title_of(e);
    let mut rows: usize = 0;
    let mut vehicles: usize = 0;
    let mut samples: Vec<String> = Vec::new();
    proof {
        assert(all.take(0) =~= Seq::empty());
        reveal(Seq::filter);
        assert(texts(samples@) =~= samples_of(pilot(all.take(0), within_only)));
    }
    for i in 0..list.len()
        invariant
            all == trees(list@),
            within_only == scope(only),
            keep == (|e: Entry| looked_at(within_only, e.token)),
            good == (|e: Entry| is_vehicle(e)),
            other == (|e: Entry| !is_vehicle(e)),
            name == (|e: Entry| title_of(e)),
            rows <= i,
            vehicles <= i,
            rows == pilot(all.take(i as int), within_only).len(),
            vehicles == pilot(all.take(i as int), within_only).filter(good).len(),
            texts(samples@) == samples_of(pilot(all.take(i as int), within_only)),
    {
        let v = &list[i];
        let ghost before = pilot(all.take(i as int), within_only);
        proof {
            assert(all.take(i + 1).drop_last() =~= all.take(i as int));
            assert(all.take(i + 1).last() == v@);
            if entry_of(v@) is Some {
                crate::seqs::lemma_filter_push(entries(all.take(i as int)), keep, entry_of(v@)->0);
            }
        }
        match (record_token(v), v.get("detail")) {
            (Some(token), Some(detail)) => {
                let wanted = match only {
                    Some(set) => set.contains(token),
                    None => true,
                };
                if wanted {
                    let ghost e = entry_of(v@)->0;
                    let row = flatten(token, detail, 0);
                    proof {
                        crate::seqs::lemma_filter_push(before, good, e);
                        crate::seqs::lemma_filter_push(before, other, e);
                        assert(pilot(all.take(i + 1), within_only) == before.push(e));
                    }
                    rows = rows + 1;
                    if looks_like_a_vehicle(&row) {
                        vehicles = vehicles + 1;
                    } else {
                        proof {
                            assert(before.push(e).filter(other).map_values(name) =~= before.filter(other).map_values(
                                name,
                            ).push(title_of(e)));
                        }
                        if samples.len() < 3 {
                            let ghost so_far = texts(samples@);
                            let title: String = match row.fixed.get("title") {
                                Some(t) => t.clone(),
                                None => "?".to_owned(),
                            };
                            samples.push(title);
                            assert(texts(samples@) =~= so_far.push(title_of(e)));
                        } else {
                            assert(texts(samples@).len() == samples@.len());
                            assert(before.push(e).filter(other).map_values(name).take(3) =~= before.filter(
                                other,
                            ).map_values(name).take(3));
                            assert(before.filter(other).map_values(name).len() == 3 ==> before.filter(other).map_values(
                                name,
                            ).take(3) =~= before.filter(other).map_values(name));
                        }
                    }
                }
            },
            _ => {},
        }
    }
    assert(all.take(list@.len() as int) =~= all);
    PayloadReport { rows, vehicles, samples }
}

/// Looks at what was fetched, not at what the feed claimed: at all of the raw store, or
/// at the listings in `only`.
pub fn audit_fetched_payloads(raw_lines: &Vec<String>, only: Option<&TokenSet>) -> (r: Result<PayloadReport, AuditError>)
    ensures
        match r {
            Ok(report) => {
                &&& readable(texts(raw_lines@))
                &&& report.rows > 0
                &&& is_report(report, pilot(records(texts(raw_lines@)), scope(only)))
            },
            Err(AuditError::Nothing) => {
                &&& readable(texts(raw_lines@))
                &&& pilot(records(texts(raw_lines@)), scope(only)).len() == 0
            },
            Err(AuditError::Raw(e)) => blames(e, texts(raw_lines@)),
        },
{
    let list = match read_jsonl(raw_lines) {
        Ok(list) => list,
        Err(e) => return Err(AuditError::Raw(e)),
    };
    let report = audit_records(&list, only);
    if report.rows == 0 {
        Err(AuditError::Nothing)
    } else {
        Ok(report)
    }
}

/// A pilot is judged by its own listings: records of others, however many and however
/// good, change nothing.
pub proof fn law_pilot_is_judged_alone(list: Seq<JsonView>, only: Set<Seq<char>>)
    ensures
        pilot(list, Some(only)) == pilot(
            list.filter(|v: JsonView| token_of(v) matches Some(t) && only.contains(t)),
            Some(only),
        ),
    decreases list.len(),
{
    let mine = |v: JsonView| token_of(v) matches Some(t) && only.contains(t);
    let keep = |e: Entry| looked_at(Some(only), e.token);
    reveal(Seq::filter);
    if list.len() > 0 {
        let front = list.drop_last();
        let v = list.last();
        law_pilot_is_judged_alone(front, only);
        if entry_of(v) is Some {
            crate::seqs::lemma_filter_push(entries(front), keep, entry_of(v)->0);
        }
        if mine(v) {
            let kept = front.filter(mine);
            assert(list.filter(mine) == kept.push(v));
            assert(kept.push(v).drop_last() =~= kept);
            if entry_of(v) is Some {
                crate::seqs::lemma_filter_push(entries(kept), keep, entry_of(v)->0);
            }
        }
    }
}

} // verus!
