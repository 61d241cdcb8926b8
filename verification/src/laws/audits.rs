//! What counts as a result of the category that was asked for, and as a vehicle.

use vstd::prelude::*;
use crate::audit::{
    accepted, accepted_any, accepted_in_run, foreign_keys, has_any, is_report, is_vehicle, labelled, looked_at,
    matching, pilot, samples_of, shared_keys, slugs, title_of, vehicle, vehicle_keys, vehicle_subtree, PayloadReport,
};
use crate::export::{entries, entry_of, Entry};
use crate::flatten::{dynamic_cells, fixed_cells};
use crate::json::JsonView;
use crate::text::{list_items, texts, trimmed};

verus! {

/// "auto" and "vehicles" accept nine categories, named here. Any other category
/// accepts itself and nothing else.
pub proof fn law_accepted_categories(category: Seq<char>, slug: Seq<char>)
    ensures
        category != "auto"@ && category != "vehicles"@ ==> (accepted(category).contains(slug) <==> slug == category),
        category == "auto"@ || category == "vehicles"@ ==> (accepted(category).contains(slug) <==> slug == "auto"@ || slug
            == "light"@ || slug == "heavy"@ || slug == "classic"@ || slug == "motorcycles"@ || slug == "auto-parts"@
            || slug == "car-rental"@ || slug == "vehicles"@ || slug == "cars"@),
{
    let tree = vehicle_subtree();
    assert(tree[0] == "auto"@ && tree[1] == "light"@ && tree[2] == "heavy"@ && tree[3] == "classic"@);
    assert(tree[4] == "motorcycles"@ && tree[5] == "auto-parts"@ && tree[6] == "car-rental"@);
    assert(tree[7] == "vehicles"@ && tree[8] == "cars"@);
    assert(tree.to_set().contains(slug) <==> tree.contains(slug));
}

/// A list of categories accepts what some category in it accepts.
pub proof fn law_accepted_by_some(list: Seq<Seq<char>>, slug: Seq<char>)
    ensures
        accepted_any(list).contains(slug) <==> exists|i: int|
            0 <= i < list.len() && accepted(#[trigger] list[i]).contains(slug),
    decreases list.len(),
{
    if list.len() > 0 {
        let front = list.drop_last();
        law_accepted_by_some(front, slug);
        if accepted_any(front).contains(slug) {
            let i = choose|i: int| 0 <= i < front.len() && accepted(#[trigger] front[i]).contains(slug);
            assert(list[i] == front[i]);
        }
        if exists|i: int| 0 <= i < list.len() && accepted(#[trigger] list[i]).contains(slug) {
            let i = choose|i: int| 0 <= i < list.len() && accepted(#[trigger] list[i]).contains(slug);
            if i < front.len() {
                assert(front[i] == list[i]);
            }
        }
        assert(list[list.len() - 1] == list.last());
    }
}

/// A run accepts the categories that were named for it, and no others. Where none were
/// named, it accepts each category that it asks for and, where it asks for "auto" or
/// "vehicles", the nine.
pub proof fn law_accepted_in_run(categories: Seq<Seq<char>>, named: Seq<char>, slug: Seq<char>)
    ensures
        trimmed(named).len() > 0 ==> (accepted_in_run(categories, named).contains(slug) <==> list_items(named).contains(
            slug,
        )),
        trimmed(named).len() == 0 && categories.contains(slug) ==> accepted_in_run(categories, named).contains(slug),
        trimmed(named).len() == 0 && !categories.contains("auto"@) && !categories.contains("vehicles"@) ==> (
        accepted_in_run(categories, named).contains(slug) <==> categories.contains(slug)),
        trimmed(named).len() == 0 && (categories.contains("auto"@) || categories.contains("vehicles"@)) ==> (
        accepted_in_run(categories, named).contains(slug) <==> categories.contains(slug) || slug == "auto"@ || slug
            == "light"@ || slug == "heavy"@ || slug == "classic"@ || slug == "motorcycles"@ || slug == "auto-parts"@
            || slug == "car-rental"@ || slug == "vehicles"@ || slug == "cars"@),
{
    if trimmed(named).len() > 0 {
        assert(list_items(named).to_set().contains(slug) <==> list_items(named).contains(slug));
    } else {
        law_accepted_by_some(categories, slug);
        assert forall|i: int| 0 <= i < categories.len() implies (accepted(#[trigger] categories[i]).contains(slug) <==> slug
            == categories[i] || ((categories[i] == "auto"@ || categories[i] == "vehicles"@) && (slug == "auto"@ || slug
            == "light"@ || slug == "heavy"@ || slug == "classic"@ || slug == "motorcycles"@ || slug == "auto-parts"@
            || slug == "car-rental"@ || slug == "vehicles"@ || slug == "cars"@))) by {
            law_accepted_categories(categories[i], slug);
        }
        if categories.contains(slug) {
            let i = choose|i: int| 0 <= i < categories.len() && categories[i] == slug;
            assert(accepted(categories[i]).contains(slug));
        }
        if categories.contains("auto"@) {
            let i = choose|i: int| 0 <= i < categories.len() && categories[i] == "auto"@;
            assert(accepted(categories[i]).contains(slug) || !accepted(categories[i]).contains(slug));
        }
        if categories.contains("vehicles"@) {
            let i = choose|i: int| 0 <= i < categories.len() && categories[i] == "vehicles"@;
            assert(accepted(categories[i]).contains(slug) || !accepted(categories[i]).contains(slug));
        }
    }
}

/// Labels are counted one by one: an accepted one matches, and one that says something
/// is known.
pub proof fn law_labels_are_counted(
    a: Seq<Seq<char>>,
    b: Seq<Seq<char>>,
    label: Seq<char>,
    accept: Set<Seq<char>>,
)
    ensures
        matching(a + b, accept) == matching(a, accept) + matching(b, accept),
        matching(seq![label], accept) == if accept.contains(label) {
            1nat
        } else {
            0nat
        },
        labelled(a + b) == labelled(a) + labelled(b),
        labelled(seq![label]) == if label.len() > 0 {
            1nat
        } else {
            0nat
        },
{
    let takes = |l: Seq<char>| accept.contains(l);
    let says = |l: Seq<char>| l.len() > 0;
    Seq::filter_distributes_over_add(a, b, takes);
    Seq::filter_distributes_over_add(a, b, says);
    let none = Seq::<Seq<char>>::empty();
    crate::seqs::lemma_filter_push(none, takes, label);
    crate::seqs::lemma_filter_push(none, says, label);
    assert(none.push(label) =~= seq![label]);
    assert(none.filter(takes).len() == 0 && none.filter(says).len() == 0) by {
        reveal(Seq::filter);
    }
}

/// The labels of listings are their categories, in their order.
pub proof fn law_slugs(list: Seq<(Seq<char>, Seq<char>)>, i: int)
    ensures
        slugs(list).len() == list.len(),
        0 <= i < list.len() ==> slugs(list)[i] == list[i].1,
{
}

/// A vehicle says one of the seventeen things that only vehicles say; or it says its
/// brand and model, and none of the eleven things that no vehicle says.
pub proof fn law_vehicles(m: Map<Seq<char>, Seq<char>>)
    ensures
        ({
            let strong = m.contains_key("کارکرد"@) || m.contains_key("مدل (سال تولید)"@) || m.contains_key(
                "مدل (سال ساخت)"@,
            ) || m.contains_key("نوع سوخت"@) || m.contains_key("گیربکس"@) || m.contains_key("وضعیت بدنه"@)
                || m.contains_key("حجم موتور"@) || m.contains_key("نوع موتور"@) || m.contains_key(
                "وضعیت فنی موتور و گیربکس"@,
            ) || m.contains_key("بیمهٔ شخص ثالث"@) || m.contains_key("مهلت بیمهٔ شخص ثالث"@) || m.contains_key(
                "سال تولید"@,
            ) || m.contains_key("نوع کلاچ"@) || m.contains_key("میزان فابریک بودن قطعات"@) || m.contains_key(
                "نوع کمک فنر"@,
            ) || m.contains_key("ظرفیت بار/صندوق"@) || m.contains_key("نوع وسیلهٔ نقلیه"@);
            let shared = m.contains_key("برند و مدل"@);
            let foreign = m.contains_key("تعداد سیم\u{200c}کارت"@) || m.contains_key("مقدار رم"@) || m.contains_key(
                "حافظهٔ داخلی"@,
            ) || m.contains_key("حافظه داخلی"@) || m.contains_key("سیستم عامل"@) || m.contains_key("پردازنده"@)
                || m.contains_key("اندازهٔ صفحه"@) || m.contains_key("کارت حافظه"@) || m.contains_key("متراژ"@)
                || m.contains_key("ودیعه"@) || m.contains_key("تعداد اتاق"@);
            vehicle(m) <==> strong || (shared && !foreign)
        }),
{
    let s = vehicle_keys();
    assert(s[0] == "کارکرد"@ && s[1] == "مدل (سال تولید)"@ && s[2] == "مدل (سال ساخت)"@ && s[3] == "نوع سوخت"@);
    assert(s[4] == "گیربکس"@ && s[5] == "وضعیت بدنه"@ && s[6] == "حجم موتور"@ && s[7] == "نوع موتور"@);
    assert(s[8] == "وضعیت فنی موتور و گیربکس"@ && s[9] == "بیمهٔ شخص ثالث"@ && s[10] == "مهلت بیمهٔ شخص ثالث"@);
    assert(s[11] == "سال تولید"@ && s[12] == "نوع کلاچ"@ && s[13] == "میزان فابریک بودن قطعات"@);
    assert(s[14] == "نوع کمک فنر"@ && s[15] == "ظرفیت بار/صندوق"@ && s[16] == "نوع وسیلهٔ نقلیه"@);
    let w = shared_keys();
    assert(w[0] == "برند و مدل"@);
    let f = foreign_keys();
    assert(f[0] == "تعداد سیم\u{200c}کارت"@ && f[1] == "مقدار رم"@ && f[2] == "حافظهٔ داخلی"@ && f[3] == "حافظه داخلی"@);
    assert(f[4] == "سیستم عامل"@ && f[5] == "پردازنده"@ && f[6] == "اندازهٔ صفحه"@ && f[7] == "کارت حافظه"@);
    assert(f[8] == "متراژ"@ && f[9] == "ودیعه"@ && f[10] == "تعداد اتاق"@);
    if has_any(m, s) {
        let i = choose|i: int| 0 <= i < s.len() && m.contains_key(#[trigger] s[i]);
        assert(m.contains_key(s[i]));
    }
    if has_any(m, f) {
        let i = choose|i: int| 0 <= i < f.len() && m.contains_key(#[trigger] f[i]);
        assert(m.contains_key(f[i]));
    }
}

/// A report counts the listings, and those of them whose cells are a vehicle's. Its
/// samples are the titles of the first three of the others, or of all of them where
/// they are fewer; "?" stands for a listing without a title.
pub proof fn law_report(report: PayloadReport, list: Seq<Entry>, k: int)
    requires
        is_report(report, list),
    ensures
        ({
            let others = list.filter(|e: Entry| !vehicle(dynamic_cells(e.detail)));
            &&& report.rows == list.len()
            &&& report.vehicles + others.len() == list.len()
            &&& report.samples@.len() == if others.len() < 3 {
                others.len()
            } else {
                3
            }
            &&& 0 <= k < report.samples@.len() ==> {
                let cells = fixed_cells(others[k].token, others[k].detail, 0);
                &&& cells.contains_key("title"@) ==> report.samples@[k]@ == cells["title"@]
                &&& !cells.contains_key("title"@) ==> report.samples@[k]@ == "?"@
            }
        }),
{
    let keep = |e: Entry| !vehicle(dynamic_cells(e.detail));
    let other = |e: Entry| !is_vehicle(e);
    assert(keep =~= other);
    let others = list.filter(keep);
    lemma_divided(list);
    assert(texts(report.samples@).len() == report.samples@.len());
    if 0 <= k < report.samples@.len() {
        assert(texts(report.samples@)[k] == report.samples@[k]@);
        assert(samples_of(list)[k] == title_of(others[k]));
    }
}

proof fn lemma_divided(list: Seq<Entry>)
    ensures
        list.filter(|e: Entry| is_vehicle(e)).len() + list.filter(|e: Entry| !is_vehicle(e)).len() == list.len(),
    decreases list.len(),
{
    reveal(Seq::filter);
    if list.len() > 0 {
        lemma_divided(list.drop_last());
    }
}

/// All listings are looked at, or those whose tokens are given; their order is kept.
pub proof fn law_pilot(list: Seq<JsonView>, v: JsonView, only: Set<Seq<char>>)
    ensures
        pilot(list, None) == entries(list),
        entry_of(v) is None ==> pilot(list.push(v), Some(only)) == pilot(list, Some(only)),
        entry_of(v) matches Some(e) ==> pilot(list.push(v), Some(only)) == if only.contains(e.token) {
            pilot(list, Some(only)).push(e)
        } else {
            pilot(list, Some(only))
        },
        pilot(Seq::empty(), Some(only)).len() == 0,
{
    let all = |e: Entry| looked_at(None, e.token);
    let keep = |e: Entry| looked_at(Some(only), e.token);
    crate::seqs::lemma_filter_all(entries(list), all);
    assert(list.push(v).drop_last() =~= list);
    if entry_of(v) is Some {
        crate::seqs::lemma_filter_push(entries(list), keep, entry_of(v)->0);
    }
    assert(entries(Seq::empty()).filter(keep).len() == 0) by {
        reveal(Seq::filter);
    }
}

} // verus!
