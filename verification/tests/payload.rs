use divar_scraper::audit::{
    accepted_slugs, audit_categories, audit_fetched_payloads, judge_categories, looks_like_a_vehicle, run_accepts,
    AuditError, CategoryVerdict,
};
use divar_scraper::cities::collect_city_ids;
use divar_scraper::codec::{parse_json, render};
use divar_scraper::flatten::{flatten, Row};
use divar_scraper::harvest::{flatten_scalars, harvest_pairs, s};
use divar_scraper::json::Json;
use divar_scraper::keymap::{KeySet, TextMap};
use divar_scraper::store::TokenSet;

fn json(text: &str) -> Json {
    parse_json(text).unwrap()
}

fn fixed<'a>(row: &'a Row, key: &str) -> &'a str {
    row.fixed.get(key).unwrap().as_str()
}

fn dynamic<'a>(row: &'a Row, key: &str) -> &'a str {
    row.dynamic.get(key).unwrap().as_str()
}

#[test]
fn city_ids_are_scraped_from_any_payload_shape() {
    let payload = json(
        r#"{
            "cities": [ { "id": 1, "name": "تهران" }, { "id": "2", "slug": "karaj" } ],
            "nested": { "districts": [ { "id": 99, "name": "ونک" } ] },
            "noise": { "id": 7 }
        }"#,
    );
    let mut ids = Vec::new();
    collect_city_ids(&payload, &mut ids);
    assert!(ids.contains(&"1".to_string()) && ids.contains(&"2".to_string()));
    assert!(!ids.contains(&"7".to_string()), "an id with no name is not a city");
    assert_eq!(ids, vec!["1", "2", "99"]);
}

#[test]
fn city_ids_are_listed_once() {
    let mut ids = vec!["3".to_string()];
    collect_city_ids(
        &json(r#"[ { "id": 3, "name": "" }, { "id": true, "name": "" }, { "id": "", "slug": 1 }, { "id": "tehran", "name": "Tehran" },
                 { "id": "4a", "slug": 1 }, { "id": 4, "slug": 1 } ]"#),
        &mut ids,
    );
    assert_eq!(ids, vec!["3", "4"]);
}

fn toks(pairs: &[(&str, usize)]) -> Vec<(String, String)> {
    let mut v = Vec::new();
    for (slug, n) in pairs {
        for i in 0..*n {
            v.push((format!("{slug}{i}"), slug.to_string()));
        }
    }
    v
}

fn audit(list: &Vec<(String, String)>, accept: &KeySet, min_purity: f64) -> Result<CategoryVerdict, CategoryVerdict> {
    let report = match audit_categories(list, accept) {
        Some(report) => report,
        None => return Err(CategoryVerdict::Fail),
    };
    let purity = report.matched as f64 / report.known.max(1) as f64;
    match judge_categories(&report, purity < min_purity) {
        CategoryVerdict::Fail => Err(CategoryVerdict::Fail),
        verdict => Ok(verdict),
    }
}

#[test]
fn audit_rejects_a_polluted_feed() {
    // 2 of 10 are vehicles.
    let bad = toks(&[("real-estate", 8), ("light", 2)]);
    let accept = accepted_slugs("auto");
    assert!(audit(&bad, &accept, 0.9).is_err());
}

/// A parent's results come back tagged with child slugs. A substring matcher rejects
/// "light" and accepts "auto-parts"; this asserts we do neither.
#[test]
fn audit_accepts_the_whole_vehicle_subtree_under_a_parent_slug() {
    let accept = accepted_slugs("auto");
    for child in ["light", "heavy", "classic", "motorcycles"] {
        assert!(accept.contains(child), "{child} must be accepted under 'auto'");
    }
    let real_feed = toks(&[("light", 60), ("heavy", 15), ("motorcycles", 20), ("classic", 5)]);
    assert!(audit(&real_feed, &accept, 0.9).is_ok(), "a genuine whole-vehicle feed must not be rejected");

    // Narrowing to a leaf slug must NOT drag the siblings in.
    let leaf = accepted_slugs("light");
    assert!(leaf.contains("light"));
    assert!(!leaf.contains("motorcycles"));
    assert!(audit(&real_feed, &leaf, 0.9).is_err());
}

#[test]
fn category_reports_count_exactly() {
    let list = toks(&[("light", 3), ("", 2), ("shoes", 1)]);
    let report = audit_categories(&list, &accepted_slugs("vehicles")).unwrap();
    assert_eq!((report.matched, report.known), (3, 4));
    assert_eq!(report.counts.len(), 3);
    assert_eq!(report.counts.get(""), Some(&2));
    assert_eq!(report.counts.get("light"), Some(&3));
    assert_eq!(report.counts.get("shoes"), Some(&1));
    assert_eq!(judge_categories(&report, true), CategoryVerdict::Fail);
    assert_eq!(judge_categories(&report, false), CategoryVerdict::Pass);
}

#[test]
fn a_feed_without_labels_is_not_judged() {
    assert_eq!(audit(&toks(&[("", 4)]), &accepted_slugs("auto"), 0.9), Ok(CategoryVerdict::Unlabelled));
    assert!(audit_categories(&Vec::new(), &accepted_slugs("auto")).is_none());
}

#[test]
fn accepted_categories_can_be_named() {
    let asked: Vec<String> = vec!["light".into(), "vehicles".into()];
    let derived = run_accepts(&asked, "  ");
    assert!(derived.contains("light") && derived.contains("car-rental") && derived.contains("vehicles"));
    assert!(!derived.contains("shoes"));
    let named = run_accepts(&asked, "heavy, shoes ,");
    assert_eq!(named.to_list(), vec!["heavy", "shoes"]);
    assert_eq!(accepted_slugs("shoes").to_list(), vec!["shoes"]);
    assert_eq!(
        accepted_slugs("auto").to_list(),
        vec!["auto", "auto-parts", "car-rental", "cars", "classic", "heavy", "light", "motorcycles", "vehicles"]
    );
}

#[test]
fn harvest_picks_up_nested_and_unknown_widgets() {
    let detail = json(
        r#"{
            "sections": [
                { "section_name": "TITLE", "widgets": [
                    { "widget_type": "LEGEND_TITLE_ROW", "data": { "title": "پراید ۱۳۹۰", "subtitle": "۲۰۰٬۰۰۰ کیلومتر" } },
                    { "widget_type": "EXPANDABLE_SECTION", "data": { "title": "دیروز در تهران" } }
                ]},
                { "section_name": "LIST_DATA", "widgets": [
                    { "widget_type": "GROUP_INFO_ROW", "data": { "items": [
                        { "title": "کارکرد", "value": "۲۰۰٬۰۰۰" },
                        { "title": "مدل", "value": "۱۳۹۰" }
                    ]}},
                    { "widget_type": "SOME_NEW_ROW_2027", "data": { "title": "نوع سوخت", "value": "بنزین" } }
                ]},
                { "section_name": "DESCRIPTION", "widgets": [ { "data": { "text": "سالم" } } ] }
            ],
            "city": { "name": "تهران" },
            "webengage": { "price": 450000000, "brand_model": "Pride" }
        }"#,
    );

    let row = flatten("abc123", &detail, 99);
    assert_eq!(fixed(&row, "title"), "پراید ۱۳۹۰");
    assert_eq!(fixed(&row, "subtitle"), "۲۰۰٬۰۰۰ کیلومتر");
    assert_eq!(fixed(&row, "description"), "سالم");
    assert_eq!(fixed(&row, "city"), "تهران");
    assert_eq!(fixed(&row, "url"), "https://divar.ir/v/-/abc123");
    assert_eq!(dynamic(&row, "کارکرد"), "۲۰۰٬۰۰۰");
    assert_eq!(dynamic(&row, "نوع سوخت"), "بنزین");
    assert_eq!(dynamic(&row, "webengage_price"), "450000000");
    assert_eq!(dynamic(&row, "webengage_brand_model"), "Pride");
    // A harvested pair must never shadow a fixed column.
    assert!(!row.dynamic.contains_key("title"));

    assert_eq!(fixed(&row, "token"), "abc123");
    assert_eq!(fixed(&row, "fetched_at"), "99");
    assert_eq!(fixed(&row, "posted_raw"), "دیروز در تهران");
    assert_eq!(fixed(&row, "image_count"), "0");
    assert_eq!(fixed(&row, "district"), "");
    assert!(row.fixed.get("price_raw").is_none());
    assert!(row.fixed.get("latitude").is_none());
}

#[test]
fn every_fixed_column_is_read() {
    let detail = json(
        r#"{
            "seo": { "title": "st", "description": 5 },
            "district": { "name": "d" },
            "category": { "slug": "" },
            "web_info": { "category_slug": "light" },
            "sections": [
                { "section_name": "IMAGE", "widgets": [ { "data": {
                    "items": [ { "image": { "url": "u1", "thumbnail_url": "t1" } },
                               { "image": { "url": "", "thumbnail_url": "t2" } },
                               { "other": 1 },
                               { "image": { "url": "u3" } } ],
                    "chip_list": { "chips": [ { "text": "x" }, { "text": null }, { "text": true } ] } } } ] },
                { "section_name": "MAP", "widgets": [ { "data": { "location": {
                    "fuzzy_data": { "radius": 500 },
                    "exact_data": { "point": { "latitude": 35.5, "longitude": "51" } } } } } ] },
                { "section_name": "DESCRIPTION", "widgets": [ { "data": { "text": "first" } }, { "data": { "text": "" } } ] },
                { "section_name": "LIST", "widgets": [ { "data": { "title": " قیمت کل ", "value": 12 } },
                    { "data": { "title": "url", "value": "shadow" } } ] }
            ],
            "analytics": { "deep": { "year": 1390, "list": [1], "none": null }, "ok": true }
        }"#,
    );
    let row = flatten("t", &detail, 0);
    assert_eq!(fixed(&row, "seo_title"), "st");
    assert_eq!(fixed(&row, "seo_description"), "5");
    assert_eq!(fixed(&row, "district"), "d");
    assert_eq!(fixed(&row, "category"), "light");
    assert_eq!(fixed(&row, "image_count"), "2");
    assert_eq!(fixed(&row, "image_urls"), "u1 | u3");
    assert_eq!(fixed(&row, "thumbnail_urls"), "t1 | t2");
    assert_eq!(fixed(&row, "tags"), "x | true");
    assert_eq!(fixed(&row, "latitude"), "35.5");
    assert_eq!(fixed(&row, "longitude"), "51");
    assert_eq!(fixed(&row, "map_radius_m"), "500");
    assert_eq!(fixed(&row, "description"), "first");
    assert_eq!(fixed(&row, "price_raw"), "12");
    assert_eq!(dynamic(&row, "قیمت کل"), "12");
    assert_eq!(dynamic(&row, "analytics_deep_year"), "1390");
    assert_eq!(dynamic(&row, "analytics_ok"), "true");
    assert_eq!(row.dynamic.len(), 3);
    assert_eq!(fixed(&row, "url"), "https://divar.ir/v/-/t");
}

#[test]
fn a_category_without_slug_is_written_out() {
    let row = flatten("t", &json(r#"{ "category": { "id": 1 } }"#), 0);
    assert_eq!(fixed(&row, "category"), r#"{"id":1}"#);
    let row = flatten("t", &json("{}"), 0);
    assert_eq!(fixed(&row, "category"), "");
}

#[test]
fn the_first_pair_and_the_last_scalar_stay() {
    let mut out = TextMap::new();
    harvest_pairs(
        &json(
            r#"[ { "title": "k", "value": "one", "zz": { "title": "k", "value": "two" } },
                 { "title": " ", "value": "x" }, { "title": "e", "value": " " }, { "title": "n", "value": null },
                 { "title": "b", "value": false } ]"#,
        ),
        &mut out,
    );
    assert_eq!(out.get("k").unwrap(), "one");
    assert_eq!(out.get("b").unwrap(), "false");
    assert_eq!(out.len(), 2);
    flatten_scalars(&json(r#"{ "": "new", "x": [1] }"#), "k", &mut out);
    assert_eq!(out.get("k").unwrap(), "new");
    assert_eq!(out.len(), 2);
    flatten_scalars(&json("[1]"), "p", &mut out);
    assert_eq!(out.len(), 2);
}

#[test]
fn cells_are_texts() {
    assert_eq!(s(None), "");
    assert_eq!(s(Some(&Json::Null)), "");
    assert_eq!(s(Some(&json(r#""x""#))), "x");
    assert_eq!(s(Some(&json(r#"[1,"a"]"#))), r#"[1,"a"]"#);
    assert_eq!(render(&json(r#"{ "b": 1.5, "a": [ true , null ] }"#)), r#"{"a":[true,null],"b":1.5}"#);
}

fn listing(specs: &[(&str, &str)]) -> Json {
    let widgets: Vec<String> = specs
        .iter()
        .map(|(k, v)| format!(r#"{{ "data": {{ "title": "{k}", "value": "{v}" }} }}"#))
        .collect();
    json(&format!(r#"{{ "sections": [ {{ "section_name": "LIST_DATA", "widgets": [{}] }} ] }}"#, widgets.join(",")))
}

/// The vocabulary-independent guard: does the payload look like a vehicle?
#[test]
fn vehicle_detection_ignores_slug_vocabulary() {
    let car = flatten("a", &listing(&[("کارکرد", "۱۲۰۰۰۰"), ("گیربکس", "دنده‌ای")]), 0);
    assert!(looks_like_a_vehicle(&car));

    // A motorcycle: different specs, still a vehicle.
    let bike = flatten("b", &listing(&[("حجم موتور", "۱۲۵"), ("برند و مدل", "هوندا")]), 0);
    assert!(looks_like_a_vehicle(&bike));

    let flat = flatten("c", &listing(&[("ودیعه", "۱۰۰"), ("متراژ", "۸۰")]), 0);
    assert!(!looks_like_a_vehicle(&flat));
    let shoe = flatten("d", &listing(&[("نوع کفش", "کتانی"), ("جنس", "چرم")]), 0);
    assert!(!looks_like_a_vehicle(&shoe));
}

/// `برند و مدل` is shared between cars and handsets. A rental car carries it with no
/// کارکرد and must pass; a phone carries it with رم/سیم‌کارت and must not.
#[test]
fn weak_brand_key_does_not_let_phones_through() {
    let rental = flatten("a", &listing(&[("برند و مدل", "پژو 207i پانوراما اتوماتیک")]), 0);
    assert!(looks_like_a_vehicle(&rental), "rental cars have no کارکرد but are vehicles");

    let phone = flatten(
        "b",
        &listing(&[
            ("برند و مدل", "اپل iPhone 17 Pro Max"),
            ("تعداد سیم\u{200c}کارت", "۲"),
            ("مقدار رم", "۴ گیگابایت"),
        ]),
        0,
    );
    assert!(!looks_like_a_vehicle(&phone), "a handset must not count as a vehicle");
}

#[test]
fn each_foreign_key_rules_a_vehicle_out() {
    for key in [
        "تعداد سیم\u{200c}کارت",
        "مقدار رم",
        "حافظهٔ داخلی",
        "حافظه داخلی",
        "سیستم عامل",
        "پردازنده",
        "اندازهٔ صفحه",
        "کارت حافظه",
        "متراژ",
        "ودیعه",
        "تعداد اتاق",
    ] {
        let row = flatten("a", &listing(&[("برند و مدل", "x"), (key, "y")]), 0);
        assert!(!looks_like_a_vehicle(&row), "{key}");
        let row = flatten("a", &listing(&[("کارکرد", "x"), (key, "y")]), 0);
        assert!(looks_like_a_vehicle(&row), "{key}");
    }
}

fn raw(token: &str, title: &str, key: &str) -> String {
    format!(
        r#"{{ "token": "{token}", "detail": {{ "sections": [
            {{ "section_name": "TITLE", "widgets": [ {{ "widget_type": "LEGEND_TITLE_ROW", "data": {{ "title": "{title}" }} }} ] }},
            {{ "widgets": [ {{ "data": {{ "title": "{key}", "value": "1" }} }} ] }} ] }} }}"#
    )
    .replace('\n', " ")
}

#[test]
fn a_pilot_is_judged_alone() {
    let mut lines: Vec<String> = (0..50).map(|i| raw(&format!("old{i}"), "car", "کارکرد")).collect();
    for i in 0..5 {
        lines.push(raw(&format!("new{i}"), &format!("shoe {i}"), "جنس"));
    }
    lines.push(raw("new5", "bike", "حجم موتور"));
    lines.push(r#"{ "token": "new6" }"#.into());
    lines.push(r#"{ "token": "new7", "detail": {} }"#.into());

    let whole = audit_fetched_payloads(&lines, None).ok().unwrap();
    assert_eq!((whole.rows, whole.vehicles), (57, 51));

    let mut only = TokenSet::new();
    for i in 0..9 {
        only.insert(format!("new{i}"));
    }
    let pilot = audit_fetched_payloads(&lines, Some(&only)).ok().unwrap();
    assert_eq!((pilot.rows, pilot.vehicles), (7, 1));
    assert_eq!(pilot.samples, vec!["shoe 0", "shoe 1", "shoe 2"]);

    let mut last = TokenSet::new();
    last.insert("new7".into());
    let untitled = audit_fetched_payloads(&lines, Some(&last)).ok().unwrap();
    assert_eq!(untitled.samples, vec!["?"]);
}

#[test]
fn nothing_to_look_at_is_an_error() {
    assert_eq!(audit_fetched_payloads(&vec![], None).err(), Some(AuditError::Nothing));
    let lines: Vec<String> = vec![r#"{ "token": "a" }"#.into(), "{".into()];
    match audit_fetched_payloads(&lines, None).err() {
        Some(AuditError::Raw(bad)) => assert_eq!(bad.at, 1),
        other => panic!("{other:?}"),
    }
}
