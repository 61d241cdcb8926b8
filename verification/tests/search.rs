use divar_scraper::codec::parse_json;
use divar_scraper::json::Json;
use divar_scraper::probe::{category_candidates, page_breakdown, refusal, CategoryProbe, CityProbe};
use divar_scraper::search::{
    city_candidates, force_category, page_listings, search_body, token_and_category, widget_count, CityMode,
};

fn json(text: &str) -> Json {
    parse_json(text).unwrap()
}

fn at<'a>(v: &'a Json, path: &[&str]) -> Option<&'a Json> {
    let mut here = Some(v);
    for key in path {
        here = here.and_then(|j| j.get(key));
    }
    here
}

fn text_at<'a>(v: &'a Json, path: &[&str]) -> &'a str {
    at(v, path).unwrap().as_str().unwrap()
}

const CATEGORY: &[&str] = &["search_data", "form_data", "data", "category", "str", "value"];

/// "Everywhere" must be probed, while an explicit numeric list must be taken at face
/// value and not probed.
#[test]
fn whole_country_is_probed_but_explicit_ids_are_not() {
    for word in ["iran", "all", "0"] {
        let c = city_candidates(word);
        assert!(c.len() > 1, "{word} should produce candidates to try");
        assert_eq!(c[0], CityMode::Omit);
        assert!(!c.contains(&CityMode::Ids(vec!["iran".into()])), "the shape that is refused");
    }

    let c = city_candidates("1,2");
    assert_eq!(c, vec![CityMode::Ids(vec!["1".into(), "2".into()])]);
}

#[test]
fn city_mode_shapes_the_body_correctly() {
    let mut b = json("{}");
    CityMode::Omit.apply(&mut b);
    assert!(b.get("city_ids").is_none() && b.get("cities").is_none());

    let mut b = json("{}");
    CityMode::Ids(vec!["1".into()]).apply(&mut b);
    assert_eq!(b.get("city_ids"), Some(&json(r#"["1"]"#)));

    let mut b = json("{}");
    CityMode::Slugs(vec!["iran".into()]).apply(&mut b);
    assert_eq!(b.get("cities"), Some(&json(r#"["iran"]"#)));
}

#[test]
fn category_survives_pagination_echo() {
    let body = search_body(&CityMode::Ids(vec!["1".into()]), "auto", None);
    assert_eq!(text_at(&body, CATEGORY), "auto");

    // The server sends the search data back without the category.
    let echoed = json(r#"{ "form_data": { "data": { "sort": { "str": { "value": "new" } } } } }"#);
    let page_data = json(r#"{ "last_post_date": "123" }"#);
    let body2 = search_body(&CityMode::Ids(vec!["1".into()]), "auto", Some((&echoed, &page_data)));
    assert_eq!(text_at(&body2, CATEGORY), "auto");
    assert_eq!(text_at(&body2, &["search_data", "form_data", "data", "sort", "str", "value"]), "new");
    assert_eq!(text_at(&body2, &["pagination_data", "last_post_date"]), "123");
}

#[test]
fn category_is_asked_for_whatever_the_server_sends_back() {
    for echoed in [
        "null",
        "1",
        "[]",
        "{}",
        r#"{ "form_data": null }"#,
        r#"{ "form_data": "x", "kept": 1 }"#,
        r#"{ "form_data": { "data": [] } }"#,
        r#"{ "form_data": { "data": { "category": "shoes" } } }"#,
    ] {
        let body = search_body(&CityMode::Omit, "cars", Some((&json(echoed), &Json::Null)));
        assert_eq!(text_at(&body, CATEGORY), "cars", "{echoed}");
        assert!(body.get("pagination_data").is_none());
    }
    let mut data = json(r#"{ "form_data": "x", "kept": 1 }"#);
    force_category(&mut data, "cars");
    assert_eq!(data.get("kept").and_then(|v| v.as_u64()), Some(1));
}

#[test]
fn whole_requests_are_as_expected() {
    assert_eq!(
        search_body(&CityMode::Slugs(vec!["iran".into()]), "light", None),
        json(
            r#"{ "cities": ["iran"],
                 "search_data": { "form_data": { "data": { "category": { "str": { "value": "light" } } } } } }"#
        )
    );
    assert_eq!(
        search_body(&CityMode::Omit, "light", Some((&Json::Null, &json("7")))),
        json(
            r#"{ "pagination_data": 7,
                 "search_data": { "form_data": { "data": { "category": { "str": { "value": "light" } } } } } }"#
        )
    );
}

#[test]
fn city_lists_are_trimmed() {
    assert_eq!(
        city_candidates(" 1 ,, 22 ,"),
        vec![CityMode::Ids(vec!["1".into(), "22".into()])]
    );
    assert_eq!(city_candidates(""), vec![CityMode::Ids(vec![])]);
    assert_eq!(
        city_candidates(" all "),
        vec![
            CityMode::Omit,
            CityMode::Ids(vec!["0".into()]),
            CityMode::Slugs(vec!["iran".into()])
        ]
    );
    assert_eq!(
        city_candidates("iran,1"),
        vec![CityMode::Ids(vec!["iran".into(), "1".into()])]
    );
}

#[test]
fn city_modes_are_described() {
    assert_eq!(CityMode::Omit.describe(), "no city field (whole country)");
    assert_eq!(CityMode::Ids(vec!["1".into(), "2".into()]).describe(), r#"city_ids: ["1", "2"]"#);
    assert_eq!(CityMode::Slugs(vec!["iran".into()]).describe(), r#"cities: ["iran"]"#);
    let seven: Vec<String> = (1..=7).map(|i| format!("{i}")).collect();
    assert_eq!(CityMode::Ids(seven).describe(), "city_ids: 7 ids");
    let six: Vec<String> = (1..=6).map(|i| format!("{i}")).collect();
    assert_eq!(CityMode::Ids(six).describe(), r#"city_ids: ["1", "2", "3", "4", "5", "6"]"#);
}

#[test]
fn a_null_body_becomes_an_object() {
    let mut b = Json::Null;
    CityMode::Ids(vec!["5".into()]).apply(&mut b);
    assert_eq!(b, json(r#"{ "city_ids": ["5"] }"#));
}

#[test]
fn listings_carry_their_own_category() {
    let w = json(
        r#"{ "data": { "action": { "payload": {
             "token": "t1", "web_info": { "category_slug": "light", "category": "x" } } } } }"#,
    );
    assert_eq!(token_and_category(&w), Some(("t1".into(), "light".into())));
    let w = json(r#"{ "data": { "action": { "payload": { "token": "t2", "web_info": { "category": "heavy" } } } } }"#);
    assert_eq!(token_and_category(&w), Some(("t2".into(), "heavy".into())));
    // A category that is there but is no text hides the other one.
    let w = json(
        r#"{ "data": { "action": { "payload": {
             "token": "t3", "web_info": { "category_slug": null, "category": "heavy" } } } } }"#,
    );
    assert_eq!(token_and_category(&w), Some(("t3".into(), "".into())));
    let w = json(r#"{ "data": { "action": { "payload": { "token": "t4" } } } }"#);
    assert_eq!(token_and_category(&w), Some(("t4".into(), "".into())));
    for other in ["{}", r#"{ "data": { "action": { "payload": { "token": 4 } } } }"#, "[]"] {
        assert_eq!(token_and_category(&json(other)), None);
    }
}

fn page(listings: &[(&str, &str)]) -> Json {
    let widgets: Vec<String> = listings
        .iter()
        .map(|(t, c)| {
            format!(
                r#"{{ "data": {{ "action": {{ "payload": {{ "token": "{t}", "web_info": {{ "category_slug": "{c}" }} }} }} }} }}"#
            )
        })
        .collect();
    json(&format!(r#"{{ "list_widgets": [ {}, {{ "data": 1 }} ] }}"#, widgets.join(",")))
}

#[test]
fn pages_are_read() {
    let p = page(&[("a", "light"), ("b", ""), ("c", "light")]);
    let list = page_listings(&p);
    assert_eq!(
        list,
        vec![("a".into(), "light".into()), ("b".into(), "".into()), ("c".into(), "light".into())]
    );
    assert_eq!(widget_count(&p), 4);
    assert_eq!(widget_count(&json("{}")), 0);
    assert!(page_listings(&json(r#"{ "list_widgets": 3 }"#)).is_empty());

    let counts = page_breakdown(&list);
    assert_eq!(counts.len(), 2);
    assert_eq!(counts.key_at(0), "?");
    assert_eq!(counts.get("?"), Some(&1));
    assert_eq!(counts.get("light"), Some(&2));
    assert_eq!(counts.get("heavy"), None);
}

#[test]
fn the_first_accepted_candidate_is_used() {
    let mut probe = CityProbe::new("iran");
    assert!(probe.is_open());
    assert_eq!(probe.current(), Some(&CityMode::Omit));
    assert!(!probe.answer(&Err("boom".into())));
    assert_eq!(probe.current(), Some(&CityMode::Ids(vec!["0".into()])));
    assert!(!probe.answer(&Err("boom".into())));
    assert!(probe.answer(&Ok(page(&[("a", "light")]))));
    assert_eq!(probe.settle(), CityMode::Slugs(vec!["iran".into()]));

    // An answer without listings is an answer.
    let mut probe = CityProbe::new("iran");
    assert!(probe.answer(&Ok(json(r#"{ "list_widgets": [] }"#))));
    assert_eq!(probe.settle(), CityMode::Omit);

    let single = CityProbe::new("1,2");
    assert!(!single.is_open());
    assert_eq!(single.settle(), CityMode::Ids(vec!["1".into(), "2".into()]));
}

#[test]
fn a_probe_without_success_says_what_was_tried() {
    let mut probe = CityProbe::new("0");
    for why in ["boom", "bang", "crash"] {
        assert!(!probe.answer(&Err(why.into())));
    }
    assert_eq!(probe.current(), None);
    assert_eq!(
        probe.failure(),
        "could not work out how to request the whole country. Tried:\n  \
         no city field (whole country): boom\n  city_ids: [\"0\"]: bang\n  \
         cities: [\"iran\"]: crash\n\
         Fall back to explicit ids: --list-cities to dump them, then --city-ids 1,2,3,..."
    );
}

#[test]
fn categories_to_try_are_not_repeated() {
    let list = category_candidates("boats, cars ,boats,,kites");
    assert_eq!(list.len(), 20);
    assert_eq!(list[0], "vehicles");
    assert_eq!(list[17], "vehicle");
    assert_eq!(list[18], "boats");
    assert_eq!(list[19], "kites");
    assert_eq!(category_candidates("").len(), 18);
}

#[test]
fn a_category_probe_gathers_what_is_accepted() {
    let mut probe = CategoryProbe::new("light, tractors,tractors");
    let mut asked: Vec<String> = Vec::new();
    while let Some(name) = probe.current() {
        asked.push(name.clone());
        let outcome = match name.as_str() {
            "cars" | "tractors" => Ok(json("{}")),
            _ => Err("400: invalid category".to_string()),
        };
        probe.answer(&outcome);
    }
    assert_eq!(asked, category_candidates("tractors"));
    assert_eq!(asked.len(), 19);
    assert_eq!(probe.finish(), Ok(vec!["cars".into(), "tractors".into()]));

    let mut probe = CategoryProbe::new("");
    while probe.current().is_some() {
        probe.answer(&Err("no".into()));
    }
    assert_eq!(
        probe.finish(),
        Err("no candidate category was accepted; check divar.ir's own network tab".into())
    );
}

#[test]
fn refusals_are_told_apart() {
    assert_eq!(refusal("400: invalid category: auto"), "invalid category");
    assert_eq!(refusal("timeout"), "error");
}
