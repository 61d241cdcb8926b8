use divar_scraper::codec::parse_json;
use divar_scraper::feed::{
    category_share, is_client_error, is_success, judge_search, retry_search, split_pilot, tokens_to_fetch,
    wants_detail, Listings, Turn, Walk,
};
use divar_scraper::json::Json;
use divar_scraper::search::CityMode;
use divar_scraper::store::TokenSet;

fn page(tokens: &[&str], tail: &str) -> Json {
    let widgets: Vec<String> = tokens
        .iter()
        .map(|t| format!(r#"{{ "data": {{ "action": {{ "payload": {{ "token": "{t}" }} }} }} }}"#))
        .collect();
    parse_json(&format!(r#"{{ "list_widgets": [{}] {tail} }}"#, widgets.join(","))).unwrap()
}

fn names(list: Vec<(String, String)>) -> Vec<String> {
    list.into_iter().map(|p| p.0).collect()
}

const MORE: &str = r#", "pagination": { "has_next_page": true, "data": { "p": 1 } }, "search_data": { "k": 2 }"#;

#[test]
fn a_walk_ends_when_enough_is_found() {
    let mut walk = Walk::new(3);
    assert_eq!(walk.page(&page(&["a", "b", "a"], MORE)), Turn::More);
    assert_eq!(walk.count(), 2);
    let body = walk.body(&CityMode::Omit, "cars");
    assert_eq!(
        body,
        parse_json(
            r#"{ "pagination_data": { "p": 1 }, "search_data": { "k": 2,
                 "form_data": { "data": { "category": { "str": { "value": "cars" } } } } } }"#
        )
        .unwrap()
    );
    assert_eq!(walk.page(&page(&["b", "c", "d"], MORE)), Turn::Enough);
    assert_eq!(names(walk.finish()), vec!["a", "b", "c"]);
}

#[test]
fn a_walk_ends_with_the_feed() {
    let mut walk = Walk::new(9);
    assert_eq!(walk.page(&page(&["a"], "")), Turn::Exhausted);
    assert_eq!(names(walk.finish()), vec!["a"]);
    let mut walk = Walk::new(9);
    assert_eq!(walk.page(&page(&["a"], r#", "pagination": { "has_next_page": false }"#)), Turn::Exhausted);
    let mut walk = Walk::new(9);
    assert_eq!(walk.page(&page(&["a"], r#", "pagination": { "has_next_page": "yes" }"#)), Turn::Exhausted);
}

#[test]
fn three_stale_pages_end_a_walk() {
    let mut walk = Walk::new(9);
    assert_eq!(walk.page(&page(&["a"], MORE)), Turn::More);
    assert_eq!(walk.page(&page(&["a"], MORE)), Turn::More);
    assert_eq!(walk.page(&page(&[], MORE)), Turn::More);
    // Something new starts the count again.
    assert_eq!(walk.page(&page(&["b"], MORE)), Turn::More);
    assert_eq!(walk.page(&page(&["a"], MORE)), Turn::More);
    assert_eq!(walk.page(&page(&["a"], MORE)), Turn::More);
    assert_eq!(walk.page(&page(&["b"], MORE)), Turn::Exhausted);
    assert_eq!(names(walk.finish()), vec!["a", "b"]);
}

#[test]
fn a_page_without_state_starts_over() {
    let mut walk = Walk::new(9);
    assert_eq!(walk.page(&page(&["a"], r#", "pagination": { "has_next_page": true }"#)), Turn::More);
    let first = Walk::new(1).body(&CityMode::Omit, "cars");
    assert_eq!(walk.body(&CityMode::Omit, "cars"), first);
}

#[test]
fn listings_of_several_categories_are_merged() {
    let mut all = Listings::new();
    assert!(all.is_empty());
    all.add_fresh(vec![("a".into(), "x".into()), ("b".into(), "x".into())]);
    all.add_fresh(vec![("b".into(), "y".into()), ("c".into(), "y".into())]);
    assert_eq!(all.len(), 3);
    assert_eq!(
        all.into_list(10),
        vec![("a".into(), "x".into()), ("b".into(), "x".into()), ("c".into(), "y".into())]
    );
}

#[test]
fn the_budget_is_shared() {
    assert_eq!(category_share(100, 0, 3, 0), Some(33));
    assert_eq!(category_share(100, 10, 3, 1), Some(45));
    assert_eq!(category_share(100, 20, 3, 2), Some(80));
    assert_eq!(category_share(100, 100, 3, 1), None);
    assert_eq!(category_share(2, 0, 5, 0), Some(1));
    assert_eq!(category_share(0, 0, 1, 0), None);
    assert_eq!(category_share(7, 0, 1, 0), Some(7));
}

#[test]
fn what_is_there_is_not_fetched_again() {
    let mut have = TokenSet::new();
    have.insert("b".into());
    let list = vec![("a".into(), "".into()), ("b".into(), "".into()), ("c".into(), "".into())];
    assert_eq!(tokens_to_fetch(&list, &have), vec!["a", "c"]);
}

#[test]
fn the_pilot_comes_first() {
    let todo: Vec<String> = ["a", "b", "c"].iter().map(|t| format!("{t}")).collect();
    assert_eq!(split_pilot(todo.clone(), 2), (vec!["a".into(), "b".into()], vec!["c".into()]));
    assert_eq!(split_pilot(todo.clone(), 0), (vec![], todo.clone()));
    assert_eq!(split_pilot(todo.clone(), 9), (todo, vec![]));
}

#[test]
fn search_answers_are_judged() {
    assert_eq!(judge_search(200, "200 OK", ""), None);
    assert_eq!(judge_search(204, "204 No Content", ""), None);
    assert_eq!(judge_search(429, "429 Too Many Requests", "x").unwrap(), "rate limited (429) on search page");
    assert_eq!(
        judge_search(500, "500 Internal Server Error", "x").unwrap(),
        "search page http status 500 Internal Server Error"
    );
    assert_eq!(judge_search(302, "302 Found", "").unwrap(), "search page http status 302 Found");
    let long = "é".repeat(400);
    assert_eq!(
        judge_search(400, "400 Bad Request", &long).unwrap(),
        format!(
            "search page http status 400 Bad Request -- the request body is wrong, not the network; \
             retrying will not help. Server said: {}",
            "é".repeat(300)
        )
    );
    assert!(wants_detail(400) && wants_detail(499));
    assert!(!wants_detail(429) && !wants_detail(500) && !wants_detail(200));
    assert!(is_client_error(404) && !is_client_error(399) && !is_client_error(500));
    assert!(is_success(299) && !is_success(300) && !is_success(199));
}

#[test]
fn wrong_requests_are_not_repeated() {
    let wrong = judge_search(400, "400 Bad Request", "no").unwrap();
    assert_eq!(retry_search(0, 8, &wrong), None);
    let limited = judge_search(429, "429 Too Many Requests", "").unwrap();
    assert_eq!(retry_search(0, 8, &limited), Some(1));
    assert_eq!(retry_search(7, 8, &limited), Some(8));
    assert_eq!(retry_search(8, 8, &limited), None);
    assert_eq!(retry_search(0, 0, "timeout"), None);
}
