use divar_scraper::codec::parse_json;
use divar_scraper::json::Json;
use divar_scraper::observe::{observation, observe_panel, Watch};
use divar_scraper::store::{tokens_where, Keep, TokenScan, TokenSet};

fn json(text: &str) -> Json {
    parse_json(text).unwrap()
}

fn bytes(lines: &[String]) -> Vec<Vec<u8>> {
    lines.iter().map(|l| l.as_bytes().to_vec()).collect()
}

fn text_of<'a>(v: &'a Json, key: &str) -> &'a str {
    v.get(key).unwrap().as_str().unwrap()
}

/// Live carries a price, a 404/410 is a removal, and "could not reach" records nothing
/// at all.
#[test]
fn observation_separates_live_removed_and_unreachable() {
    let live = observation("a", &Ok(json(r#"{ "webengage": { "price": 550000000 } }"#)), 7).unwrap();
    assert_eq!(text_of(&live, "status"), "live");
    assert_eq!(live.get("price").unwrap().as_u64(), Some(550000000));
    assert_eq!(live.get("observed_at").unwrap().as_u64(), Some(7));

    let negotiable = observation("a", &Ok(json("{}")), 7).unwrap();
    assert!(negotiable.get("price").unwrap().is_null(), "no fixed price is null, not 0");

    let dead = observation("a", &Err("post removed (http 404 Not Found)".into()), 7).unwrap();
    assert_eq!(text_of(&dead, "status"), "removed");

    let flaky = observation("a", &Err("rate limited (429) (gave up after 9 attempts)".into()), 7);
    assert!(flaky.is_none(), "a transient failure must not be read as a removal");
}

/// Same panel every day: file order, no duplicates, removed ones dropped BEFORE the cap
/// so the cap is not wasted on dead listings.
#[test]
fn observe_panel_is_stable_and_skips_removed() {
    let raw: Vec<String> = ["a", "b", "a", "c", "d"].iter().map(|s| s.to_string()).collect();
    let removed = TokenSet::from_list(&vec!["b".to_string()]);
    assert_eq!(observe_panel(raw.clone(), &removed, 0), vec!["a", "c", "d"]);
    assert_eq!(observe_panel(raw, &removed, 2), vec!["a", "c"]);
}

#[test]
fn the_panel_stays_when_the_store_grows() {
    let mut raw: Vec<String> = ["x", "y", "x"].iter().map(|s| s.to_string()).collect();
    let none = TokenSet::new();
    assert_eq!(observe_panel(raw.clone(), &none, 3), vec!["x", "y"]);
    raw.push("z".into());
    raw.push("w".into());
    assert_eq!(observe_panel(raw, &none, 3), vec!["x", "y", "z"]);
}

#[test]
fn a_watch_counts_and_leaves_lines() {
    let mut watch = Watch::new(4);
    assert_eq!(
        watch.take("a", &Ok(json(r#"{ "webengage": { "price": 5 } }"#)), 9).unwrap(),
        r#"{"observed_at":9,"price":5,"status":"live","token":"a"}"#
    );
    assert!(!watch.progress_due());
    assert_eq!(watch.take("b", &Err("timeout".into()), 9), None);
    assert!(!watch.is_unreliable());
    assert_eq!(
        watch.take("c", &Err("post removed (http 410 Gone)".into()), 10).unwrap(),
        r#"{"observed_at":10,"reason":"post removed (http 410 Gone)","status":"removed","token":"c"}"#
    );
    assert_eq!(watch.take("d", &Err("x".into()), 9), None);
    assert!(watch.progress_due());
    assert_eq!(watch, Watch { total: 4, live: 1, gone: 1, unreachable: 2 });
    assert!(!watch.is_unreliable(), "half is not more than half");
    watch.unreachable = 3;
    assert!(watch.is_unreliable());
    assert!(!Watch::new(0).is_unreliable());
}

#[test]
fn a_removed_listing_is_not_visited_again() {
    let mut watch = Watch::new(2);
    let lines: Vec<String> = vec![
        watch.take("a", &Err("post removed (http 404 Not Found)".into()), 1).unwrap(),
        watch.take("b", &Ok(Json::Null), 1).unwrap(),
    ];
    let removed = TokenSet::from_list(&tokens_where(&bytes(&lines), Keep::Removed).unwrap());
    assert_eq!(observe_panel(vec!["a".into(), "b".into()], &removed, 0), vec!["b"]);
}

#[test]
fn an_incomplete_last_line_is_passed_over() {
    let lines: Vec<String> =
        vec![r#"{"token":"a"}"#.into(), "".into(), r#"{"x":1}"#.into(), r#"{"token":"b"}"#.into(), r#"{"tok"#.into()];
    assert_eq!(tokens_where(&bytes(&lines), Keep::Every).unwrap(), vec!["a", "b"]);
    assert!(tokens_where(&bytes(&lines), Keep::Removed).unwrap().is_empty());

    let mut torn = lines.clone();
    torn.push("".into());
    assert_eq!(tokens_where(&bytes(&torn), Keep::Every).err().unwrap().at, 4);
    assert!(tokens_where(&vec![], Keep::Every).unwrap().is_empty());
}

#[test]
fn a_last_line_may_be_cut_inside_a_letter() {
    let cut = b"{\"token\":\"b\",\"detail\":\"\xD8".to_vec();
    let mut lines = vec![b"{\"token\":\"a\"}".to_vec(), cut.clone()];
    assert_eq!(tokens_where(&lines, Keep::Every).unwrap(), vec!["a"]);

    lines.push(b"{\"token\":\"c\"}".to_vec());
    let bad = tokens_where(&lines, Keep::Every).err().unwrap();
    assert_eq!((bad.at, bad.message.as_str()), (1, "stream did not contain valid UTF-8"));

    let mut scan = TokenScan::new(Keep::Every);
    assert_eq!(scan.bytes(&"{\"token\":\"ت\"}".as_bytes().to_vec(), false), Ok(true));
    assert!(scan.bytes(&cut, false).is_err());
    assert_eq!(scan.bytes(&cut, true), Ok(false));
    assert_eq!(scan.tokens, vec!["ت"]);
}

#[test]
fn lines_can_be_scanned_one_by_one() {
    let mut scan = TokenScan::new(Keep::Every);
    assert_eq!(scan.line(r#"{"token":"a"}"#, false), Ok(true));
    assert_eq!(scan.line("  ", false), Ok(true));
    assert!(scan.line("{", false).is_err());
    assert_eq!(scan.line("{", true), Ok(false));
    assert_eq!(scan.tokens, vec!["a"]);
}
