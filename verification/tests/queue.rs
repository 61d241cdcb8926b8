use divar_scraper::codec::{parse_json, render};
use divar_scraper::failures::{merge_failures, rewrite_failures};
use divar_scraper::fetch::{Fetch, Reply, Run, Step, Sweeps};
use divar_scraper::json::Json;
use divar_scraper::records::{failure_record, queue_lines, raw_line, raw_record};
use divar_scraper::store::{outstanding_failures, read_jsonl, text_lines, tokens_in, StoreError, TokenSet};
use divar_scraper::text::{file_entry, split_lines};
use divar_scraper::throttle::Throttle;

fn json(text: &str) -> Json {
    parse_json(text).unwrap()
}

fn failure(token: &str, error: &str) -> Json {
    json(&format!(r#"{{ "token": "{token}", "error": "{error}" }}"#))
}

fn error_of(v: &Json) -> &str {
    v.get("error").unwrap().as_str().unwrap()
}

/// A later run must never erase the failures an earlier run recorded.
#[test]
fn failure_queue_survives_a_later_run() {
    let old_fails: Vec<Json> = (0..700).map(|i| failure(&format!("old{i}"), "rate limited (429)")).collect();
    let new_fails = || -> Vec<Json> { (0..5).map(|i| failure(&format!("new{i}"), "http status 500")).collect() };

    // Normal run, nothing recovered: all 705 must still be queued.
    let have = TokenSet::new();
    let q = merge_failures(&old_fails, new_fails(), &have, false);
    assert_eq!(q.len(), 705, "a normal run must not truncate earlier failures");

    // Tokens now in the raw store have been recovered and drop out.
    let recovered: Vec<String> = (0..700).map(|i| format!("old{i}")).collect();
    let have = TokenSet::from_list(&recovered);
    let q = merge_failures(&old_fails, new_fails(), &have, false);
    assert_eq!(q.len(), 5);

    // Retry mode rewrites: the previous queue is the input, so only what still failed
    // stays.
    let q = merge_failures(&old_fails, new_fails(), &TokenSet::new(), true);
    assert_eq!(q.len(), 5);

    // Same token failing twice is queued once, with the newer error.
    let q = merge_failures(&vec![failure("x", "old")], vec![failure("x", "new")], &TokenSet::new(), false);
    assert_eq!(q.len(), 1);
    assert_eq!(error_of(&q[0]), "new");
}

#[test]
fn the_queue_is_in_order_of_tokens() {
    let q = merge_failures(
        &vec![failure("m", "1"), json(r#"{ "error": "no token" }"#), json("7")],
        vec![failure("z", "2"), failure("a", "3"), failure("m", "4")],
        &TokenSet::new(),
        false,
    );
    let shown: Vec<String> = q.iter().map(|v| render(v)).collect();
    assert_eq!(
        shown,
        vec![
            r#"{"error":"3","token":"a"}"#,
            r#"{"error":"4","token":"m"}"#,
            r#"{"error":"2","token":"z"}"#
        ]
    );
    // Nothing new and nothing recovered: the queue stays as it is.
    let again = merge_failures(&q, vec![], &TokenSet::new(), false);
    assert_eq!(again, q);
}

#[test]
fn records_have_their_members() {
    assert_eq!(
        render(&raw_record("t", 12, json(r#"{ "x": [1, 2.5] }"#))),
        r#"{"detail":{"x":[1,2.5]},"fetched_at":12,"token":"t"}"#
    );
    assert_eq!(
        render(&failure_record("t", "a \"b\"\n", 3)),
        r#"{"at":3,"error":"a \"b\"\n","token":"t"}"#
    );
    assert_eq!(raw_line("t", 0, Json::Null), r#"{"detail":null,"fetched_at":0,"token":"t"}"#);
    let lines = queue_lines(&vec![failure_record("b", "e", 1), failure_record("a", "f\r\n", 2)]);
    assert_eq!(lines, vec![r#"{"at":1,"error":"e","token":"b"}"#, r#"{"at":2,"error":"f\r\n","token":"a"}"#]);
}

#[test]
fn what_is_stored_is_found_again() {
    let mut lines: Vec<String> = vec![raw_line("a", 1, json(r#"{ "price": -1.5e300 }"#)), "".into()];
    lines.push(raw_line("b\u{2028}", 2, json("[[[]]]")));
    let have = tokens_in(&lines).unwrap();
    assert_eq!(have.len(), 2);
    assert!(have.contains("a") && have.contains("b\u{2028}"));
}

#[test]
fn a_stored_payload_is_read_as_it_was() {
    let detail = || json(r#"{ "n": [-5, 0, 18446744073709551615], "s": "a\n\u0000\"", "deep": { "x": [true, null] } }"#);
    let line = raw_line("t", 4, detail());
    assert_eq!(json(&line), raw_record("t", 4, detail()));
    assert!(!line.contains('\n'));
}

#[test]
fn appending_keeps_what_is_there() {
    let mut lines: Vec<String> = vec![raw_line("a", 1, Json::Null), "".into()];
    let before = read_jsonl(&lines).unwrap();
    lines.push(raw_line("b", 2, Json::Null));
    let after = read_jsonl(&lines).unwrap();
    assert_eq!(after[..1], before[..]);
    assert_eq!(after.len(), 2);
    for value in ["null", "-3", "true", "[]", r#"" ""#, r#"{"x":{}}"#] {
        lines.push(render(&json(value)));
        let read = read_jsonl(&lines).unwrap();
        assert_eq!(read.last(), Some(&json(value)));
    }
    assert_eq!(read_jsonl(&lines).unwrap().len(), 8);
}

#[test]
fn appending_to_a_file_adds_one_record() {
    let mut file = String::new();
    let mut expected: Vec<Json> = Vec::new();
    for value in ["{}", "[1,{\"a\":\"\\n\"}]", "-7", "\" \""] {
        let before = file.clone();
        file.push_str(&file_entry(&render(&json(value))));
        expected.push(json(value));
        assert!(file.starts_with(&before));
        assert_eq!(read_jsonl(&split_lines(&file)).unwrap(), expected);
    }
    assert_eq!(file.lines().count(), 4);
}

#[test]
fn a_queue_with_bytes_that_are_no_text_is_kept() {
    let stored = vec![b"{\"token\":\"x\"}".to_vec(), b"{\"token\":\"y\xff\"}".to_vec(), b"\r".to_vec()];
    let lines = text_lines(&stored);
    assert_eq!(lines, vec!["{\"token\":\"x\"}", "\r"]);
    assert_eq!(rewrite_failures(&vec![], &lines, vec![], false).unwrap(), vec!["{\"token\":\"x\"}"]);
}

#[test]
fn the_failure_store_is_rewritten_after_a_run() {
    let raw: Vec<String> = vec![raw_line("a", 1, Json::Null)];
    let failures: Vec<String> =
        vec![r#"{"token":"a","error":"x"}"#.into(), " ".into(), r#"{"token":"b","error":"x"}"#.into()];
    let lines = rewrite_failures(&raw, &failures, vec![failure_record("c", "y", 9)], false).unwrap();
    assert_eq!(lines, vec![r#"{"error":"x","token":"b"}"#, r#"{"at":9,"error":"y","token":"c"}"#]);
    // The next sweep takes exactly these.
    assert_eq!(outstanding_failures(&raw, &lines).unwrap(), vec!["b", "c"]);

    let lines = rewrite_failures(&raw, &failures, vec![failure_record("c", "y", 9)], true).unwrap();
    assert_eq!(lines, vec![r#"{"at":9,"error":"y","token":"c"}"#]);

    // A line that cannot be read costs no other.
    let damaged: Vec<String> =
        vec!["{".into(), r#"{"token":"x","error":"e"}"#.into(), "not json".into()];
    let lines = rewrite_failures(&vec![], &damaged, vec![], false).unwrap();
    assert_eq!(lines, vec![r#"{"error":"e","token":"x"}"#]);
    // A raw store that cannot be read is an error.
    let bad = rewrite_failures(&vec!["".into(), "{".into()], &failures, vec![], false).err().unwrap();
    assert_eq!(bad.at, 1);
}

#[test]
fn owed_listings_are_those_not_fetched() {
    let raw: Vec<String> = vec![r#"{"token":"b"}"#.into()];
    let failures: Vec<String> = vec![
        r#"{"token":"c"}"#.into(),
        r#"{"token":"b"}"#.into(),
        r#"{"token":5}"#.into(),
        r#"{"token":"a"}"#.into(),
        r#"{"token":"c"}"#.into(),
    ];
    assert_eq!(outstanding_failures(&raw, &failures).unwrap(), vec!["c", "a", "c"]);
    assert!(outstanding_failures(&vec![], &vec![]).unwrap().is_empty());
    match outstanding_failures(&vec!["x".into()], &failures) {
        Err(StoreError::Raw(e)) => assert_eq!(e.at, 0),
        other => panic!("{other:?}"),
    }
    match outstanding_failures(&raw, &vec!["".into(), "x".into()]) {
        Err(StoreError::Failures(e)) => {
            assert_eq!(e.at, 1);
            assert_eq!(e.message, "expected value at line 1 column 1");
        }
        other => panic!("{other:?}"),
    }
}

fn status(code: u16, line: &str, retry_after: Option<&str>) -> Reply {
    Reply::Status { code, line: line.into(), retry_after: retry_after.map(|v| v.into()) }
}

fn failed(step: Step) -> (String, Option<u64>) {
    match step {
        Step::Failed { message, pause } => (message, pause),
        _ => panic!("not a failure"),
    }
}

fn again(step: Step) -> (String, Option<u64>, u32) {
    match step {
        Step::Again { message, pause, attempt } => (message, pause, attempt),
        _ => panic!("no other try"),
    }
}

#[test]
fn transient_failures_are_retried_until_the_limit() {
    let mut t = Throttle::new(400, 2000);
    let mut f = Fetch::new(2);
    assert_eq!(
        again(f.next(status(500, "500 Internal Server Error", None), &mut t)),
        ("http status 500 Internal Server Error".into(), None, 1)
    );
    assert_eq!(
        again(f.next(Reply::Unsent { message: "timeout".into() }, &mut t)),
        ("timeout".into(), None, 2)
    );
    assert_eq!(
        failed(f.next(Reply::Garbled { message: "eof".into() }, &mut t)),
        ("detail response not JSON: eof (gave up after 3 attempts)".into(), None)
    );
    assert_eq!(t.current(), 400);
    let mut f = Fetch::new(0);
    assert_eq!(
        failed(f.next(status(429, "429 Too Many Requests", Some("7")), &mut t)),
        ("rate limited (429) (gave up after 1 attempts)".into(), Some(7))
    );
    assert_eq!(t.current(), 600);
}

#[test]
fn the_server_may_ask_for_a_pause() {
    for (header, pause) in [
        (Some("30"), Some(30)),
        (Some("+5"), Some(5)),
        (Some("121"), Some(121)),
        (Some("3600"), Some(3600)),
        (Some("18446744073709551615"), Some(u64::MAX)),
        (Some("18446744073709551616"), None),
        (Some(" 30"), None),
        (Some("Wed, 21 Oct 2015 07:28:00 GMT"), None),
        (Some(""), None),
        (Some("-1"), None),
        (None, None),
    ] {
        let mut t = Throttle::new(400, 2000);
        let mut f = Fetch::new(8);
        let step = f.next(status(429, "429 Too Many Requests", header), &mut t);
        assert_eq!(again(step), ("rate limited (429)".into(), pause, 1), "{header:?}");
    }
}

#[test]
fn dead_listings_are_not_retried() {
    for (code, line) in [(404, "404 Not Found"), (410, "410 Gone")] {
        let mut t = Throttle::new(400, 2000);
        let mut f = Fetch::new(8);
        assert_eq!(
            failed(f.next(status(code, line, Some("7")), &mut t)),
            (format!("post removed (http {line})"), None)
        );
        assert_eq!(f.made, 0);
    }
}

#[test]
fn a_payload_counts_as_success() {
    let mut t = Throttle::new(400, 2000);
    let mut f = Fetch::new(8);
    assert!(matches!(f.next(status(200, "200 OK", None), &mut t), Step::Read));
    assert_eq!(t.ok_streak, 0);
    match f.next(Reply::Payload(json("[5]")), &mut t) {
        Step::Done(v) => assert_eq!(v, json("[5]")),
        _ => panic!("not done"),
    }
    assert_eq!(t.ok_streak, 1);
    for _ in 1..49 {
        f.next(Reply::Payload(Json::Null), &mut t);
    }
    assert_eq!((t.current(), t.ok_streak), (400, 49));
    f.next(Reply::Payload(Json::Null), &mut t);
    assert_eq!((t.current(), t.ok_streak), (360, 0));
}

#[test]
fn a_run_keeps_its_counts() {
    let mut run = Run::new(26);
    assert!(run.progress_due());
    let line = run.take("a", Ok(json(r#"{"x":1}"#)), 5).unwrap();
    assert_eq!(line, r#"{"detail":{"x":1},"fetched_at":5,"token":"a"}"#);
    assert!(!run.progress_due());
    assert_eq!(run.take("b", Err("gone".into()), 6), Err("gone".into()));
    assert_eq!((run.done, run.failed), (1, 1));
    assert_eq!(run.still_failing, vec![failure_record("b", "gone", 6)]);
    for i in 0..23 {
        run.take(&format!("c{i}"), Err("gone".into()), 6).err().unwrap();
    }
    assert!(run.progress_due());
    run.take("d", Ok(Json::Null), 7).unwrap();
    assert!(run.progress_due(), "the last one");
}

#[test]
fn sweeps_go_on_while_something_is_owed() {
    let mut t = Throttle::new(400, 8000);
    let mut sweeps = Sweeps::new(2, 10, 4);
    assert_eq!(sweeps.next(4, &mut t), Some(1));
    assert_eq!(t.current(), 800);
    sweeps.take(3, 1);
    assert_eq!(sweeps.next(0, &mut t), None);
    assert_eq!(t.current(), 800);
    assert_eq!(sweeps.next(1, &mut t), Some(2));
    assert_eq!(t.current(), 3200);
    sweeps.take(0, 1);
    assert_eq!(sweeps.next(1, &mut t), None);
    assert_eq!((sweeps.done, sweeps.failed), (13, 1));
}
