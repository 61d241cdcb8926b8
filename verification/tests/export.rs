use divar_scraper::codec::parse_json;
use divar_scraper::export::{batch_file, export_csv, export_records, is_batch_file};
use divar_scraper::flatten::fixed_columns;
use divar_scraper::store::read_jsonl;

fn record(token: &str, key: &str, value: &str) -> String {
    format!(
        r#"{{"token":"{token}","fetched_at":5,"detail":{{"sections":[{{"title":"{key}","value":"{value}"}}]}}}}"#
    )
}

#[test]
fn batches_share_one_header() {
    let lines: Vec<String> = vec![
        record("a", "zeta", "1"),
        record("b", "alpha", "2"),
        r#"{"token":"no detail"}"#.into(),
        record("c", "zeta", "3"),
        record("d", "beta", "4"),
        record("e", "token", "5"),
    ];
    let x = export_csv(&lines, 2).unwrap().unwrap();
    assert_eq!(x.rows, 5);
    assert_eq!(x.header.len(), 23);
    assert_eq!(x.header[..20], fixed_columns()[..]);
    assert_eq!(x.header[20..], ["alpha", "beta", "zeta"]);
    let mut distinct = x.header.clone();
    distinct.sort();
    distinct.dedup();
    assert_eq!(distinct.len(), x.header.len());
    let names: Vec<&str> = x.batches.iter().map(|b| b.name.as_str()).collect();
    assert_eq!(names, vec!["batch_00001.csv", "batch_00002.csv", "batch_00003.csv"]);
    let sizes: Vec<usize> = x.batches.iter().map(|b| b.lines.len()).collect();
    assert_eq!(sizes, vec![2, 2, 1]);
    let mut tokens = Vec::new();
    for batch in &x.batches {
        for line in &batch.lines {
            assert_eq!(line.len(), x.header.len());
            tokens.push(line[0].clone());
        }
    }
    assert_eq!(tokens, vec!["a", "b", "c", "d", "e"]);
    assert_eq!(x.batches[0].lines[0][1], "https://divar.ir/v/-/a");
    assert_eq!(x.batches[0].lines[0][19], "5");
    assert_eq!(x.batches[0].lines[0][20..], ["", "", "1"]);
    assert_eq!(x.batches[0].lines[1][20..], ["2", "", ""]);
    assert_eq!(x.batches[1].lines[1][20..], ["", "4", ""]);
    assert_eq!(x.batches[2].lines[0][20..], ["", "", ""]);
}

#[test]
fn batch_sizes_are_at_least_one() {
    let lines: Vec<String> = vec![record("a", "k", "1"), record("b", "k", "2")];
    let x = export_csv(&lines, 0).unwrap().unwrap();
    assert_eq!(x.batches.len(), 2);
    let x = export_csv(&lines, 500).unwrap().unwrap();
    assert_eq!(x.batches.len(), 1);
}

#[test]
fn an_empty_store_exports_nothing() {
    assert!(export_csv(&vec!["".into(), "  ".into()], 10).unwrap().is_none());
    let x = export_csv(&vec!["{}".into()], 10).unwrap().unwrap();
    assert_eq!((x.rows, x.header.len(), x.batches.len()), (0, 20, 0));
    assert_eq!(export_csv(&vec!["{}".into(), "]".into()], 10).err().unwrap().at, 1);
}

#[test]
fn a_record_without_time_is_from_zero() {
    let list = vec![parse_json(r#"{"token":"a","fetched_at":-1,"detail":{}}"#).unwrap()];
    let x = export_records(&list, 1);
    assert_eq!(x.batches[0].lines[0][19], "0");
}

#[test]
fn batch_files_are_known_by_name() {
    assert_eq!(batch_file(1), "batch_00001.csv");
    assert_eq!(batch_file(99999), "batch_99999.csv");
    assert_eq!(batch_file(123456), "batch_123456.csv");
    for name in ["batch_00001.csv", "batch_.csv", "batch_x.csv"] {
        assert!(is_batch_file(name));
    }
    for name in ["batch_1.csv.bak", "xbatch_1.csv", "raw.jsonl", "batch.csv", "", "batch_csv"] {
        assert!(!is_batch_file(name));
    }
}

#[test]
fn bad_lines_are_named() {
    let bad = read_jsonl(&vec!["1".into(), "\u{a0}\t".into(), "[1,".into(), "{".into()]).err().unwrap();
    assert_eq!(bad.at, 2);
    assert_eq!(bad.message, "EOF while parsing a value at line 1 column 3");
    let good = read_jsonl(&vec![" null ".into(), "".into(), r#""A""#.into()]).unwrap();
    assert_eq!(good.len(), 2);
    assert!(good[0].is_null());
    assert_eq!(good[1].as_str(), Some("A"));
}
