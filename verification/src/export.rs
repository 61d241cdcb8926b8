//! The raw store as tables that can be put together.

use vstd::prelude::*;
use vstd::string::StringExecFns;
use crate::flatten::{column_names, dynamic_cells, fixed_cells, fixed_columns, flatten, is_row_of, Row};
use crate::json::{member, number_u64, trees, Json, JsonView};
use crate::keymap::{in_order, KeySet, TextMap};
use crate::store::{blames, read_jsonl, readable, record_token, records, token_of, BadLine};
use crate::text::{decimal, decimal_text, ends_with, has_prefix, has_suffix, starts_with, texts};

verus! {

/// A listing of the raw store.
pub struct Entry {
    pub token: Seq<char>,
    pub detail: JsonView,
    pub at: u64,
}

/// When a record was fetched; 0 where it does not say.
pub open spec fn fetched_at(v: JsonView) -> u64 {
    match member(v, "fetched_at"@) {
        Some(JsonView::Num(n)) => match number_u64(n) {
            Some(at) => at,
            None => 0,
        },
        _ => 0,
    }
}

/// The listing of a record that has a token and a payload.
pub open spec fn entry_of(v: JsonView) -> Option<Entry> {
    match (token_of(v), member(v, "detail"@)) {
        (Some(token), Some(detail)) => Some(Entry { token, detail, at: fetched_at(v) }),
        _ => None,
    }
}

/// The listings of records, in their order.
pub open spec fn entries(list: Seq<JsonView>) -> Seq<Entry>
    decreases list.len(),
{
    if list.len() == 0 {
        Seq::empty()
    } else {
        match entry_of(list.last()) {
            Some(e) => entries(list.drop_last()).push(e),
            None => entries(list.drop_last()),
        }
    }
}

/// Each row is that of the listing at its place.
pub open spec fn are_rows(rows: Seq<Row>, list: Seq<Entry>) -> bool {
    &&& rows.len() == list.len()
    &&& forall|i: int| 0 <= i < rows.len() ==> is_row_of(#[trigger] rows[i], list[i].token, list[i].detail, list[i].at)
}

/// The rows of the records that have a token and a payload.
pub fn rows_of(list: &Vec<Json>) -> (r: Vec<Row>)
    ensures
        are_rows(r@, entries(trees(list@))),
{
    let ghost all = trees(list@);
    let mut out: Vec<Row> = Vec::new();
    assert(all.take(0) =~= Seq::empty());
    for i in 0..list.len()
        invariant
            all == trees(list@),
            are_rows(out@, entries(all.take(i as int))),
    {
        let v = &list[i];
        proof {
            assert(all.take(i + 1).drop_last() =~= all.take(i as int));
            assert(all.take(i + 1).last() == v@);
        }
        let at: u64 = match v.get("fetched_at") {
            Some(n) => match n.as_u64() {
                Some(at) => at,
                None => 0,
            },
            None => 0,
        };
        match (record_token(v), v.get("detail")) {
            (Some(token), Some(detail)) => {
                out.push(flatten(token, detail, at));
            },
            _ => {},
        }
    }
    assert(all.take(list@.len() as int) =~= all);
    out
}

/// Some listing has a cell in the column `k` that is not every table's.
pub open spec fn says_something(list: Seq<Entry>, k: Seq<char>) -> bool {
    exists|i: int| 0 <= i < list.len() && dynamic_cells((#[trigger] list[i]).detail).contains_key(k)
}

/// The header of the tables for listings: the columns that every table has, then in
/// ascending order each other column in which some listing has a cell.
pub open spec fn is_header(header: Seq<Seq<char>>, list: Seq<Entry>) -> bool {
    let n = column_names().len() as int;
    &&& header.len() >= n
    &&& header.take(n) == column_names()
    &&& in_order(header.skip(n))
    &&& forall|k: Seq<char>| #[trigger] header.skip(n).contains(k) <==> says_something(list, k)
}

/// What stands under a key, or nothing.
pub open spec fn cell_or_empty(m: Map<Seq<char>, Seq<char>>, key: Seq<char>) -> Seq<char> {
    if m.contains_key(key) {
        m[key]
    } else {
        Seq::empty()
    }
}

/// The line of a listing under a header: one cell for each column.
pub open spec fn line_of(e: Entry, header: Seq<Seq<char>>) -> Seq<Seq<char>> {
    Seq::new(
        header.len(),
        |i: int|
            if i < column_names().len() {
                cell_or_empty(fixed_cells(e.token, e.detail, e.at), header[i])
            } else {
                cell_or_empty(dynamic_cells(e.detail), header[i])
            },
    )
}

/// The lines of listings under a header.
pub open spec fn lines_of(list: Seq<Entry>, header: Seq<Seq<char>>) -> Seq<Seq<Seq<char>>> {
    list.map_values(|e: Entry| line_of(e, header))
}

/// What lines hold.
pub open spec fn line_views(lines: Seq<Vec<String>>) -> Seq<Seq<Seq<char>>> {
    lines.map_values(|l: Vec<String>| texts(l@))
}

fn gather_keys(rows: &Vec<Row>, Ghost(list): Ghost<Seq<Entry>>) -> (r: Vec<String>)
    requires
        are_rows(rows@, list),
    ensures
        in_order(texts(r@)),
        forall|k: Seq<char>| #[trigger] texts(r@).contains(k) <==> says_something(list, k),
{
    let mut keys = KeySet::new();
    for i in 0..rows.len()
        invariant
            are_rows(rows@, list),
            forall|k: Seq<char>| #[trigger] keys@.contains(k) <==> says_something(list.take(i as int), k),
    {
        let row = &rows[i];
        let ghost before = keys@;
        let n = row.dynamic.len();
        proof {
            row.dynamic.lemma_keys();
            assert(row.dynamic@ == dynamic_cells(list[i as int].detail));
        }
        for j in 0..n
            invariant
                n == row.dynamic.keys().len(),
                forall|k: Seq<char>|
                    #[trigger] keys@.contains(k) <==> before.contains(k) || row.dynamic.keys().take(j as int).contains(k),
        {
            let ghost inner = keys@;
            keys.insert(row.dynamic.key_at(j).clone());
            proof {
                let all = row.dynamic.keys();
                crate::seqs::lemma_to_set_step(all, j as int);
                assert forall|k: Seq<char>| #[trigger] keys@.contains(k) <==> before.contains(k) || all.take(
                    j + 1,
                ).contains(k) by {
                    assert(keys@.contains(k) <==> inner.contains(k) || k == all[j as int]);
                    assert(all.take(j + 1).to_set().contains(k) <==> all.take(j + 1).contains(k));
                    assert(all.take(j as int).to_set().contains(k) <==> all.take(j as int).contains(k));
                }
            }
        }
        proof {
            let all = row.dynamic.keys();
            assert(all.take(n as int) =~= all);
            let now = list.take(i + 1);
            let past = list.take(i as int);
            assert forall|k: Seq<char>| #[trigger] keys@.contains(k) <==> says_something(now, k) by {
                assert(keys@.contains(k) <==> before.contains(k) || all.contains(k));
                assert(before.contains(k) <==> says_something(past, k));
                if says_something(past, k) {
                    let m = choose|m: int|
                        0 <= m < past.len() && dynamic_cells((#[trigger] past[m]).detail).contains_key(k);
                    assert(now[m] == past[m]);
                }
                if all.contains(k) {
                    assert(now[i as int] == list[i as int]);
                }
                if says_something(now, k) {
                    let m = choose|m: int|
                        0 <= m < now.len() && dynamic_cells((#[trigger] now[m]).detail).contains_key(k);
                    if m < i {
                        assert(past[m] == now[m]);
                    } else {
                        assert(now[m] == list[i as int]);
                    }
                }
            }
        }
    }
    assert(list.take(rows@.len() as int) =~= list);
    keys.to_list()
}

fn cell_of(m: &TextMap, key: &str) -> (r: String)
    ensures
        r@ == cell_or_empty(m@, key@),
{
    match m.get(key) {
        Some(v) => v.clone(),
        None => String::new(),
    }
}

fn table_line(row: &Row, header: &Vec<String>, Ghost(e): Ghost<Entry>) -> (r: Vec<String>)
    requires
        is_row_of(*row, e.token, e.detail, e.at),
    ensures
        texts(r@) == line_of(e, texts(header@)),
{
    let fixed = fixed_columns();
    let n = fixed.len();
    assert(n == column_names().len()) by {
        assert(texts(fixed@).len() == fixed@.len());
    }
    let mut out: Vec<String> = Vec::new();
    for i in 0..header.len()
        invariant
            n == column_names().len(),
            is_row_of(*row, e.token, e.detail, e.at),
            out@.len() == i,
            forall|j: int| 0 <= j < i ==> (#[trigger] out@[j])@ == line_of(e, texts(header@))[j],
    {
        assert(texts(header@)[i as int] == header@[i as int]@);
        if i < n {
            out.push(cell_of(&row.fixed, header[i].as_str()));
        } else {
            out.push(cell_of(&row.dynamic, header[i].as_str()));
        }
    }
    assert(texts(out@) =~= line_of(e, texts(header@)));
    out
}

/// A sequence in pieces of `size`; the last may be shorter.
pub open spec fn batches_of<A>(all: Seq<A>, size: nat) -> Seq<Seq<A>>
    decreases all.len(),
{
    if size == 0 || all.len() == 0 {
        Seq::empty()
    } else if all.len() <= size {
        seq![all]
    } else {
        seq![all.take(size as int)] + batches_of(all.skip(size as int), size)
    }
}

/// `s` with zeros before it, so that it has at least `width` characters.
pub open spec fn padded(s: Seq<char>, width: nat) -> Seq<char>
    decreases width - s.len(),
{
    if s.len() >= width {
        s
    } else {
        padded(seq!['0'] + s, width)
    }
}

/// The name of the batch with the number `n`.
pub open spec fn batch_name(n: nat) -> Seq<char> {
    "batch_"@ + padded(decimal(n), 5) + ".csv"@
}

/// The name of the batch with the number `n`.
pub fn batch_file(n: u64) -> (r: String)
    ensures
        r@ == batch_name(n as nat),
{
    let mut digits = decimal_text(n);
    let ghost plain = digits@;
    while digits.as_str().unicode_len() < 5
        invariant
            padded(digits@, 5) == padded(plain, 5),
        decreases 5 - digits@.len(),
    {
        let longer = "0".to_owned().concat(digits.as_str());
        proof {
            reveal_strlit("0");
            assert(longer@ =~= seq!['0'] + digits@);
        }
        digits = longer;
    }
    "batch_".to_owned().concat(digits.as_str()).concat(".csv")
}

/// Whether a file is a batch of an earlier export.
pub fn is_batch_file(name: &str) -> (r: bool)
    ensures
        r == (has_prefix(name@, "batch_"@) && has_suffix(name@, ".csv"@)),
{
    starts_with(name, "batch_") && ends_with(name, ".csv")
}

/// One file of an export.
pub struct Batch {
    pub name: String,
    pub lines: Vec<Vec<String>>,
}

/// An export: files that share one header.
pub struct Export {
    pub header: Vec<String>,
    pub rows: usize,
    pub batches: Vec<Batch>,
}

/// The lines of batches.
pub open spec fn batch_views(batches: Seq<Batch>) -> Seq<Seq<Seq<Seq<char>>>> {
    batches.map_values(|b: Batch| line_views(b.lines@))
}

/// Each batch bears its number in its name, from 1 on.
pub open spec fn numbered(batches: Seq<Batch>) -> bool {
    forall|i: int| 0 <= i < batches.len() ==> (#[trigger] batches[i]).name@ == batch_name((i + 1) as nat)
}

/// The size of batches that is used where `size` is asked for: at least 1.
pub open spec fn batch_limit(size: usize) -> nat {
    if size < 1 {
        1
    } else {
        size as nat
    }
}

/// The export of listings.
pub open spec fn is_export(x: Export, list: Seq<Entry>, size: usize) -> bool {
    &&& is_header(texts(x.header@), list)
    &&& x.rows == list.len()
    &&& batch_views(x.batches@) == batches_of(lines_of(list, texts(x.header@)), batch_limit(size))
    &&& numbered(x.batches@)
}

fn cut(lines: Vec<Vec<String>>, size: usize) -> (r: Vec<Batch>)
    requires
        size > 0,
    ensures
        batch_views(r@) == batches_of(line_views(lines@), size as nat),
        numbered(r@),
{
    let ghost all = line_views(lines@);
    let mut rest = lines;
    let mut out: Vec<Batch> = Vec::new();
    assert(rest@.len() == rest.len());
    assert(batch_views(out@) + batches_of(all, size as nat) =~= batches_of(all, size as nat));
    while rest.len() > size
        invariant
            size > 0,
            numbered(out@),
            out@.len() + rest@.len() <= usize::MAX,
            batch_views(out@) + batches_of(line_views(rest@), size as nat) == batches_of(all, size as nat),
        decreases rest@.len(),
    {
        let ghost before = batch_views(out@);
        let ghost left = line_views(rest@);
        let tail = rest.split_off(size);
        proof {
            assert(line_views(rest@) =~= left.take(size as int));
            assert(line_views(tail@) =~= left.skip(size as int));
        }
        let ghost piece = line_views(rest@);
        out.push(Batch { name: batch_file(out.len() as u64 + 1), lines: rest });
        rest = tail;
        proof {
            assert(batch_views(out@) =~= before.push(piece));
            assert(before.push(piece) + batches_of(line_views(rest@), size as nat) =~= before + (seq![piece]
                + batches_of(line_views(rest@), size as nat)));
        }
    }
    if rest.len() > 0 {
        let ghost before = batch_views(out@);
        let ghost piece = line_views(rest@);
        out.push(Batch { name: batch_file(out.len() as u64 + 1), lines: rest });
        proof {
            assert(batch_views(out@) =~= before.push(piece));
            assert(before.push(piece) =~= before + seq![piece]);
        }
    } else {
        assert(batch_views(out@) + Seq::empty() =~= batch_views(out@));
    }
    out
}

/// Makes the tables of a list of records, in batches with one header for all.
pub fn export_records(list: &Vec<Json>, batch_size: usize) -> (r: Export)
    ensures
        is_export(r, entries(trees(list@)), batch_size),
{
    let ghost all = entries(trees(list@));
    let rows = rows_of(list);
    let mut header = fixed_columns();
    let mut keys = gather_keys(&rows, Ghost(all));
    let ghost extra = texts(keys@);
    let ghost names = texts(header@);
    header.append(&mut keys);
    proof {
        assert(texts(header@) =~= names + extra);
        assert(texts(header@).take(names.len() as int) =~= names);
        assert(texts(header@).skip(names.len() as int) =~= extra);
    }
    let mut lines: Vec<Vec<String>> = Vec::new();
    for i in 0..rows.len()
        invariant
            are_rows(rows@, all),
            lines@.len() == i,
            forall|j: int| 0 <= j < i ==> texts((#[trigger] lines@[j])@) == line_of(all[j], texts(header@)),
    {
        lines.push(table_line(&rows[i], &header, Ghost(all[i as int])));
    }
    assert(line_views(lines@) =~= lines_of(all, texts(header@)));
    let size: usize = if batch_size < 1 {
        1
    } else {
        batch_size
    };
    let count = rows.len();
    let batches = cut(lines, size);
    Export { header, rows: count, batches }
}

/// Makes the tables of a raw store. A store without records gives none.
pub fn export_csv(raw_lines: &Vec<String>, batch_size: usize) -> (r: Result<Option<Export>, BadLine>)
    ensures
        match r {
            Ok(Some(x)) => {
                &&& readable(texts(raw_lines@))
                &&& records(texts(raw_lines@)).len() > 0
                &&& is_export(x, entries(records(texts(raw_lines@))), batch_size)
            },
            Ok(None) => readable(texts(raw_lines@)) && records(texts(raw_lines@)).len() == 0,
            Err(e) => blames(e, texts(raw_lines@)),
        },
{
    let list = match read_jsonl(raw_lines) {
        Ok(list) => list,
        Err(e) => return Err(e),
    };
    assert(trees(list@).len() == list@.len());
    if list.len() == 0 {
        Ok(None)
    } else {
        Ok(Some(export_records(&list, batch_size)))
    }
}

/// The batches put together are all lines in their order; none is empty or too long.
pub proof fn law_batches_hold_every_line<A>(all: Seq<A>, size: nat)
    requires
        size > 0,
    ensures
        batches_of(all, size).flatten() == all,
        forall|i: int|
            0 <= i < batches_of(all, size).len() ==> 1 <= (#[trigger] batches_of(all, size)[i]).len() <= size,
    decreases all.len(),
{
    let whole = batches_of(all, size);
    if all.len() == 0 {
        assert(whole.flatten() =~= all);
    } else if all.len() <= size {
        assert(whole =~= seq![all]);
        seq![all].lemma_flatten_one_element();
    } else {
        let first = all.take(size as int);
        let rest = batches_of(all.skip(size as int), size);
        law_batches_hold_every_line(all.skip(size as int), size);
        assert(whole.first() == first);
        assert(whole.drop_first() =~= rest);
        assert(whole.flatten() == first + rest.flatten());
        assert(first + all.skip(size as int) =~= all);
        assert forall|i: int| 0 <= i < whole.len() implies 1 <= (#[trigger] whole[i]).len() <= size by {
            if i > 0 {
                assert(whole[i] == rest[i - 1]);
            }
        }
    }
}

/// Every line has a cell for each column of the one header, so that batches can be put
/// together.
pub proof fn law_lines_match_the_header(list: Seq<Entry>, header: Seq<Seq<char>>)
    ensures
        lines_of(list, header).len() == list.len(),
        forall|i: int| 0 <= i < list.len() ==> (#[trigger] lines_of(list, header)[i]).len() == header.len(),
{
}

/// The columns that every table has are different.
pub proof fn lemma_column_names()
    ensures
        column_names().no_duplicates(),
{
    reveal_strlit("token");
    reveal_strlit("url");
    reveal_strlit("title");
    reveal_strlit("subtitle");
    reveal_strlit("description");
    reveal_strlit("seo_title");
    reveal_strlit("seo_description");
    reveal_strlit("category");
    reveal_strlit("city");
    reveal_strlit("district");
    reveal_strlit("posted_raw");
    reveal_strlit("price_raw");
    reveal_strlit("latitude");
    reveal_strlit("longitude");
    reveal_strlit("map_radius_m");
    reveal_strlit("image_count");
    reveal_strlit("image_urls");
    reveal_strlit("thumbnail_urls");
    reveal_strlit("tags");
    reveal_strlit("fetched_at");
    let names = column_names();
    assert forall|i: int, j: int| 0 <= i < j < names.len() implies #[trigger] names[i] != #[trigger] names[j] by {
        assert(names[i].len() != names[j].len() || names[i][0] != names[j][0] || names[i][1] != names[j][1] || names[i][2]
            != names[j][2] || names[i][6] != names[j][6]);
    }
}

/// No column of a header occurs twice.
pub proof fn law_columns_are_different(header: Seq<Seq<char>>, list: Seq<Entry>)
    requires
        is_header(header, list),
    ensures
        header.no_duplicates(),
{
    let names = column_names();
    let n = names.len() as int;
    let extra = header.skip(n);
    lemma_column_names();
    assert forall|i: int, j: int| 0 <= i < j < header.len() implies header[i] != header[j] by {
        if j < n {
            assert(header.take(n)[i] == names[i] && header.take(n)[j] == names[j]);
        } else {
            assert(extra[j - n] == header[j]);
            if i >= n {
                assert(extra[i - n] == header[i]);
                assert(crate::text::precedes(extra[i - n], extra[j - n]));
                crate::text::lemma_precedes_irreflexive(header[i]);
            } else {
                assert(header.take(n)[i] == names[i]);
                assert(extra.contains(header[j]));
                assert(says_something(list, header[j]));
                assert(!names.to_set().contains(header[j]));
                if header[i] == header[j] {
                    assert(names.contains(header[j]));
                }
            }
        }
    }
}

/// Nothing that was harvested is lost: each such cell of a listing stands in a column
/// of its own.
pub proof fn law_every_cell_is_exported(header: Seq<Seq<char>>, list: Seq<Entry>, i: int, key: Seq<char>)
    requires
        is_header(header, list),
        0 <= i < list.len(),
        dynamic_cells(list[i].detail).contains_key(key),
    ensures
        exists|j: int|
            column_names().len() <= j < header.len() && #[trigger] header[j] == key && line_of(list[i], header)[j]
                == dynamic_cells(list[i].detail)[key],
{
    let n = column_names().len() as int;
    let extra = header.skip(n);
    assert(says_something(list, key));
    assert(extra.contains(key));
    let m = choose|m: int| 0 <= m < extra.len() && extra[m] == key;
    assert(header[m + n] == key);
    assert(line_of(list[i], header)[m + n] == dynamic_cells(list[i].detail)[key]);
}

} // verus!
