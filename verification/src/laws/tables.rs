//! Exports: which records become lines, what stands in their cells, and how they are cut.

use vstd::prelude::*;
use crate::export::{
    batch_limit, batch_name, batch_views, batches_of, entries, entry_of, fetched_at, is_export, lines_of, padded,
    says_something, Entry, Export,
};
use crate::flatten::{column_names, dynamic_cells, fixed_cells};
use crate::json::{member, number_u64, JsonView};
use crate::text::{all_digits, decimal, digits_value, precedes, texts};

verus! {

/// A record becomes a line where it has a text under "token" and anything under
/// "detail". It was fetched at the unsigned number under "fetched_at", or at 0.
pub proof fn law_entries(list: Seq<JsonView>, v: JsonView, token: Seq<char>, detail: JsonView)
    ensures
        entries(Seq::empty()).len() == 0,
        !(member(v, "token"@) matches Some(JsonView::Text(_))) || member(v, "detail"@) is None ==> {
            &&& entry_of(v) is None
            &&& entries(list.push(v)) == entries(list)
        },
        member(v, "token"@) == Some(JsonView::Text(token)) && member(v, "detail"@) == Some(detail) ==> {
            &&& entry_of(v) matches Some(e)
            &&& e.token == token
            &&& e.detail == detail
            &&& e.at == fetched_at(v)
            &&& entries(list.push(v)) == entries(list).push(e)
        },
        (member(v, "fetched_at"@) matches Some(JsonView::Num(n)) && number_u64(n) is Some) ==> (member(
            v,
            "fetched_at"@,
        ) matches Some(JsonView::Num(n)) && number_u64(n) == Some(fetched_at(v))),
        !(member(v, "fetched_at"@) matches Some(JsonView::Num(n)) && number_u64(n) is Some) ==> fetched_at(v) == 0,
{
    assert(list.push(v).drop_last() =~= list);
    assert(list.push(v).last() == v);
}

/// The header of an export starts with the twenty columns of every table. The others
/// follow in ascending order: each key that some listing has a cell under, and no other.
pub proof fn law_header(x: Export, list: Seq<Entry>, size: usize, key: Seq<char>, i: int, j: int)
    requires
        is_export(x, list, size),
    ensures
        x.header@.len() >= 20,
        0 <= i < 20 ==> x.header@[i]@ == column_names()[i],
        20 <= i < j < x.header@.len() ==> precedes(x.header@[i]@, x.header@[j]@),
        20 <= i < x.header@.len() ==> exists|k: int|
            0 <= k < list.len() && dynamic_cells((#[trigger] list[k]).detail).contains_key(x.header@[i]@),
        0 <= j < list.len() && dynamic_cells(list[j].detail).contains_key(key) ==> exists|k: int|
            20 <= k < x.header@.len() && (#[trigger] x.header@[k])@ == key,
{
    let header = texts(x.header@);
    assert(header.len() == x.header@.len());
    let names = column_names();
    assert(names.len() == 20);
    let extra = header.skip(20);
    if 0 <= i < 20 {
        assert(header.take(20)[i] == names[i]);
        assert(header[i] == x.header@[i]@);
    }
    if 20 <= i < j < x.header@.len() {
        assert(precedes(extra[i - 20], extra[j - 20]));
    }
    if 20 <= i < x.header@.len() {
        assert(extra[i - 20] == x.header@[i]@);
        assert(extra.contains(x.header@[i]@));
        assert(says_something(list, x.header@[i]@));
    }
    if 0 <= j < list.len() && dynamic_cells(list[j].detail).contains_key(key) {
        assert(says_something(list, key));
        assert(extra.contains(key));
        let m = choose|m: int| 0 <= m < extra.len() && extra[m] == key;
        assert(x.header@[m + 20]@ == key);
    }
}

/// The lines of an export, batch after batch, are those of the listings in their order.
/// Under a column of every table stands the listing's cell of that name, under another
/// what was harvested; an empty text where there is none.
pub proof fn law_lines(x: Export, list: Seq<Entry>, size: usize, i: int, j: int)
    requires
        is_export(x, list, size),
    ensures
        x.rows == list.len(),
        batch_views(x.batches@).flatten().len() == list.len(),
        0 <= i < list.len() ==> batch_views(x.batches@).flatten()[i].len() == x.header@.len(),
        0 <= i < list.len() && 0 <= j < x.header@.len() ==> {
            let line = batch_views(x.batches@).flatten()[i];
            let key = x.header@[j]@;
            let cells = if j < 20 {
                fixed_cells(list[i].token, list[i].detail, list[i].at)
            } else {
                dynamic_cells(list[i].detail)
            };
            &&& cells.contains_key(key) ==> line[j] == cells[key]
            &&& !cells.contains_key(key) ==> line[j].len() == 0
        },
{
    let header = texts(x.header@);
    assert(header.len() == x.header@.len());
    assert(column_names().len() == 20);
    let all = lines_of(list, header);
    crate::export::law_batches_hold_every_line(all, batch_limit(size));
    if 0 <= i < list.len() && 0 <= j < x.header@.len() {
        assert(header[j] == x.header@[j]@);
        assert(all[i][j] == crate::export::line_of(list[i], header)[j]);
    }
}

/// Each batch but the last is full; the last is not empty and not too long. A size of 0
/// counts as 1.
pub proof fn law_batches(x: Export, list: Seq<Entry>, size: usize, i: int)
    requires
        is_export(x, list, size),
    ensures
        size > 0 && 0 <= i < x.batches@.len() - 1 ==> x.batches@[i].lines@.len() == size,
        size == 0 && 0 <= i < x.batches@.len() ==> x.batches@[i].lines@.len() == 1,
        size > 0 && 0 <= i < x.batches@.len() ==> 1 <= x.batches@[i].lines@.len() <= size,
{
    let all = lines_of(list, texts(x.header@));
    let n = batch_limit(size);
    crate::export::law_batches_hold_every_line(all, n);
    lemma_full(all, n, i);
    let views = batch_views(x.batches@);
    assert(views.len() == x.batches@.len());
    if 0 <= i < x.batches@.len() {
        assert(views[i].len() == x.batches@[i].lines@.len());
    }
}

proof fn lemma_full<A>(all: Seq<A>, size: nat, i: int)
    requires
        size > 0,
    ensures
        0 <= i < batches_of(all, size).len() - 1 ==> batches_of(all, size)[i].len() == size,
    decreases all.len(),
{
    if all.len() > size {
        let rest = all.skip(size as int);
        lemma_full(rest, size, i - 1);
        if 0 < i < batches_of(all, size).len() - 1 {
            assert(batches_of(all, size)[i] == batches_of(rest, size)[i - 1]);
        }
    }
}

proof fn lemma_zero_before(s: Seq<char>)
    ensures
        digits_value(seq!['0'] + s) == digits_value(s),
    decreases s.len(),
{
    let longer = seq!['0'] + s;
    if s.len() == 0 {
        assert(longer.drop_last() =~= s);
        assert(longer.last() == '0');
    } else {
        assert(longer.drop_last() =~= seq!['0'] + s.drop_last());
        lemma_zero_before(s.drop_last());
    }
}

proof fn lemma_padded(s: Seq<char>, width: nat)
    requires
        all_digits(s),
    ensures
        all_digits(padded(s, width)),
        digits_value(padded(s, width)) == digits_value(s),
        s.len() < width ==> padded(s, width).len() == width,
        s.len() >= width ==> padded(s, width) == s,
    decreases width - s.len(),
{
    if s.len() < width {
        let longer = seq!['0'] + s;
        assert forall|i: int| 0 <= i < longer.len() implies '0' as int <= #[trigger] longer[i] as int <= '9' as int by {
            if i > 0 {
                assert(longer[i] == s[i - 1]);
            }
        }
        lemma_zero_before(s);
        lemma_padded(longer, width);
    }
}

/// The batches of an export are numbered from 1 on. The name of one is its number in
/// digits, at least five of them, between "batch_" and ".csv".
pub proof fn law_batch_names(x: Export, list: Seq<Entry>, size: usize, i: int)
    requires
        is_export(x, list, size),
    ensures
        0 <= i < x.batches@.len() ==> exists|digits: Seq<char>|
            {
                &&& x.batches@[i].name@ == #[trigger] ("batch_"@ + digits + ".csv"@)
                &&& forall|k: int| 0 <= k < digits.len() ==> '0' as int <= #[trigger] digits[k] as int <= '9' as int
                &&& digits_value(digits) == i + 1
                &&& i + 1 < 100_000 ==> digits.len() == 5
                &&& i + 1 >= 100_000 ==> digits == decimal((i + 1) as nat)
            },
{
    if 0 <= i < x.batches@.len() {
        let n = (i + 1) as nat;
        assert(x.batches@[i].name@ == batch_name(n));
        crate::text::lemma_decimal_digits(n);
        crate::laws::words::lemma_decimal_value(n);
        crate::laws::words::lemma_decimal_length(n);
        lemma_padded(decimal(n), 5);
    }
}

} // verus!
