//! The records that the stores hold, and their lines.

use vstd::prelude::*;
use crate::codec::{alike, fits, json_text, lemma_fits_alike, parsed, reads_as, render};
use crate::json::{
    count_value, lemma_dict_tree, member, number_from, set_member, shown, text_value, trees, Json, JsonView,
};
use crate::keymap::{ascending, has_key, lemma_lookup, lemma_put, lookup, put, KeyMap};
use crate::store::{blank, corrupt, readable, records, token_of, tokens_of};
use crate::text::{ends_cleanly, file_lines, lemma_line_added, one_line, texts};

verus! {

/// An object with three members.
pub open spec fn record3(
    a: (Seq<char>, JsonView),
    b: (Seq<char>, JsonView),
    c: (Seq<char>, JsonView),
) -> JsonView {
    let none = Seq::<(Seq<char>, JsonView)>::empty();
    JsonView::Dict(put(put(put(none, a.0, a.1), b.0, b.1), c.0, c.1))
}

/// The record of a fetched listing.
pub open spec fn raw_entry(token: Seq<char>, fetched_at: u64, detail: JsonView) -> JsonView {
    record3(
        ("token"@, JsonView::Text(token)),
        ("fetched_at"@, JsonView::Num(number_from(fetched_at))),
        ("detail"@, detail),
    )
}

/// The record of a listing that could not be fetched.
pub open spec fn failure_entry(token: Seq<char>, error: Seq<char>, at: u64) -> JsonView {
    record3(
        ("token"@, JsonView::Text(token)),
        ("error"@, JsonView::Text(error)),
        ("at"@, JsonView::Num(number_from(at))),
    )
}

fn make_record3(a: &str, av: Json, b: &str, bv: Json, c: &str, cv: Json) -> (r: Json)
    ensures
        r@ == record3((a@, av@), (b@, bv@), (c@, cv@)),
        r@ is Dict && ascending(r@->Dict_0),
{
    let mut m: KeyMap<Json> = KeyMap::new();
    proof {
        lemma_dict_tree(m);
        assert(shown(m) =~= Seq::empty());
    }
    set_member(&mut m, a, av);
    set_member(&mut m, b, bv);
    set_member(&mut m, c, cv);
    proof {
        use_type_invariant(&m);
        lemma_dict_tree(m);
    }
    Json::Dict(m)
}

/// Three members under different keys are all there.
pub proof fn lemma_record3(a: (Seq<char>, JsonView), b: (Seq<char>, JsonView), c: (Seq<char>, JsonView))
    requires
        a.0 != b.0,
        a.0 != c.0,
        b.0 != c.0,
    ensures
        ascending(record3(a, b, c)->Dict_0),
        member(record3(a, b, c), a.0) == Some(a.1),
        member(record3(a, b, c), b.0) == Some(b.1),
        member(record3(a, b, c), c.0) == Some(c.1),
{
    let none = Seq::<(Seq<char>, JsonView)>::empty();
    let one = put(none, a.0, a.1);
    let two = put(one, b.0, b.1);
    let all = put(two, c.0, c.1);
    lemma_put(none, a.0, a.1);
    lemma_put(one, b.0, b.1);
    lemma_put(two, c.0, c.1);
    assert(lookup(two, a.0) == lookup(one, a.0));
    assert(lookup(all, a.0) == lookup(two, a.0));
    assert(lookup(all, b.0) == lookup(two, b.0));
}

/// Three members that fit make a record that fits.
pub proof fn lemma_record3_fits(
    a: (Seq<char>, JsonView),
    b: (Seq<char>, JsonView),
    c: (Seq<char>, JsonView),
    depth: nat,
)
    requires
        fits(a.1, depth),
        fits(b.1, depth),
        fits(c.1, depth),
    ensures
        fits(record3(a, b, c), depth + 1),
{
    let none = Seq::<(Seq<char>, JsonView)>::empty();
    let one = put(none, a.0, a.1);
    let two = put(one, b.0, b.1);
    let all = put(two, c.0, c.1);
    lemma_put(none, a.0, a.1);
    lemma_put(one, b.0, b.1);
    crate::keymap::lemma_put_pairs(none, a.0, a.1);
    crate::keymap::lemma_put_pairs(one, b.0, b.1);
    crate::keymap::lemma_put_pairs(two, c.0, c.1);
    assert forall|i: int| 0 <= i < all.len() implies fits((#[trigger] all[i]).1, depth) by {
        if all[i] != c {
            let j = choose|j: int| 0 <= j < two.len() && two[j] == all[i];
            assert(two[j] == all[i]);
            if two[j] != b {
                let k = choose|k: int| 0 <= k < one.len() && one[k] == two[j];
                assert(one[k] == two[j]);
                assert(one[k] == a);
            }
        }
    }
}

/// The record of a fetched listing.
pub fn raw_record(token: &str, fetched_at: u64, detail: Json) -> (r: Json)
    ensures
        r@ == raw_entry(token@, fetched_at, detail@),
        fits(detail@, 126) ==> fits(r@, 127),
{
    let at = count_value(fetched_at);
    proof {
        if fits(detail@, 126) {
            lemma_record3_fits(
                ("token"@, JsonView::Text(token@)),
                ("fetched_at"@, at@),
                ("detail"@, detail@),
                126,
            );
        }
    }
    make_record3(
        "token",
        text_value(token),
        "fetched_at",
        at,
        "detail",
        detail,
    )
}

/// The record of a listing that could not be fetched.
pub fn failure_record(token: &str, error: &str, at: u64) -> (r: Json)
    ensures
        r@ == failure_entry(token@, error@, at),
        fits(r@, 127),
{
    let when = count_value(at);
    proof {
        lemma_record3_fits(
            ("token"@, JsonView::Text(token@)),
            ("error"@, JsonView::Text(error@)),
            ("at"@, when@),
            126,
        );
    }
    make_record3("token", text_value(token), "error", text_value(error), "at", when)
}

/// What the records of a listing hold under their keys.
pub proof fn lemma_entries(token: Seq<char>, at: u64, detail: JsonView, error: Seq<char>)
    ensures
        token_of(raw_entry(token, at, detail)) == Some(token),
        member(raw_entry(token, at, detail), "fetched_at"@) == Some(JsonView::Num(number_from(at))),
        member(raw_entry(token, at, detail), "detail"@) == Some(detail),
        ascending(raw_entry(token, at, detail)->Dict_0),
        token_of(failure_entry(token, error, at)) == Some(token),
        member(failure_entry(token, error, at), "error"@) == Some(JsonView::Text(error)),
        member(failure_entry(token, error, at), "at"@) == Some(JsonView::Num(number_from(at))),
        ascending(failure_entry(token, error, at)->Dict_0),
{
    reveal_strlit("token");
    reveal_strlit("fetched_at");
    reveal_strlit("detail");
    reveal_strlit("error");
    reveal_strlit("at");
    assert("token"@[0] == 't' && "error"@[0] == 'e');
    lemma_record3(
        ("token"@, JsonView::Text(token)),
        ("fetched_at"@, JsonView::Num(number_from(at))),
        ("detail"@, detail),
    );
    lemma_record3(
        ("token"@, JsonView::Text(token)),
        ("error"@, JsonView::Text(error)),
        ("at"@, JsonView::Num(number_from(at))),
    );
}

/// A line that stands for a record of `token`: it is one line and not blank, and what
/// is read of it has that token.
pub open spec fn speaks_of(line: Seq<char>, token: Seq<char>) -> bool {
    &&& one_line(line)
    &&& !blank(line)
    &&& parsed(line) matches Ok(v) ==> token_of(v) == Some(token)
}

/// A member of a value is alike in an alike value.
pub proof fn lemma_alike_member(a: JsonView, b: JsonView, key: Seq<char>)
    requires
        alike(a, b),
        a is Dict,
        ascending(a->Dict_0),
    ensures
        member(a, key) is Some <==> member(b, key) is Some,
        member(a, key) matches Some(v) ==> alike(v, member(b, key)->0),
{
    let x = a->Dict_0;
    let y = b->Dict_0;
    assert(ascending(y)) by {
        assert forall|i: int, j: int| 0 <= i < j < y.len() implies crate::text::precedes(
            (#[trigger] y[i]).0,
            (#[trigger] y[j]).0,
        ) by {
            assert(x[i].0 == y[i].0 && x[j].0 == y[j].0);
        }
    }
    if has_key(x, key) {
        let i = choose|i: int| 0 <= i < x.len() && (#[trigger] x[i]).0 == key;
        assert(x[i].0 == y[i].0);
        lemma_lookup(x, i);
        lemma_lookup(y, i);
    } else if has_key(y, key) {
        let i = choose|i: int| 0 <= i < y.len() && (#[trigger] y[i]).0 == key;
        assert(x[i].0 == y[i].0);
    }
}

/// The line of a record of `token`.
pub(crate) fn line_of(v: &Json, Ghost(token): Ghost<Seq<char>>) -> (r: String)
    requires
        token_of(v@) == Some(token),
    ensures
        r@ == json_text(v@),
        speaks_of(r@, token),
        fits(v@, 127) ==> reads_as(r@, v@),
        parsed(r@) matches Ok(w) ==> alike(v@, w),
{
    let r = render(v);
    match v {
        Json::Dict(m) => {
            proof {
                use_type_invariant(m);
                lemma_dict_tree(*m);
            }
        },
        _ => {},
    }
    proof {
        if parsed(r@) is Ok {
            let w = parsed(r@)->Ok_0;
            lemma_alike_member(v@, w, "token"@);
        }
    }
    r
}

/// The line of a fetched listing. What is read of it is the same record, but that
/// numbers with a fraction may differ in their last digits.
pub fn raw_line(token: &str, fetched_at: u64, detail: Json) -> (r: String)
    ensures
        r@ == json_text(raw_entry(token@, fetched_at, detail@)),
        speaks_of(r@, token@),
        fits(detail@, 126) ==> reads_as(r@, raw_entry(token@, fetched_at, detail@)),
        parsed(r@) matches Ok(w) ==> alike(raw_entry(token@, fetched_at, detail@), w),
{
    let ghost d = detail@;
    let v = raw_record(token, fetched_at, detail);
    proof {
        lemma_entries(token@, fetched_at, d, Seq::empty());
    }
    line_of(&v, Ghost(token@))
}

/// The lines of a queue: the text of each record, in their order.
pub open spec fn queue_text(queue: Seq<JsonView>) -> Seq<Seq<char>> {
    queue.map_values(|v: JsonView| json_text(v))
}

/// The lines of a queue.
pub fn queue_lines(queue: &Vec<Json>) -> (r: Vec<String>)
    requires
        forall|i: int| 0 <= i < queue@.len() ==> token_of((#[trigger] queue@[i])@) is Some,
    ensures
        texts(r@) == queue_text(trees(queue@)),
        forall|i: int|
            0 <= i < queue@.len() ==> speaks_of(#[trigger] texts(r@)[i], token_of(trees(queue@)[i])->0),
        forall|i: int|
            0 <= i < queue@.len() && fits(trees(queue@)[i], 127) ==> reads_as(
                #[trigger] texts(r@)[i],
                trees(queue@)[i],
            ),
{
    let mut out: Vec<String> = Vec::new();
    for i in 0..queue.len()
        invariant
            forall|j: int| 0 <= j < queue@.len() ==> token_of((#[trigger] queue@[j])@) is Some,
            out@.len() == i,
            forall|j: int|
                0 <= j < i ==> {
                    &&& (#[trigger] out@[j])@ == json_text(queue@[j]@)
                    &&& speaks_of(out@[j]@, token_of(queue@[j]@)->0)
                    &&& fits(queue@[j]@, 127) ==> reads_as(out@[j]@, queue@[j]@)
                },
    {
        let line = line_of(&queue[i], Ghost(token_of(queue@[i as int]@)->0));
        out.push(line);
    }
    proof {
        assert forall|j: int| 0 <= j < queue@.len() implies #[trigger] texts(out@)[j] == out@[j]@ && trees(queue@)[j]
            == queue@[j]@ by {}
        assert(texts(out@) =~= queue_text(trees(queue@)));
    }
    out
}

/// What stands in a store is found there: in a store that can be read, a line that
/// speaks of a token puts that token among those the store holds.
pub proof fn law_stored_listing_is_found(lines: Seq<Seq<char>>, i: int, token: Seq<char>)
    requires
        readable(lines),
        0 <= i < lines.len(),
        speaks_of(lines[i], token),
    ensures
        tokens_of(records(lines)).contains(token),
    decreases lines.len(),
{
    let front = lines.drop_last();
    assert(readable(front)) by {
        assert forall|j: int| 0 <= j < front.len() implies !corrupt(#[trigger] front[j]) by {
            assert(front[j] == lines[j]);
        }
    }
    assert(!corrupt(lines[i]));
    let last = lines.last();
    let before = records(front);
    assert(!corrupt(lines[lines.len() - 1]));
    if i == lines.len() - 1 {
        let v = parsed(last)->Ok_0;
        assert(records(lines) == before.push(v));
        assert(before.push(v).drop_last() =~= before);
        let found = tokens_of(records(lines));
        assert(found == tokens_of(before).push(token));
        assert(found[found.len() - 1] == token);
    } else {
        assert(front[i] == lines[i]);
        law_stored_listing_is_found(front, i, token);
        let at = choose|at: int| 0 <= at < tokens_of(before).len() && tokens_of(before)[at] == token;
        if !blank(last) {
            let v = parsed(last)->Ok_0;
            assert(records(lines) == before.push(v));
            assert(before.push(v).drop_last() =~= before);
        }
        assert(tokens_of(records(lines))[at] == token);
    }
}

/// What was stored of a listing is what is read: the token, the time, and the payload
/// but for the last digits of numbers with a fraction.
pub proof fn law_payload_is_kept(token: Seq<char>, fetched_at: u64, detail: JsonView, read: JsonView)
    requires
        alike(raw_entry(token, fetched_at, detail), read),
    ensures
        token_of(read) == Some(token),
        member(read, "fetched_at"@) matches Some(n) && alike(JsonView::Num(number_from(fetched_at)), n),
        member(read, "detail"@) matches Some(d) && alike(detail, d),
        fits(detail, 126) ==> member(read, "detail"@) == Some(detail),
{
    lemma_entries(token, fetched_at, detail, Seq::empty());
    lemma_alike_member(raw_entry(token, fetched_at, detail), read, "token"@);
    lemma_alike_member(raw_entry(token, fetched_at, detail), read, "fetched_at"@);
    lemma_alike_member(raw_entry(token, fetched_at, detail), read, "detail"@);
    if fits(detail, 126) {
        lemma_fits_alike(detail, member(read, "detail"@)->0, 126);
    }
}

/// What is appended to a store leaves the records there are as they are.
pub proof fn law_appending_keeps_records(lines: Seq<Seq<char>>, more: Seq<Seq<char>>)
    ensures
        records(lines + more) == records(lines) + records(more),
    decreases more.len(),
{
    if more.len() == 0 {
        assert(lines + more =~= lines);
        assert(records(lines) + records(more) =~= records(lines));
    } else {
        assert((lines + more).drop_last() =~= lines + more.drop_last());
        assert((lines + more).last() == more.last());
        law_appending_keeps_records(lines, more.drop_last());
        assert(records(lines + more) =~= records(lines) + records(more));
    }
}

/// What is appended to a store is read back after what was there: a line that is not
/// blank and is read as `v` adds the record `v` and nothing else.
pub proof fn law_appended_record_is_read(lines: Seq<Seq<char>>, line: Seq<char>, v: JsonView)
    requires
        readable(lines),
        !blank(line),
        reads_as(line, v),
    ensures
        readable(lines.push(line)),
        records(lines.push(line)) == records(lines).push(v),
{
    let more = lines.push(line);
    assert(more.drop_last() =~= lines);
    assert forall|i: int| 0 <= i < more.len() implies !corrupt(#[trigger] more[i]) by {
        if i < lines.len() {
            assert(more[i] == lines[i]);
        }
    }
}

/// The same of the text of a file that ends cleanly: with the line written after it and
/// a line feed, it holds the records it held and then `v`, and again ends cleanly.
pub proof fn law_appended_text_is_read(content: Seq<char>, line: Seq<char>, v: JsonView)
    requires
        ends_cleanly(content),
        readable(file_lines(content)),
        one_line(line),
        !blank(line),
        reads_as(line, v),
    ensures
        ends_cleanly(content + line.push('\n')),
        readable(file_lines(content + line.push('\n'))),
        records(file_lines(content + line.push('\n'))) == records(file_lines(content)).push(v),
{
    lemma_line_added(content, line);
    law_appended_record_is_read(file_lines(content), line, v);
}

/// A store of lines that each speak of a token holds those tokens, in their order.
pub proof fn law_lines_are_read_back(lines: Seq<Seq<char>>, tokens: Seq<Seq<char>>)
    requires
        readable(lines),
        lines.len() == tokens.len(),
        forall|i: int| 0 <= i < lines.len() ==> speaks_of(#[trigger] lines[i], tokens[i]),
    ensures
        tokens_of(records(lines)) == tokens,
    decreases lines.len(),
{
    if lines.len() > 0 {
        let front = lines.drop_last();
        assert forall|j: int| 0 <= j < front.len() implies !corrupt(#[trigger] front[j]) && speaks_of(
            front[j],
            tokens.drop_last()[j],
        ) by {
            assert(front[j] == lines[j]);
            assert(!corrupt(lines[j]));
        }
        law_lines_are_read_back(front, tokens.drop_last());
        let n = lines.len() - 1;
        assert(!corrupt(lines[n]) && speaks_of(lines[n], tokens[n]));
        let v = parsed(lines[n])->Ok_0;
        let before = records(front);
        assert(records(lines) == before.push(v));
        assert(before.push(v).drop_last() =~= before);
        assert(tokens =~= tokens.drop_last().push(tokens[n]));
    } else {
        assert(tokens =~= Seq::empty());
    }
}

} // verus!
