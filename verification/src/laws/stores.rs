//! The stores: what is read of their lines, what the records hold, and what stays in the
//! queue.

use vstd::prelude::*;
use vstd::utf8::{decode_utf8, valid_utf8};
use crate::codec::{json_text, parsed};
use crate::failures::{by_token, is_queue, is_rewrite, newest, owed, queue_after, queue_input};
use crate::fetch::{dead_prefix, stores};
use crate::json::{member, number_from, within, Json, JsonView};
use crate::keymap::{has_key, lemma_put, lookup, put};
use crate::observe::{capped, firsts, panel, record4, sighting};
use crate::records::{failure_entry, queue_text, raw_entry, record3, speaks_of};
use crate::store::{
    blames, complaint, contents, corrupt, missing, readable, records, token_of, tokens_of, unusable, wanted,
    wanted_tokens, BadLine, Keep,
};
use crate::text::{has_prefix, precedes, trimmed};

verus! {

/// A store is read line by line: a blank line gives nothing, JSON gives its value, and
/// what is neither gives nothing and makes the store unreadable.
pub proof fn law_lines_are_read(lines: Seq<Seq<char>>, line: Seq<char>)
    ensures
        records(Seq::empty()).len() == 0,
        trimmed(line).len() == 0 ==> records(lines.push(line)) == records(lines),
        trimmed(line).len() > 0 ==> records(lines.push(line)) == match parsed(line) {
            Ok(v) => records(lines).push(v),
            Err(_) => records(lines),
        },
        readable(Seq::empty()),
        readable(lines.push(line)) <==> readable(lines) && (trimmed(line).len() == 0 || parsed(line) is Ok),
{
    assert(lines.push(line).drop_last() =~= lines);
    assert(lines.push(line).last() == line);
    let more = lines.push(line);
    if readable(more) {
        assert(!corrupt(more[lines.len() as int]));
        assert forall|i: int| 0 <= i < lines.len() implies !corrupt(#[trigger] lines[i]) by {
            assert(more[i] == lines[i]);
        }
    }
    if readable(lines) && !corrupt(line) {
        assert forall|i: int| 0 <= i < more.len() implies !corrupt(#[trigger] more[i]) by {
            if i < lines.len() {
                assert(more[i] == lines[i]);
            }
        }
    }
}

/// The line that a store is refused for is not blank and no JSON, and every line before
/// it is blank or JSON.
pub proof fn law_bad_line(e: BadLine, lines: Seq<Seq<char>>, i: int)
    requires
        blames(e, lines),
    ensures
        e.at < lines.len(),
        trimmed(lines[e.at as int]).len() > 0,
        parsed(lines[e.at as int]) == Err::<JsonView, Seq<char>>(e.message@),
        0 <= i < e.at ==> trimmed(lines[i]).len() == 0 || parsed(lines[i]) is Ok,
{
    if 0 <= i < e.at {
        assert(!corrupt(lines[i]));
    }
}

/// The token of a record is its text under "token". Records without one add nothing.
pub proof fn law_tokens_of_records(list: Seq<JsonView>, v: JsonView, token: Seq<char>)
    ensures
        token_of(v) == Some(token) <==> member(v, "token"@) == Some(JsonView::Text(token)),
        tokens_of(Seq::empty()).len() == 0,
        member(v, "token"@) == Some(JsonView::Text(token)) ==> tokens_of(list.push(v)) == tokens_of(list).push(token),
        !(member(v, "token"@) matches Some(JsonView::Text(_))) ==> tokens_of(list.push(v)) == tokens_of(list),
{
    assert(list.push(v).drop_last() =~= list);
    assert(list.push(v).last() == v);
}

/// Of a list of tokens those stay, in their order, that are not there.
pub proof fn law_missing(a: Seq<Seq<char>>, b: Seq<Seq<char>>, token: Seq<char>, have: Set<Seq<char>>)
    ensures
        missing(a + b, have) == missing(a, have) + missing(b, have),
        have.contains(token) ==> missing(seq![token], have).len() == 0,
        !have.contains(token) ==> missing(seq![token], have) == seq![token],
{
    let keep = |t: Seq<char>| !have.contains(t);
    Seq::filter_distributes_over_add(a, b, keep);
    let none = Seq::<Seq<char>>::empty();
    crate::seqs::lemma_filter_push(none, keep, token);
    assert(none.push(token) =~= seq![token]);
    assert(none.filter(keep) =~= none) by {
        reveal(Seq::filter);
    }
}

/// Every record is asked for, or those whose status is "removed".
pub proof fn law_wanted(v: JsonView)
    ensures
        wanted(Keep::Every, v),
        wanted(Keep::Removed, v) <==> member(v, "status"@) == Some(JsonView::Text("removed"@)),
{
}

/// The tokens that are asked for, line by line: one where the line is JSON with a token
/// and is asked for, none otherwise.
pub proof fn law_wanted_tokens(keep: Keep, lines: Seq<Seq<char>>, line: Seq<char>, token: Seq<char>)
    ensures
        wanted_tokens(keep, Seq::empty()).len() == 0,
        ({
            let read = parsed(line);
            let asked = keep == Keep::Every || (read matches Ok(v) && member(v, "status"@) == Some(
                JsonView::Text("removed"@),
            ));
            &&& trimmed(line).len() == 0 || read is Err || !asked || !(read matches Ok(v) && (member(v, "token"@) matches Some(
                JsonView::Text(_),
            ))) ==> wanted_tokens(keep, lines.push(line)) == wanted_tokens(keep, lines)
            &&& trimmed(line).len() > 0 && asked && (read matches Ok(v) && member(v, "token"@) == Some(
                JsonView::Text(token),
            )) ==> wanted_tokens(keep, lines.push(line)) == wanted_tokens(keep, lines).push(token)
        }),
{
    let f = |v: JsonView| wanted(keep, v);
    law_lines_are_read(lines, line);
    assert(wanted_tokens(keep, Seq::empty()).len() == 0) by {
        reveal(Seq::filter);
        assert(records(Seq::<Seq<char>>::empty()).filter(f) =~= Seq::empty());
    }
    match parsed(line) {
        Ok(v) => {
            crate::seqs::lemma_filter_push(records(lines), f, v);
            let kept = records(lines).filter(f);
            law_tokens_of_records(kept, v, token);
        },
        Err(_) => {},
    }
}

/// Bytes are read as UTF-8. A line that is none is passed over among texts, and cannot
/// be used; nor can one that is neither blank nor JSON.
pub proof fn law_bytes_are_read(lines: Seq<Seq<u8>>, line: Seq<u8>)
    ensures
        contents(Seq::empty()).len() == 0,
        valid_utf8(line) ==> contents(lines.push(line)) == contents(lines).push(decode_utf8(line)),
        !valid_utf8(line) ==> contents(lines.push(line)) == contents(lines),
        unusable(line) <==> !valid_utf8(line) || (trimmed(decode_utf8(line)).len() > 0 && parsed(decode_utf8(line)) is Err),
        !valid_utf8(line) ==> complaint(line) == "stream did not contain valid UTF-8"@,
        valid_utf8(line) && parsed(decode_utf8(line)) is Err ==> parsed(decode_utf8(line)) == Err::<
            JsonView,
            Seq<char>,
        >(complaint(line)),
{
    assert(lines.push(line).drop_last() =~= lines);
    assert(lines.push(line).last() == line);
}

/// The last record of a token is the newest, wherever it stands.
pub proof fn law_newest(list: Seq<JsonView>, token: Seq<char>, i: int)
    ensures
        0 <= i < list.len() && member(list[i], "token"@) == Some(JsonView::Text(token)) && (forall|j: int|
            i < j < list.len() ==> member(#[trigger] list[j], "token"@) != Some(JsonView::Text(token))) ==> newest(
            list,
            token,
        ) == Some(list[i]),
        (forall|j: int| 0 <= j < list.len() ==> member(#[trigger] list[j], "token"@) != Some(JsonView::Text(token)))
            ==> newest(list, token) is None,
    decreases list.len(),
{
    if list.len() > 0 {
        let front = list.drop_last();
        let n = list.len() - 1;
        law_newest(front, token, i);
        assert(list[n] == list.last());
        if 0 <= i < n && (forall|j: int|
            i < j < list.len() ==> member(#[trigger] list[j], "token"@) != Some(JsonView::Text(token))) {
            assert(front[i] == list[i]);
            assert forall|j: int| i < j < front.len() implies member(#[trigger] front[j], "token"@) != Some(
                JsonView::Text(token),
            ) by {
                assert(front[j] == list[j]);
            }
        }
        if forall|j: int| 0 <= j < list.len() ==> member(#[trigger] list[j], "token"@) != Some(JsonView::Text(token)) {
            assert forall|j: int| 0 <= j < front.len() implies member(#[trigger] front[j], "token"@) != Some(
                JsonView::Text(token),
            ) by {
                assert(front[j] == list[j]);
            }
        }
    }
}

/// The record at `i` is the last of its token among `list`.
pub open spec fn last_of(list: Seq<JsonView>, token: Seq<char>, i: int) -> bool {
    &&& 0 <= i < list.len()
    &&& member(list[i], "token"@) == Some(JsonView::Text(token))
    &&& forall|j: int| i < j < list.len() ==> member(#[trigger] list[j], "token"@) != Some(JsonView::Text(token))
}

/// No record among `list` is of the token.
pub open spec fn none_of(list: Seq<JsonView>, token: Seq<char>) -> bool {
    forall|j: int| 0 <= j < list.len() ==> member(#[trigger] list[j], "token"@) != Some(JsonView::Text(token))
}

/// What stays in the queue after a run. A listing that is there leaves the queue. Of any
/// other its last failure in this run stays, or where there is none, its last failure
/// before, unless the run was a retry. Nothing else is in the queue, and its records
/// stand in ascending order of their tokens.
pub proof fn law_queue(
    queue: Seq<JsonView>,
    previous: Seq<JsonView>,
    failing: Seq<JsonView>,
    retry: bool,
    have: Set<Seq<char>>,
    token: Seq<char>,
    i: int,
)
    requires
        is_queue(queue, queue_input(previous, failing, retry), have),
    ensures
        have.contains(token) ==> none_of(queue, token),
        !have.contains(token) && last_of(failing, token, i) ==> queue.contains(failing[i]),
        !have.contains(token) && none_of(failing, token) && !retry && last_of(previous, token, i) ==> queue.contains(
            previous[i],
        ),
        none_of(failing, token) && (retry || none_of(previous, token)) ==> none_of(queue, token),
        forall|x: int, y: int|
            0 <= x < y < queue.len() ==> precedes(
                token_of(#[trigger] queue[x])->0,
                token_of(#[trigger] queue[y])->0,
            ),
        forall|x: int| 0 <= x < queue.len() ==> member(#[trigger] queue[x], "token"@) matches Some(JsonView::Text(_)),
{
    let list = queue_input(previous, failing, retry);
    let pairs = by_token(queue);
    assert(lookup(pairs, token) == owed(list, have, token));
    let at = if last_of(failing, token, i) {
        if retry {
            i
        } else {
            previous.len() + i
        }
    } else {
        i
    };
    law_newest(list, token, at);
    if !retry {
        assert forall|j: int| 0 <= j < list.len() implies list[j] == if j < previous.len() {
            previous[j]
        } else {
            failing[j - previous.len()]
        } by {}
    }
    if lookup(pairs, token) is None {
        assert forall|j: int| 0 <= j < queue.len() implies member(#[trigger] queue[j], "token"@) != Some(
            JsonView::Text(token),
        ) by {
            if member(queue[j], "token"@) == Some(JsonView::Text(token)) {
                assert(pairs[j].0 == token);
                assert(has_key(pairs, token));
            }
        }
    } else {
        let k = choose|k: int| 0 <= k < pairs.len() && (#[trigger] pairs[k]).0 == token;
        assert(queue[k] == pairs[k].1);
    }
    if !have.contains(token) && last_of(failing, token, i) {
        assert(list[at] == failing[i]);
        assert forall|j: int| at < j < list.len() implies member(#[trigger] list[j], "token"@) != Some(
            JsonView::Text(token),
        ) by {
            if !retry {
                assert(list[j] == failing[j - previous.len()]);
            }
        }
    } else if !have.contains(token) && none_of(failing, token) && !retry && last_of(previous, token, i) {
        assert(list[i] == previous[i]);
        assert forall|j: int| i < j < list.len() implies member(#[trigger] list[j], "token"@) != Some(
            JsonView::Text(token),
        ) by {
            if j >= previous.len() {
                assert(list[j] == failing[j - previous.len()]);
            }
        }
    }
    if none_of(failing, token) && (retry || none_of(previous, token)) {
        assert forall|j: int| 0 <= j < list.len() implies member(#[trigger] list[j], "token"@) != Some(
            JsonView::Text(token),
        ) by {
            if !retry && j >= previous.len() {
                assert(list[j] == failing[j - previous.len()]);
            }
        }
    }
    assert forall|x: int, y: int| 0 <= x < y < queue.len() implies precedes(
        token_of(#[trigger] queue[x])->0,
        token_of(#[trigger] queue[y])->0,
    ) by {
        assert(precedes(pairs[x].0, pairs[y].0));
    }
    assert forall|x: int| 0 <= x < queue.len() implies member(#[trigger] queue[x], "token"@) matches Some(
        JsonView::Text(_),
    ) by {
        assert(token_of(queue[x]) is Some);
    }
}

/// The line is the text of a record that is not of the token.
pub open spec fn is_about_another(line: Seq<char>, token: Seq<char>) -> bool {
    exists|v: JsonView| line == #[trigger] json_text(v) && member(v, "token"@) != Some(JsonView::Text(token))
}

/// The failure store after a run, line by line: the lines are the texts of what stays in
/// the queue, given what the raw store holds and what of the failure store can be read.
pub proof fn law_rewritten_queue(
    lines: Seq<Seq<char>>,
    raw_lines: Seq<Seq<char>>,
    failure_lines: Seq<Seq<char>>,
    failing: Seq<JsonView>,
    retry: bool,
    token: Seq<char>,
    i: int,
)
    requires
        is_rewrite(lines, raw_lines, failure_lines, failing, retry),
    ensures
        ({
            let there = tokens_of(records(raw_lines)).contains(token);
            let before = records(failure_lines);
            &&& !there && last_of(failing, token, i) ==> lines.contains(json_text(failing[i]))
            &&& !there && none_of(failing, token) && !retry && last_of(before, token, i) ==> lines.contains(
                json_text(before[i]),
            )
            &&& there || (none_of(failing, token) && (retry || none_of(before, token))) ==> forall|k: int|
                0 <= k < lines.len() ==> is_about_another(#[trigger] lines[k], token)
        }),
{
    let queue = choose|queue: Seq<JsonView>| queue_after(lines, queue, raw_lines, failure_lines, failing, retry);
    let have = tokens_of(records(raw_lines)).to_set();
    let before = records(failure_lines);
    law_queue(queue, before, failing, retry, have, token, i);
    assert(have.contains(token) <==> tokens_of(records(raw_lines)).contains(token));
    assert(lines.len() == queue.len());
    assert forall|k: int| 0 <= k < queue.len() implies #[trigger] lines[k] == json_text(queue[k]) by {}
    if !have.contains(token) && last_of(failing, token, i) {
        let k = choose|k: int| 0 <= k < queue.len() && queue[k] == failing[i];
        assert(lines[k] == json_text(failing[i]));
    }
    if !have.contains(token) && none_of(failing, token) && !retry && last_of(before, token, i) {
        let k = choose|k: int| 0 <= k < queue.len() && queue[k] == before[i];
        assert(lines[k] == json_text(before[i]));
    }
    if have.contains(token) || (none_of(failing, token) && (retry || none_of(before, token))) {
        assert forall|k: int| 0 <= k < lines.len() implies is_about_another(#[trigger] lines[k], token) by {
            assert(lines[k] == json_text(queue[k]));
            assert(member(queue[k], "token"@) != Some(JsonView::Text(token)));
        }
    }
}

/// Three members under different keys, and nothing under any other.
proof fn lemma_three(a: (Seq<char>, JsonView), b: (Seq<char>, JsonView), c: (Seq<char>, JsonView), key: Seq<char>)
    requires
        key != a.0,
        key != b.0,
        key != c.0,
    ensures
        member(record3(a, b, c), key) is None,
{
    let none = Seq::<(Seq<char>, JsonView)>::empty();
    let one = put(none, a.0, a.1);
    let two = put(one, b.0, b.1);
    lemma_put(none, a.0, a.1);
    lemma_put(one, b.0, b.1);
    lemma_put(two, c.0, c.1);
    assert(lookup(none, key) is None);
    assert(lookup(one, key) == lookup(none, key));
    assert(lookup(two, key) == lookup(one, key));
}

/// The line of a fetched listing is the text of an object with three members: the token,
/// when it was fetched, and the payload.
pub proof fn law_stored_listing(line: Seq<char>, token: Seq<char>, at: u64, detail: JsonView, key: Seq<char>)
    requires
        stores(line, token, at, detail),
    ensures
        exists|v: JsonView| #![trigger json_text(v)]
            {
                &&& line == json_text(v)
                &&& member(v, "token"@) == Some(JsonView::Text(token))
                &&& member(v, "fetched_at"@) == Some(JsonView::Num(number_from(at)))
                &&& member(v, "detail"@) == Some(detail)
                &&& key != "token"@ && key != "fetched_at"@ && key != "detail"@ ==> member(v, key) is None
            },
        trimmed(line).len() > 0,
        forall|i: int| 0 <= i < line.len() ==> #[trigger] line[i] != '\n' && line[i] != '\r',
{
    let v = raw_entry(token, at, detail);
    crate::records::lemma_entries(token, at, detail, Seq::empty());
    if key != "token"@ && key != "fetched_at"@ && key != "detail"@ {
        lemma_three(
            ("token"@, JsonView::Text(token)),
            ("fetched_at"@, JsonView::Num(number_from(at))),
            ("detail"@, detail),
            key,
        );
    }
    assert(line == json_text(v));
    assert(token_of(v) == Some(token));
}

/// The record of a failure has three members: the token, the error and when it was.
pub proof fn law_failure_record(token: Seq<char>, error: Seq<char>, at: u64, key: Seq<char>)
    ensures
        member(failure_entry(token, error, at), "token"@) == Some(JsonView::Text(token)),
        member(failure_entry(token, error, at), "error"@) == Some(JsonView::Text(error)),
        member(failure_entry(token, error, at), "at"@) == Some(JsonView::Num(number_from(at))),
        key != "token"@ && key != "error"@ && key != "at"@ ==> member(failure_entry(token, error, at), key) is None,
{
    crate::records::lemma_entries(token, at, JsonView::Null, error);
    assert(token_of(failure_entry(token, error, at)) == Some(token));
    if key != "token"@ && key != "error"@ && key != "at"@ {
        lemma_three(
            ("token"@, JsonView::Text(token)),
            ("error"@, JsonView::Text(error)),
            ("at"@, JsonView::Num(number_from(at))),
            key,
        );
    }
}

/// A line speaks of a token where it is one line, not blank, and what is read of it, if
/// anything is, has the token. The lines of a queue are the texts of its records.
pub proof fn law_lines_of_records(line: Seq<char>, token: Seq<char>, queue: Seq<JsonView>, i: int)
    ensures
        speaks_of(line, token) ==> {
            &&& trimmed(line).len() > 0
            &&& forall|k: int| 0 <= k < line.len() ==> #[trigger] line[k] != '\n' && line[k] != '\r'
            &&& parsed(line) matches Ok(v) ==> member(v, "token"@) == Some(JsonView::Text(token))
        },
        queue_text(queue).len() == queue.len(),
        0 <= i < queue.len() ==> queue_text(queue)[i] == json_text(queue[i]),
{
    if speaks_of(line, token) && parsed(line) is Ok {
        law_tokens_of_records(Seq::empty(), parsed(line)->Ok_0, token);
    }
}

proof fn lemma_four(
    a: (Seq<char>, JsonView),
    b: (Seq<char>, JsonView),
    c: (Seq<char>, JsonView),
    d: (Seq<char>, JsonView),
    key: Seq<char>,
)
    requires
        key != a.0,
        key != b.0,
        key != c.0,
        key != d.0,
    ensures
        member(record4(a, b, c, d), key) is None,
{
    let none = Seq::<(Seq<char>, JsonView)>::empty();
    let one = put(none, a.0, a.1);
    let two = put(one, b.0, b.1);
    let three = put(two, c.0, c.1);
    lemma_put(none, a.0, a.1);
    lemma_put(one, b.0, b.1);
    lemma_put(two, c.0, c.1);
    lemma_put(three, d.0, d.1);
    assert(lookup(none, key) is None);
    assert(lookup(one, key) == lookup(none, key));
    assert(lookup(two, key) == lookup(one, key));
    assert(lookup(three, key) == lookup(two, key));
}

/// A visit that found the listing leaves a record "live" with the price that the payload
/// gives, or null. One whose failure starts with "post removed" leaves a record
/// "removed" with the words of the failure. Any other failure leaves none.
pub proof fn law_visits(token: Seq<char>, result: Result<Json, String>, at: u64, key: Seq<char>)
    ensures
        (result matches Err(m) && !has_prefix(m@, "post removed"@)) <==> sighting(token, result, at) is None,
        sighting(token, result, at) matches Some(v) ==> {
            &&& member(v, "token"@) == Some(JsonView::Text(token))
            &&& member(v, "observed_at"@) == Some(JsonView::Num(number_from(at)))
        },
        (result matches Ok(detail) && (sighting(token, result, at) matches Some(v) && {
            &&& member(v, "status"@) == Some(JsonView::Text("live"@))
            &&& member(v, "price"@) == match within(member(detail@, "webengage"@), "price"@) {
                Some(price) => Some(price),
                None => Some(JsonView::Null),
            }
            &&& key != "token"@ && key != "observed_at"@ && key != "status"@ && key != "price"@ ==> member(v, key) is None
        })) || (result matches Err(m) && (sighting(token, result, at) matches Some(v) ==> {
            &&& member(v, "status"@) == Some(JsonView::Text("removed"@))
            &&& member(v, "reason"@) == Some(JsonView::Text(m@))
            &&& key != "token"@ && key != "observed_at"@ && key != "status"@ && key != "reason"@ ==> member(v, key) is None
        })),
{
    crate::observe::law_observation(token, result, at);
    assert(dead_prefix() == "post removed"@);
    let when = JsonView::Num(number_from(at));
    match result {
        Ok(detail) => {
            if key != "token"@ && key != "observed_at"@ && key != "status"@ && key != "price"@ {
                lemma_four(
                    ("token"@, JsonView::Text(token)),
                    ("observed_at"@, when),
                    ("status"@, JsonView::Text("live"@)),
                    ("price"@, crate::observe::price_of(detail@)),
                    key,
                );
            }
        },
        Err(m) => {
            if key != "token"@ && key != "observed_at"@ && key != "status"@ && key != "reason"@ {
                lemma_four(
                    ("token"@, JsonView::Text(token)),
                    ("observed_at"@, when),
                    ("status"@, JsonView::Text("removed"@)),
                    ("reason"@, JsonView::Text(m@)),
                    key,
                );
            }
        },
    }
}

/// Listings are visited in the order in which they are stored, each where it stands
/// first, without the removed ones; of these the first `max`, or all where `max` is 0.
pub proof fn law_visited_listings(list: Seq<Seq<char>>, token: Seq<char>, removed: Set<Seq<char>>, max: nat)
    ensures
        panel(Seq::empty(), removed, 0).len() == 0,
        list.contains(token) || removed.contains(token) ==> panel(list.push(token), removed, 0) == panel(list, removed, 0),
        !list.contains(token) && !removed.contains(token) ==> panel(list.push(token), removed, 0) == panel(
            list,
            removed,
            0,
        ).push(token),
        0 < max < panel(list, removed, 0).len() ==> panel(list, removed, max) == panel(list, removed, 0).take(max as int),
        max >= panel(list, removed, 0).len() ==> panel(list, removed, max) == panel(list, removed, 0),
{
    let keep = |t: Seq<char>| !removed.contains(t);
    assert(list.push(token).drop_last() =~= list);
    assert(list.push(token).last() == token);
    lemma_firsts_hold(list, token);
    crate::seqs::lemma_filter_push(firsts(list), keep, token);
    assert(capped(firsts(list).filter(keep), 0) == firsts(list).filter(keep));
    assert(firsts(Seq::empty()).filter(keep).len() == 0) by {
        reveal(Seq::filter);
    }
}

proof fn lemma_firsts_hold(list: Seq<Seq<char>>, token: Seq<char>)
    ensures
        firsts(list).contains(token) <==> list.contains(token),
    decreases list.len(),
{
    if list.len() > 0 {
        let front = list.drop_last();
        let less = firsts(front);
        lemma_firsts_hold(front, token);
        if list.contains(token) {
            let i = choose|i: int| 0 <= i < list.len() && list[i] == token;
            if i < front.len() {
                assert(front[i] == token);
            } else if !less.contains(token) {
                assert(firsts(list)[less.len() as int] == token);
            }
        }
        if less.contains(token) {
            let i = choose|i: int| 0 <= i < less.len() && less[i] == token;
            assert(firsts(list)[i] == token);
            let k = choose|k: int| 0 <= k < front.len() && front[k] == token;
            assert(list[k] == token);
        } else if firsts(list).contains(token) {
            let i = choose|i: int| 0 <= i < firsts(list).len() && firsts(list)[i] == token;
            if i < less.len() {
                assert(less[i] == token);
            }
            assert(list[list.len() - 1] == token);
        }
    }
}

} // verus!
