//! The queue of listings that are still to be fetched.

use vstd::prelude::*;
use crate::codec::{fits, parsed, reads_as};
use crate::json::{lemma_dict_tree, set_member, shown, trees, Json, JsonView};
use crate::keymap::{ascending, has_key, lemma_lookup, lemma_same_lookup, lookup, KeyMap};
use crate::records::{queue_lines, queue_text, speaks_of};
use crate::store::{
    blames, blank, corrupt, missing, readable, record_token, records, salvage, token_of, tokens_in, tokens_of,
    BadLine, TokenSet,
};
use crate::text::texts;

verus! {

/// The last record of a token.
pub open spec fn newest(list: Seq<JsonView>, token: Seq<char>) -> Option<JsonView>
    decreases list.len(),
{
    if list.len() == 0 {
        None
    } else if token_of(list.last()) == Some(token) {
        Some(list.last())
    } else {
        newest(list.drop_last(), token)
    }
}

/// What is owed for a token: its last record, unless the listing is there.
pub open spec fn owed(list: Seq<JsonView>, have: Set<Seq<char>>, token: Seq<char>) -> Option<JsonView> {
    if have.contains(token) {
        None
    } else {
        newest(list, token)
    }
}

/// The records of a queue under their tokens.
pub open spec fn by_token(queue: Seq<JsonView>) -> Seq<(Seq<char>, JsonView)> {
    queue.map_values(|v: JsonView| (token_of(v)->0, v))
}

/// The queue holds what is owed of `list`, each token once, in ascending order.
pub open spec fn is_queue(queue: Seq<JsonView>, list: Seq<JsonView>, have: Set<Seq<char>>) -> bool {
    &&& forall|i: int| 0 <= i < queue.len() ==> token_of(#[trigger] queue[i]) is Some
    &&& ascending(by_token(queue))
    &&& forall|token: Seq<char>| #[trigger] lookup(by_token(queue), token) == owed(list, have, token)
}

/// The records that go into the queue: a retry starts from what failed now, another
/// run from what failed before as well.
pub open spec fn queue_input(previous: Seq<JsonView>, failing: Seq<JsonView>, retry: bool) -> Seq<JsonView> {
    if retry {
        failing
    } else {
        previous + failing
    }
}

pub proof fn lemma_newest_token(list: Seq<JsonView>, token: Seq<char>)
    ensures
        newest(list, token) matches Some(v) ==> token_of(v) == Some(token),
    decreases list.len(),
{
    if list.len() > 0 {
        lemma_newest_token(list.drop_last(), token);
    }
}

fn enqueue(map: &mut KeyMap<Json>, v: Json, have: &TokenSet, Ghost(list): Ghost<Seq<JsonView>>)
    requires
        forall|token: Seq<char>| #[trigger] lookup(shown(*old(map)), token) == owed(list, have@, token),
    ensures
        forall|token: Seq<char>|
            #[trigger] lookup(shown(*final(map)), token) == owed(list.push(v@), have@, token),
{
    let ghost now = v@;
    let ghost before = shown(*map);
    proof {
        use_type_invariant(&*map);
        lemma_dict_tree(*map);
        assert(list.push(now).drop_last() =~= list);
        assert(list.push(now).last() == now);
    }
    let token: Option<String> = match record_token(&v) {
        Some(t) => Some(t.to_owned()),
        None => None,
    };
    match token {
        Some(t) => {
            if !have.contains(t.as_str()) {
                proof {
                    crate::keymap::lemma_put(before, t@, now);
                }
                set_member(map, t.as_str(), v);
            }
            proof {
                assert forall|token: Seq<char>| #[trigger] lookup(shown(*map), token) == owed(
                    list.push(now),
                    have@,
                    token,
                ) by {
                    if token != t@ {
                        assert(lookup(shown(*map), token) == lookup(before, token));
                    }
                }
            }
        },
        None => {},
    }
}

/// The queue after a run: what is still owed, each token once, its newest error kept.
pub fn merge_failures(previous: &Vec<Json>, still_failing: Vec<Json>, have: &TokenSet, retry_mode: bool) -> (r: Vec<
    Json,
>)
    ensures
        is_queue(
            trees(r@),
            queue_input(trees(previous@), trees(still_failing@), retry_mode),
            have@,
        ),
{
    let ghost before = trees(previous@);
    let ghost failing = trees(still_failing@);
    let mut map: KeyMap<Json> = KeyMap::new();
    let ghost mut list: Seq<JsonView> = Seq::empty();
    proof {
        lemma_dict_tree(map);
        assert(!has_key(shown(map), Seq::empty()));
    }
    if !retry_mode {
        assert(before.take(0) =~= list);
        for i in 0..previous.len()
            invariant
                before == trees(previous@),
                list == before.take(i as int),
                forall|token: Seq<char>| #[trigger] lookup(shown(map), token) == owed(list, have@, token),
        {
            enqueue(&mut map, previous[i].duplicate(), have, Ghost(list));
            proof {
                assert(before.take(i + 1) =~= list.push(before[i as int]));
                list = before.take(i + 1);
            }
        }
        assert(before.take(previous@.len() as int) =~= before);
    }
    let ghost base = list;
    assert(base + failing.take(0) =~= base);
    for v in it: still_failing.into_iter()
        invariant
            failing == trees(it.seq()),
            list == base + failing.take(it.index() as int),
            forall|token: Seq<char>| #[trigger] lookup(shown(map), token) == owed(list, have@, token),
    {
        let ghost k = it.index() as int;
        let ghost now = v@;
        assert(failing[k] == now);
        enqueue(&mut map, v, have, Ghost(list));
        proof {
            assert(list.push(now) =~= base + failing.take(k + 1));
            list = base + failing.take(k + 1);
        }
    }
    proof {
        assert(failing.take(failing.len() as int) =~= failing);
        assert(list =~= queue_input(before, failing, retry_mode));
        use_type_invariant(&map);
        lemma_dict_tree(map);
    }
    let ghost pairs = shown(map);
    let ghost held = map.pairs();
    let entries = map.into_entries();
    let mut out: Vec<Json> = Vec::new();
    for entry in it: entries.into_iter()
        invariant
            it.seq().len() == pairs.len(),
            forall|i: int| 0 <= i < it.seq().len() ==> pairs[i].1 == (#[trigger] it.seq()[i]).1@,
            out@.len() == it.index(),
            forall|i: int| 0 <= i < out@.len() ==> (#[trigger] out@[i])@ == pairs[i].1,
    {
        out.push(entry.1);
    }
    proof {
        let queue = trees(out@);
        assert forall|i: int| 0 <= i < queue.len() implies token_of(#[trigger] queue[i]) == Some(pairs[i].0) by {
            crate::keymap::lemma_lookup(pairs, i);
            lemma_newest_token(list, pairs[i].0);
            assert(queue[i] == pairs[i].1);
        }
        assert(by_token(queue) =~= pairs) by {
            assert forall|i: int| 0 <= i < queue.len() implies by_token(queue)[i] == pairs[i] by {
                assert(token_of(queue[i]) == Some(pairs[i].0));
            }
        }
    }
    out
}

/// The lines are those of the queue after a run.
pub open spec fn queue_after(
    lines: Seq<Seq<char>>,
    queue: Seq<JsonView>,
    raw_lines: Seq<Seq<char>>,
    failure_lines: Seq<Seq<char>>,
    failing: Seq<JsonView>,
    retry: bool,
) -> bool {
    &&& is_queue(queue, queue_input(records(failure_lines), failing, retry), tokens_of(records(raw_lines)).to_set())
    &&& lines == queue_text(queue)
    &&& forall|i: int| 0 <= i < queue.len() ==> speaks_of(#[trigger] lines[i], token_of(queue[i])->0)
    &&& forall|i: int| 0 <= i < queue.len() && fits(queue[i], 127) ==> reads_as(#[trigger] lines[i], queue[i])
}

/// The lines are those of some queue after a run; `is_queue` leaves no choice of it.
pub open spec fn is_rewrite(
    lines: Seq<Seq<char>>,
    raw_lines: Seq<Seq<char>>,
    failure_lines: Seq<Seq<char>>,
    failing: Seq<JsonView>,
    retry: bool,
) -> bool {
    exists|queue: Seq<JsonView>| queue_after(lines, queue, raw_lines, failure_lines, failing, retry)
}

/// The lines of the failure store after a run: what is still owed, given what the raw
/// store holds by now. A line of the earlier store that is no JSON costs that line only.
pub fn rewrite_failures(
    raw_lines: &Vec<String>,
    failure_lines: &Vec<String>,
    still_failing: Vec<Json>,
    retry_mode: bool,
) -> (r: Result<Vec<String>, BadLine>)
    ensures
        match r {
            Ok(lines) => readable(texts(raw_lines@)) && is_rewrite(
                texts(lines@),
                texts(raw_lines@),
                texts(failure_lines@),
                trees(still_failing@),
                retry_mode,
            ),
            Err(e) => blames(e, texts(raw_lines@)),
        },
{
    let have = match tokens_in(raw_lines) {
        Ok(set) => set,
        Err(e) => return Err(e),
    };
    let previous = salvage(failure_lines);
    let queue = merge_failures(&previous, still_failing, &have, retry_mode);
    proof {
        assert forall|i: int| 0 <= i < queue@.len() implies token_of((#[trigger] queue@[i])@) is Some by {
            assert(trees(queue@)[i] == queue@[i]@);
        }
    }
    let lines = queue_lines(&queue);
    assert(queue_after(
        texts(lines@),
        trees(queue@),
        texts(raw_lines@),
        texts(failure_lines@),
        trees(still_failing@),
        retry_mode,
    ));
    Ok(lines)
}

/// The tokens of a queue.
pub open spec fn queue_tokens(queue: Seq<JsonView>) -> Seq<Seq<char>> {
    queue.map_values(|v: JsonView| token_of(v)->0)
}

proof fn lemma_newest_concat(a: Seq<JsonView>, b: Seq<JsonView>, token: Seq<char>)
    ensures
        newest(a + b, token) == if newest(b, token) is Some {
            newest(b, token)
        } else {
            newest(a, token)
        },
    decreases b.len(),
{
    if b.len() == 0 {
        assert(a + b =~= a);
    } else {
        assert((a + b).drop_last() =~= a + b.drop_last());
        lemma_newest_concat(a, b.drop_last(), token);
    }
}

/// A token is in the queue where it is owed, and nowhere else.
proof fn lemma_queued(queue: Seq<JsonView>, list: Seq<JsonView>, have: Set<Seq<char>>, token: Seq<char>)
    requires
        is_queue(queue, list, have),
    ensures
        queue_tokens(queue).contains(token) <==> owed(list, have, token) is Some,
        owed(list, have, token) matches Some(v) ==> queue.contains(v),
{
    let pairs = by_token(queue);
    assert(lookup(pairs, token) == owed(list, have, token));
    if queue_tokens(queue).contains(token) {
        let i = choose|i: int| 0 <= i < queue.len() && queue_tokens(queue)[i] == token;
        assert(pairs[i].0 == token);
    }
    if has_key(pairs, token) {
        let i = choose|i: int| 0 <= i < pairs.len() && (#[trigger] pairs[i]).0 == token;
        assert(pairs[i].0 == token);
        lemma_lookup(pairs, i);
        assert(queue_tokens(queue)[i] == token);
        assert(queue[i] == pairs[i].1);
    }
}

/// A run that is no retry drops no failure that an earlier run recorded, unless the
/// listing has been fetched by now; a failure recorded anew takes the older one's
/// place.
pub proof fn law_failures_survive(
    queue: Seq<JsonView>,
    previous: Seq<JsonView>,
    failing: Seq<JsonView>,
    have: Set<Seq<char>>,
    token: Seq<char>,
)
    requires
        is_queue(queue, queue_input(previous, failing, false), have),
        !have.contains(token),
    ensures
        queue_tokens(queue).contains(token) <==> newest(previous, token) is Some || newest(failing, token) is Some,
        newest(failing, token) matches Some(v) ==> queue.contains(v),
        newest(failing, token) is None ==> (newest(previous, token) matches Some(v) ==> queue.contains(v)),
{
    lemma_queued(queue, previous + failing, have, token);
    lemma_newest_concat(previous, failing, token);
}

/// The same, line by line: what an earlier run recorded stays in the failure store until
/// the raw store has the listing, whatever else stands in the failure store.
pub proof fn law_recorded_failure_stays(
    lines: Seq<Seq<char>>,
    queue: Seq<JsonView>,
    raw_lines: Seq<Seq<char>>,
    failure_lines: Seq<Seq<char>>,
    failing: Seq<JsonView>,
    i: int,
    token: Seq<char>,
)
    requires
        queue_after(lines, queue, raw_lines, failure_lines, failing, false),
        0 <= i < failure_lines.len(),
        !blank(failure_lines[i]),
        parsed(failure_lines[i]) matches Ok(v) && token_of(v) == Some(token),
    ensures
        tokens_of(records(raw_lines)).contains(token) || queue_tokens(queue).contains(token),
{
    let have = tokens_of(records(raw_lines)).to_set();
    lemma_recorded(failure_lines, i, token);
    if !have.contains(token) {
        law_failures_survive(queue, records(failure_lines), failing, have, token);
    }
}

proof fn lemma_recorded(lines: Seq<Seq<char>>, i: int, token: Seq<char>)
    requires
        0 <= i < lines.len(),
        !blank(lines[i]),
        parsed(lines[i]) matches Ok(v) && token_of(v) == Some(token),
    ensures
        newest(records(lines), token) is Some,
    decreases lines.len(),
{
    let front = lines.drop_last();
    let before = records(front);
    if i < front.len() {
        assert(front[i] == lines[i]);
        lemma_recorded(front, i, token);
    }
    if !blank(lines.last()) && parsed(lines.last()) is Ok {
        assert(before.push(parsed(lines.last())->Ok_0).drop_last() =~= before);
    }
}

/// What has been fetched leaves the queue, in a retry and in any other run.
pub proof fn law_recovered_listings_leave(
    queue: Seq<JsonView>,
    previous: Seq<JsonView>,
    failing: Seq<JsonView>,
    have: Set<Seq<char>>,
    retry: bool,
    token: Seq<char>,
)
    requires
        is_queue(queue, queue_input(previous, failing, retry), have),
        have.contains(token),
    ensures
        !queue_tokens(queue).contains(token),
{
    lemma_queued(queue, queue_input(previous, failing, retry), have, token);
}

/// After a retry the queue holds what failed in it and nothing else, so it can drain.
pub proof fn law_retry_rewrites(
    queue: Seq<JsonView>,
    previous: Seq<JsonView>,
    failing: Seq<JsonView>,
    have: Set<Seq<char>>,
    token: Seq<char>,
)
    requires
        is_queue(queue, queue_input(previous, failing, true), have),
    ensures
        queue_tokens(queue).contains(token) <==> newest(failing, token) is Some && !have.contains(token),
{
    lemma_queued(queue, failing, have, token);
}

/// No token is queued twice.
pub proof fn law_queued_once(queue: Seq<JsonView>, list: Seq<JsonView>, have: Set<Seq<char>>)
    requires
        is_queue(queue, list, have),
    ensures
        queue_tokens(queue).no_duplicates(),
{
    let pairs = by_token(queue);
    assert forall|i: int, j: int| 0 <= i < queue.len() && 0 <= j < queue.len() && i != j implies queue_tokens(
        queue,
    )[i] != queue_tokens(queue)[j] by {
        assert(pairs[i].0 == queue_tokens(queue)[i] && pairs[j].0 == queue_tokens(queue)[j]);
        if i < j {
            assert(crate::text::precedes(pairs[i].0, pairs[j].0));
        } else {
            assert(crate::text::precedes(pairs[j].0, pairs[i].0));
        }
        crate::text::lemma_precedes_irreflexive(pairs[i].0);
    }
}

/// A run in which nothing fails and nothing is fetched leaves the queue as it is.
pub proof fn law_idle_run_keeps_the_queue(
    queue: Seq<JsonView>,
    list: Seq<JsonView>,
    have: Set<Seq<char>>,
    later: Seq<JsonView>,
)
    requires
        is_queue(queue, list, have),
        is_queue(later, queue_input(queue, Seq::empty(), false), have),
    ensures
        later == queue,
{
    let before = by_token(queue);
    let after = by_token(later);
    assert(queue + Seq::<JsonView>::empty() =~= queue);
    assert forall|token: Seq<char>| #[trigger] lookup(after, token) == lookup(before, token) by {
        lemma_queue_newest(queue, queue.len() as int, token);
        assert(queue.take(queue.len() as int) =~= queue);
        assert(lookup(after, token) == owed(queue, have, token));
        assert(lookup(before, token) == owed(list, have, token));
    }
    lemma_same_lookup(after, before);
    assert forall|i: int| 0 <= i < queue.len() implies later[i] == queue[i] by {
        assert(before[i].1 == queue[i]);
        assert(after[i].1 == later[i]);
    }
    assert(later =~= queue);
}

/// In a queue the newest record of a token is the one that is looked up.
proof fn lemma_queue_newest(queue: Seq<JsonView>, n: int, token: Seq<char>)
    requires
        0 <= n <= queue.len(),
        ascending(by_token(queue)),
        forall|i: int| 0 <= i < queue.len() ==> token_of(#[trigger] queue[i]) is Some,
    ensures
        newest(queue.take(n), token) is Some ==> newest(queue.take(n), token) == lookup(by_token(queue), token),
        n == queue.len() && newest(queue.take(n), token) is None ==> lookup(by_token(queue), token) is None,
        newest(queue.take(n), token) is None ==> forall|i: int|
            0 <= i < n ==> token_of(#[trigger] queue[i]) != Some(token),
    decreases n,
{
    let pairs = by_token(queue);
    if n > 0 {
        lemma_queue_newest(queue, n - 1, token);
        assert(queue.take(n).drop_last() =~= queue.take(n - 1));
        assert(queue.take(n).last() == queue[n - 1]);
        if token_of(queue[n - 1]) == Some(token) {
            lemma_lookup(pairs, n - 1);
            assert(pairs[n - 1] == (token, queue[n - 1]));
        }
    }
    if n == queue.len() && newest(queue.take(n), token) is None && has_key(pairs, token) {
        let i = choose|i: int| 0 <= i < pairs.len() && (#[trigger] pairs[i]).0 == token;
        assert(pairs[i].0 == token);
        assert(token_of(queue[i]) is Some);
        assert(token_of(queue[i]) != Some(token));
    }
}

/// A queue of records that nest at most 127 deep and hold no numbers but integers, as
/// those of failed listings do, is read again as it was.
pub proof fn law_queue_can_be_read(
    lines: Seq<Seq<char>>,
    queue: Seq<JsonView>,
    raw_lines: Seq<Seq<char>>,
    failure_lines: Seq<Seq<char>>,
    failing: Seq<JsonView>,
    retry: bool,
)
    requires
        queue_after(lines, queue, raw_lines, failure_lines, failing, retry),
        forall|i: int| 0 <= i < queue.len() ==> fits(#[trigger] queue[i], 127),
    ensures
        readable(lines),
        records(lines) == queue,
{
    assert forall|i: int| 0 <= i < lines.len() implies !corrupt(#[trigger] lines[i]) by {
        assert(fits(queue[i], 127));
    }
    lemma_records_read(lines, queue, lines.len() as int);
    assert(lines.take(lines.len() as int) =~= lines);
    assert(queue.take(queue.len() as int) =~= queue);
}

proof fn lemma_records_read(lines: Seq<Seq<char>>, list: Seq<JsonView>, n: int)
    requires
        0 <= n <= lines.len(),
        lines.len() == list.len(),
        forall|i: int| 0 <= i < lines.len() ==> !blank(#[trigger] lines[i]) && reads_as(lines[i], list[i]),
    ensures
        records(lines.take(n)) == list.take(n),
    decreases n,
{
    if n > 0 {
        lemma_records_read(lines, list, n - 1);
        assert(lines.take(n).drop_last() =~= lines.take(n - 1));
        assert(lines.take(n).last() == lines[n - 1]);
        assert(list.take(n) =~= list.take(n - 1).push(list[n - 1]));
    } else {
        assert(records(lines.take(n)) =~= list.take(n));
    }
}

/// The next sweep takes what the queue holds, in its order: once the lines of the queue
/// are in the failure store, the tokens still owed are the queue's.
pub proof fn law_sweep_takes_the_queue(
    lines: Seq<Seq<char>>,
    queue: Seq<JsonView>,
    raw_lines: Seq<Seq<char>>,
    failure_lines: Seq<Seq<char>>,
    failing: Seq<JsonView>,
    retry: bool,
)
    requires
        queue_after(lines, queue, raw_lines, failure_lines, failing, retry),
        readable(lines),
    ensures
        missing(tokens_of(records(lines)), tokens_of(records(raw_lines)).to_set()) == queue_tokens(queue),
{
    let have = tokens_of(records(raw_lines)).to_set();
    let tokens = queue_tokens(queue);
    crate::records::law_lines_are_read_back(lines, tokens);
    assert forall|i: int| 0 <= i < tokens.len() implies !have.contains(#[trigger] tokens[i]) by {
        lemma_queued(queue, queue_input(records(failure_lines), failing, retry), have, tokens[i]);
        assert(queue_tokens(queue).contains(tokens[i]));
    }
    crate::seqs::lemma_filter_all(tokens, |t: Seq<char>| !have.contains(t));
}

} // verus!
