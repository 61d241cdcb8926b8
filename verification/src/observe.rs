//! Visiting known listings again, day by day.

use vstd::prelude::*;
use crate::codec::{alike, fits, json_text, parsed, reads_as};
use crate::fetch::{dead_prefix, follows, gone, law_removed_means_gone, Reply, Step};
use crate::json::{count_value, get_within, member, number_from, text, text_value, whole, within, Json, JsonView};
use crate::keymap::{ascending, lemma_put, lookup, put};
use crate::records::{lemma_alike_member, lemma_record3, line_of, record3, speaks_of};
use crate::search::{add_member, empty_members};
use crate::store::{law_wanted_record_is_found, token_of, wanted, wanted_tokens, Keep, TokenSet};
use crate::text::{has_prefix, starts_with, texts};

verus! {

/// An object with four members.
pub open spec fn record4(
    a: (Seq<char>, JsonView),
    b: (Seq<char>, JsonView),
    c: (Seq<char>, JsonView),
    d: (Seq<char>, JsonView),
) -> JsonView {
    let none = Seq::<(Seq<char>, JsonView)>::empty();
    JsonView::Dict(put(put(put(put(none, a.0, a.1), b.0, b.1), c.0, c.1), d.0, d.1))
}

/// The record of a visit that found the listing, with the price it was offered at.
pub open spec fn live_entry(token: Seq<char>, at: u64, price: JsonView) -> JsonView {
    record4(
        ("token"@, JsonView::Text(token)),
        ("observed_at"@, JsonView::Num(number_from(at))),
        ("status"@, JsonView::Text("live"@)),
        ("price"@, price),
    )
}

/// The record of a visit that found the listing removed.
pub open spec fn removed_entry(token: Seq<char>, at: u64, reason: Seq<char>) -> JsonView {
    record4(
        ("token"@, JsonView::Text(token)),
        ("observed_at"@, JsonView::Num(number_from(at))),
        ("status"@, JsonView::Text("removed"@)),
        ("reason"@, JsonView::Text(reason)),
    )
}

/// The price of a listing; null where it has no fixed price.
pub open spec fn price_of(detail: JsonView) -> JsonView {
    within(member(detail, "webengage"@), "price"@).unwrap_or(JsonView::Null)
}

/// The record of a visit. A listing that could not be reached leaves none: that says
/// nothing of the listing.
pub open spec fn sighting(token: Seq<char>, result: Result<Json, String>, at: u64) -> Option<JsonView> {
    match result {
        Ok(detail) => Some(live_entry(token, at, price_of(detail@))),
        Err(message) => if has_prefix(message@, dead_prefix()) {
            Some(removed_entry(token, at, message@))
        } else {
            None
        },
    }
}

/// The record of a visit, if it leaves one.
pub fn observation(token: &str, result: &Result<Json, String>, at: u64) -> (r: Option<Json>)
    ensures
        sighting(token@, *result, at) == match r {
            Some(v) => Some(v@),
            None => None,
        },
        result is Err ==> (r matches Some(v) ==> fits(v@, 127)),
{
    match result {
        Ok(detail) => {
            let price = match get_within(detail.get("webengage"), "price") {
                Some(p) => p.duplicate(),
                None => Json::Null,
            };
            Some(make_record4(token, at, "live", "price", price))
        },
        Err(message) => if starts_with(message.as_str(), "post removed") {
            let v = make_record4(token, at, "removed", "reason", text_value(message.as_str()));
            proof {
                lemma_removed_fits(token@, at, message@);
            }
            Some(v)
        } else {
            None
        },
    }
}

fn make_record4(token: &str, at: u64, status: &str, key: &str, value: Json) -> (r: Json)
    ensures
        r@ == record4(
            ("token"@, JsonView::Text(token@)),
            ("observed_at"@, JsonView::Num(number_from(at))),
            ("status"@, JsonView::Text(status@)),
            (key@, value@),
        ),
        whole(number_from(at)),
{
    let mut v = Json::Dict(empty_members());
    add_member(&mut v, "token", text_value(token));
    add_member(&mut v, "observed_at", count_value(at));
    add_member(&mut v, "status", text_value(status));
    add_member(&mut v, key, value);
    v
}

/// Four members under different keys are all there.
pub proof fn lemma_record4(
    a: (Seq<char>, JsonView),
    b: (Seq<char>, JsonView),
    c: (Seq<char>, JsonView),
    d: (Seq<char>, JsonView),
)
    requires
        a.0 != b.0,
        a.0 != c.0,
        a.0 != d.0,
        b.0 != c.0,
        b.0 != d.0,
        c.0 != d.0,
    ensures
        ascending(record4(a, b, c, d)->Dict_0),
        member(record4(a, b, c, d), a.0) == Some(a.1),
        member(record4(a, b, c, d), b.0) == Some(b.1),
        member(record4(a, b, c, d), c.0) == Some(c.1),
        member(record4(a, b, c, d), d.0) == Some(d.1),
{
    let three = record3(a, b, c)->Dict_0;
    lemma_record3(a, b, c);
    lemma_put(three, d.0, d.1);
    assert(lookup(put(three, d.0, d.1), a.0) == lookup(three, a.0));
    assert(lookup(put(three, d.0, d.1), b.0) == lookup(three, b.0));
    assert(lookup(put(three, d.0, d.1), c.0) == lookup(three, c.0));
}

/// What the record of a visit says: the token, when it was, and whether the listing was
/// found, with its price, or was removed, with the reason.
pub proof fn law_observation(token: Seq<char>, result: Result<Json, String>, at: u64)
    ensures
        sighting(token, result, at) is None <==> (result matches Err(m) && !has_prefix(m@, dead_prefix())),
        sighting(token, result, at) matches Some(v) ==> {
            &&& v is Dict && ascending(v->Dict_0)
            &&& token_of(v) == Some(token)
            &&& member(v, "observed_at"@) == Some(JsonView::Num(number_from(at)))
            &&& text(member(v, "status"@)) == Some(
                if result is Ok {
                    "live"@
                } else {
                    "removed"@
                },
            )
            &&& result matches Ok(detail) ==> member(v, "price"@) == Some(price_of(detail@))
            &&& result matches Err(m) ==> member(v, "reason"@) == Some(JsonView::Text(m@))
        },
{
    reveal_strlit("token");
    reveal_strlit("observed_at");
    reveal_strlit("status");
    reveal_strlit("price");
    reveal_strlit("reason");
    assert("token"@[0] == 't' && "price"@[0] == 'p' && "status"@[0] == 's' && "reason"@[0] == 'r');
    match result {
        Ok(detail) => {
            lemma_record4(
                ("token"@, JsonView::Text(token)),
                ("observed_at"@, JsonView::Num(number_from(at))),
                ("status"@, JsonView::Text("live"@)),
                ("price"@, price_of(detail@)),
            );
        },
        Err(m) => {
            lemma_record4(
                ("token"@, JsonView::Text(token)),
                ("observed_at"@, JsonView::Num(number_from(at))),
                ("status"@, JsonView::Text("removed"@)),
                ("reason"@, JsonView::Text(m@)),
            );
        },
    }
}

/// A pass over the panel: how many listings were found, removed and not reached.
#[derive(Debug, PartialEq)]
pub struct Watch {
    pub total: usize,
    pub live: usize,
    pub gone: usize,
    pub unreachable: usize,
}

impl Watch {
    pub fn new(total: usize) -> (r: Self)
        ensures
            r == (Watch { total, live: 0, gone: 0, unreachable: 0 }),
    {
        Watch { total, live: 0, gone: 0, unreachable: 0 }
    }

    /// How many listings were visited.
    pub open spec fn visited(self) -> int {
        self.live + self.gone + self.unreachable
    }

    /// Takes what came of a visit, and gives the line that it leaves, if it leaves one.
    pub fn take(&mut self, token: &str, result: &Result<Json, String>, now: u64) -> (r: Option<String>)
        requires
            old(self).visited() < usize::MAX,
        ensures
            final(self).total == old(self).total,
            final(self).live == old(self).live + if result is Ok { 1int } else { 0 },
            final(self).gone == old(self).gone + if result is Err && r is Some { 1int } else { 0 },
            final(self).unreachable == old(self).unreachable + if r is None { 1int } else { 0 },
            final(self).visited() == old(self).visited() + 1,
            r is None <==> (result matches Err(m) && !has_prefix(m@, "post removed"@)),
            match (r, sighting(token@, *result, now)) {
                (None, None) => true,
                (Some(line), Some(v)) => {
                    &&& line@ == json_text(v)
                    &&& speaks_of(line@, token@)
                    &&& parsed(line@) matches Ok(w) ==> alike(v, w) && wanted(Keep::Removed, w) == (result is Err)
                    &&& fits(v, 127) ==> reads_as(line@, v)
                    &&& result is Err ==> reads_as(line@, v)
                },
                _ => false,
            },
    {
        let v = match observation(token, result, now) {
            Some(v) => v,
            None => {
                self.unreachable = self.unreachable + 1;
                return None;
            },
        };
        match result {
            Ok(_) => {
                self.live = self.live + 1;
            },
            Err(_) => {
                self.gone = self.gone + 1;
            },
        }
        proof {
            law_observation(token@, *result, now);
        }
        let line = line_of(&v, Ghost(token@));
        proof {
            reveal_strlit("live");
            reveal_strlit("removed");
            assert("live"@.len() == 4 && "removed"@.len() == 7);
            if parsed(line@) is Ok {
                lemma_alike_member(v@, parsed(line@)->Ok_0, "status"@);
            }
        }
        Some(line)
    }

    /// Whether it is time to say how far the pass is: after every 100 visits and after
    /// the last.
    pub fn progress_due(&self) -> (r: bool)
        requires
            self.visited() <= usize::MAX,
        ensures
            r == (self.visited() % 100 == 0 || self.visited() == self.total),
            self.visited() == self.total ==> r,
            forall|k: int| #[trigger] (100 * k) == self.visited() ==> r,
    {
        let n = self.live + self.gone + self.unreachable;
        n % 100 == 0 || n == self.total
    }

    /// Whether more than half of the panel was not reached: such a day is a gap in the
    /// history.
    pub fn is_unreliable(&self) -> (r: bool)
        ensures
            r == (self.unreachable * 2 > self.total),
            r <==> self.unreachable > self.total - self.unreachable,
    {
        self.unreachable > self.total || self.unreachable > self.total - self.unreachable
    }
}

/// The record of a removed listing is read back.
proof fn lemma_removed_fits(token: Seq<char>, at: u64, reason: Seq<char>)
    requires
        whole(number_from(at)),
    ensures
        fits(removed_entry(token, at, reason), 127),
{
    let a = ("token"@, JsonView::Text(token));
    let b = ("observed_at"@, JsonView::Num(number_from(at)));
    let c = ("status"@, JsonView::Text("removed"@));
    let d = ("reason"@, JsonView::Text(reason));
    let three = record3(a, b, c)->Dict_0;
    reveal_strlit("token");
    reveal_strlit("observed_at");
    reveal_strlit("status");
    assert("token"@[0] == 't' && "status"@[0] == 's');
    lemma_record3(a, b, c);
    crate::records::lemma_record3_fits(a, b, c, 126);
    crate::keymap::lemma_put_pairs(three, d.0, d.1);
    let all = put(three, d.0, d.1);
    assert forall|i: int| 0 <= i < all.len() implies fits((#[trigger] all[i]).1, 126) by {
        if all[i] != d {
            let j = choose|j: int| 0 <= j < three.len() && three[j] == all[i];
            assert(three[j] == all[i]);
        }
    }
}

/// The texts of a list, each where it occurs first.
pub open spec fn firsts(list: Seq<Seq<char>>) -> Seq<Seq<char>>
    decreases list.len(),
{
    if list.len() == 0 {
        Seq::empty()
    } else {
        let front = firsts(list.drop_last());
        if front.contains(list.last()) {
            front
        } else {
            front.push(list.last())
        }
    }
}

/// The first `max` of a list; all of it where `max` is 0.
pub open spec fn capped(list: Seq<Seq<char>>, max: nat) -> Seq<Seq<char>> {
    if max == 0 || list.len() <= max {
        list
    } else {
        list.take(max as int)
    }
}

/// The listings to visit: in the order of the raw store, each once, without those that
/// are removed, and no more than `max`.
pub open spec fn panel(list: Seq<Seq<char>>, removed: Set<Seq<char>>, max: nat) -> Seq<Seq<char>> {
    capped(firsts(list).filter(|t: Seq<char>| !removed.contains(t)), max)
}

proof fn lemma_firsts_members(list: Seq<Seq<char>>)
    ensures
        forall|t: Seq<char>| #[trigger] firsts(list).contains(t) <==> list.contains(t),
        firsts(list).no_duplicates(),
    decreases list.len(),
{
    if list.len() > 0 {
        let front = list.drop_last();
        lemma_firsts_members(front);
        let less = firsts(front);
        assert forall|t: Seq<char>| #[trigger] firsts(list).contains(t) <==> list.contains(t) by {
            if list.contains(t) {
                let i = choose|i: int| 0 <= i < list.len() && list[i] == t;
                if i < front.len() {
                    assert(front[i] == t);
                }
            }
            if front.contains(t) {
                let i = choose|i: int| 0 <= i < front.len() && front[i] == t;
                assert(list[i] == t);
            }
            if less.contains(t) {
                let i = choose|i: int| 0 <= i < less.len() && less[i] == t;
                assert(firsts(list)[i] == t);
            }
            if !less.contains(list.last()) {
                assert(firsts(list)[less.len() as int] == list.last());
                if firsts(list).contains(t) {
                    let i = choose|i: int| 0 <= i < firsts(list).len() && firsts(list)[i] == t;
                    if i < less.len() {
                        assert(less[i] == t);
                    } else {
                        assert(list[list.len() - 1] == t);
                    }
                }
            }
        }
        if !less.contains(list.last()) {
            let all = firsts(list);
            assert forall|i: int, j: int| 0 <= i < all.len() && 0 <= j < all.len() && i != j implies all[i] != all[j] by {
                if i < less.len() {
                    assert(less.contains(less[i]));
                }
                if j < less.len() {
                    assert(less.contains(less[j]));
                }
            }
        }
    }
}

/// The listings to visit.
pub fn observe_panel(raw_tokens: Vec<String>, removed: &TokenSet, max: usize) -> (r: Vec<String>)
    ensures
        texts(r@) == panel(texts(raw_tokens@), removed@, max as nat),
{
    let ghost all = texts(raw_tokens@);
    let ghost keep = |t: Seq<char>| !removed@.contains(t);
    let mut visited = TokenSet::new();
    let mut out: Vec<String> = Vec::new();
    proof {
        assert(all.take(0) =~= Seq::empty());
        reveal(Seq::filter);
        assert(texts(out@) =~= firsts(all.take(0)).filter(keep));
        assert(visited@ =~= firsts(all.take(0)).to_set());
    }
    for token in it: raw_tokens.into_iter()
        invariant
            all == texts(it.seq()),
            keep == (|t: Seq<char>| !removed@.contains(t)),
            visited@ == firsts(all.take(it.index() as int)).to_set(),
            texts(out@) == firsts(all.take(it.index() as int)).filter(keep),
    {
        let ghost k = it.index() as int;
        let ghost before = firsts(all.take(k));
        let ghost now = token@;
        proof {
            assert(all[k] == now);
            assert(all.take(k + 1).drop_last() =~= all.take(k));
            assert(all.take(k + 1).last() == now);
            crate::seqs::lemma_filter_push(before, keep, now);
        }
        if visited.insert(token.clone()) {
            proof {
                let more = before.push(now);
                crate::seqs::lemma_to_set_step(more, before.len() as int);
                assert(more.take(before.len() as int) =~= before);
                assert(more.take(before.len() as int + 1) =~= more);
            }
            if !removed.contains(token.as_str()) {
                let ghost so_far = texts(out@);
                out.push(token);
                assert(texts(out@) =~= so_far.push(now));
            }
        } else {
            assert(visited@ =~= before.to_set());
        }
    }
    assert(all.take(all.len() as int) =~= all);
    if max != 0 && out.len() > max {
        let ghost whole = texts(out@);
        out.truncate(max);
        assert(texts(out@) =~= whole.take(max as int));
    }
    out
}

/// No listing is visited twice, none that is removed, and none that is not in the raw
/// store. Where the cap is not reached, all others are visited.
pub proof fn law_panel(list: Seq<Seq<char>>, removed: Set<Seq<char>>, max: nat)
    ensures
        panel(list, removed, max).no_duplicates(),
        forall|t: Seq<char>|
            #[trigger] panel(list, removed, max).contains(t) ==> list.contains(t) && !removed.contains(t),
        max == 0 || panel(list, removed, max).len() < max ==> forall|t: Seq<char>|
            #[trigger] panel(list, removed, max).contains(t) <==> list.contains(t) && !removed.contains(t),
        max > 0 ==> panel(list, removed, max).len() <= max,
{
    let keep = |t: Seq<char>| !removed.contains(t);
    let live = firsts(list).filter(keep);
    lemma_firsts_members(list);
    crate::seqs::lemma_filter_members(firsts(list), keep);
    crate::seqs::lemma_filter_no_duplicates(firsts(list), keep);
    assert forall|t: Seq<char>| #[trigger] capped(live, max).contains(t) implies live.contains(t) by {
        let i = choose|i: int| 0 <= i < capped(live, max).len() && capped(live, max)[i] == t;
        assert(live[i] == t);
    }
}

proof fn lemma_firsts_extend(list: Seq<Seq<char>>, more: Seq<Seq<char>>)
    ensures
        firsts(list).len() <= firsts(list + more).len(),
        firsts(list + more).take(firsts(list).len() as int) == firsts(list),
    decreases more.len(),
{
    if more.len() == 0 {
        assert(list + more =~= list);
        assert(firsts(list).take(firsts(list).len() as int) =~= firsts(list));
    } else {
        assert((list + more).drop_last() =~= list + more.drop_last());
        lemma_firsts_extend(list, more.drop_last());
        let n = firsts(list).len() as int;
        assert(firsts(list + more).take(n) =~= firsts(list + more.drop_last()).take(n));
    }
}

proof fn lemma_filter_prefix(s: Seq<Seq<char>>, n: int, keep: spec_fn(Seq<char>) -> bool)
    requires
        0 <= n <= s.len(),
    ensures
        s.take(n).filter(keep).len() <= s.filter(keep).len(),
        s.filter(keep).take(s.take(n).filter(keep).len() as int) == s.take(n).filter(keep),
    decreases s.len() - n,
{
    if n == s.len() {
        assert(s.take(n) =~= s);
        assert(s.filter(keep).take(s.filter(keep).len() as int) =~= s.filter(keep));
    } else {
        lemma_filter_prefix(s, n + 1, keep);
        crate::seqs::lemma_filter_step(s, keep, n);
        let less = s.take(n).filter(keep);
        assert(s.filter(keep).take(less.len() as int) =~= s.take(n + 1).filter(keep).take(less.len() as int));
        assert(s.take(n + 1).filter(keep).take(less.len() as int) =~= less);
    }
}

/// The panel stays the same when the raw store grows: those visited before are visited
/// again, in the same order and before any new ones, as long as they are not removed.
pub proof fn law_panel_is_stable(
    list: Seq<Seq<char>>,
    more: Seq<Seq<char>>,
    removed: Set<Seq<char>>,
    max: nat,
)
    ensures
        panel(list, removed, max).len() <= panel(list + more, removed, max).len(),
        panel(list + more, removed, max).take(panel(list, removed, max).len() as int) == panel(list, removed, max),
{
    let keep = |t: Seq<char>| !removed.contains(t);
    lemma_firsts_extend(list, more);
    lemma_filter_prefix(firsts(list + more), firsts(list).len() as int, keep);
    let small = firsts(list).filter(keep);
    let large = firsts(list + more).filter(keep);
    assert(large.take(small.len() as int) == small);
    let n = panel(list, removed, max).len() as int;
    assert(panel(list + more, removed, max).take(n) =~= large.take(n));
    assert(panel(list, removed, max) =~= small.take(n));
    assert(large.take(n) =~= large.take(small.len() as int).take(n));
}

/// Once a removal is in the store of observations, the listing is not visited again.
pub proof fn law_removed_listing_is_not_visited(
    lines: Seq<Seq<char>>,
    i: int,
    token: Seq<char>,
    list: Seq<Seq<char>>,
    max: nat,
)
    requires
        0 <= i < lines.len(),
        speaks_of(lines[i], token),
        parsed(lines[i]) matches Ok(v) && wanted(Keep::Removed, v),
    ensures
        !panel(list, wanted_tokens(Keep::Removed, lines).to_set(), max).contains(token),
{
    law_wanted_record_is_found(Keep::Removed, lines, i, token);
    law_panel(list, wanted_tokens(Keep::Removed, lines).to_set(), max);
}

/// A removal is recorded only for a listing that the server said is gone; a listing
/// that could not be reached leaves no record. (A failed connection that is described
/// with the words for a removal is left out.)
pub proof fn law_only_gone_listings_are_removed(
    step: Step,
    reply: Reply,
    made: u32,
    max_retries: u32,
    token: Seq<char>,
    at: u64,
)
    requires
        follows(step, reply, made, max_retries),
        step is Failed,
        reply matches Reply::Unsent { message } ==> !has_prefix(message@, dead_prefix()),
    ensures
        sighting(token, Err(step->Failed_message), at) is Some <==> (reply matches Reply::Status { code, .. } && gone(
            code,
        )),
{
    law_removed_means_gone(step, reply, made, max_retries);
}

} // verus!
