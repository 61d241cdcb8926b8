//! Walking the search feed page by page.

use vstd::prelude::*;
use vstd::string::StringExecFns;
use crate::json::{get_within, member, seen, within, Json, JsonView};
use crate::records::{law_stored_listing_is_found, speaks_of};
use crate::search::{listing_views, listings, page_listings, request, search_body, CityMode};
use crate::store::{missing, missing_tokens, readable, records, tokens_of, TokenSet};
use crate::text::{contains, first_chars, holds, texts};

verus! {

/// An answer that says the request itself is at fault.
pub open spec fn client_error(status: u16) -> bool {
    400 <= status < 500
}

/// An answer with content.
pub open spec fn success(status: u16) -> bool {
    200 <= status < 300
}

pub fn is_client_error(status: u16) -> (r: bool)
    ensures
        r == client_error(status),
{
    400 <= status && status < 500
}

pub fn is_success(status: u16) -> (r: bool)
    ensures
        r == success(status),
{
    200 <= status && status < 300
}

/// What is wrong with the status of an answer to a search request; nothing where the
/// answer can be read. `line` is the status with its words, `detail` what the server
/// said.
pub open spec fn search_objection(status: u16, line: Seq<char>, detail: Seq<char>) -> Option<Seq<char>> {
    if status == 429 {
        Some("rate limited (429) on search page"@)
    } else if client_error(status) {
        let shown = if detail.len() > 300 {
            detail.take(300)
        } else {
            detail
        };
        Some(
            "search page http status "@ + line
                + " -- the request body is wrong, not the network; retrying will not help. Server said: "@ + shown,
        )
    } else if !success(status) {
        Some("search page http status "@ + line)
    } else {
        None
    }
}

/// Whether what the server said in an answer to a search request matters.
pub fn wants_detail(status: u16) -> (r: bool)
    ensures
        r == (status != 429 && client_error(status)),
        r ==> 400 <= status <= 499,
        !r ==> status == 429 || status < 400 || status > 499,
{
    status != 429 && is_client_error(status)
}

/// Judges the status of an answer to a search request.
pub fn judge_search(status: u16, line: &str, detail: &str) -> (r: Option<String>)
    ensures
        search_objection(status, line@, detail@) == match r {
            Some(message) => Some(message@),
            None => None,
        },
        r is None <==> 200 <= status <= 299,
{
    if status == 429 {
        Some("rate limited (429) on search page".to_owned())
    } else if is_client_error(status) {
        Some(
            "search page http status ".to_owned().concat(line).concat(
                " -- the request body is wrong, not the network; retrying will not help. Server said: ",
            ).concat(first_chars(detail, 300).as_str()),
        )
    } else if !is_success(status) {
        Some("search page http status ".to_owned().concat(line))
    } else {
        None
    }
}

/// Whether a search request that failed is sent again: not where the request is at
/// fault, and not after the last retry.
pub open spec fn search_retry(made: u32, max_retries: u32, message: Seq<char>) -> Option<int> {
    if holds(message, "request body is wrong"@) || made + 1 > max_retries {
        None
    } else {
        Some(made + 1)
    }
}

/// Decides what follows a search request that failed: the number of the retry, or
/// nothing where it has failed for good.
pub fn retry_search(made: u32, max_retries: u32, message: &str) -> (r: Option<u32>)
    requires
        made < u32::MAX,
    ensures
        search_retry(made, max_retries, message@) == match r {
            Some(n) => Some(n as int),
            None => None,
        },
        made < max_retries && !holds(message@, "request body is wrong"@) ==> r == Some((made + 1) as u32),
        made >= max_retries || holds(message@, "request body is wrong"@) ==> r is None,
{
    if contains(message, "request body is wrong") || made + 1 > max_retries {
        None
    } else {
        Some(made + 1)
    }
}

/// A request that the server calls wrong is not sent again, however many retries are
/// left. A rate limit is no such answer.
pub proof fn law_wrong_requests_are_not_repeated(
    status: u16,
    line: Seq<char>,
    detail: Seq<char>,
    made: u32,
    max_retries: u32,
)
    requires
        client_error(status),
    ensures
        search_objection(status, line, detail) is Some,
        status != 429 ==> search_retry(made, max_retries, search_objection(status, line, detail)->0) is None,
        status == 429 && made < max_retries ==> search_retry(
            made,
            max_retries,
            search_objection(status, line, detail)->0,
        ) == Some(made + 1),
{
    let message = search_objection(status, line, detail)->0;
    let part = "request body is wrong"@;
    reveal_strlit("request body is wrong");
    reveal_strlit("rate limited (429) on search page");
    reveal_strlit("search page http status ");
    reveal_strlit(" -- the request body is wrong, not the network; retrying will not help. Server said: ");
    if status == 429 {
        assert(!holds(message, part)) by {
            assert forall|i: int| !crate::text::holds_at(message, part, i) by {
                if crate::text::holds_at(message, part, i) {
                    assert(message.subrange(i, i + part.len())[0] == part[0]);
                    assert(message.subrange(i, i + part.len())[2] == part[2]);
                    assert(message[i] == 'r' && message[i + 2] == 'q');
                }
            }
        }
    } else {
        let at: int = "search page http status "@.len() + line.len() + 8int;
        assert(message.subrange(at, at + part.len()) =~= part);
        assert(crate::text::holds_at(message, part, at));
    }
}

/// The tokens of listings.
pub open spec fn tokens(list: Seq<(Seq<char>, Seq<char>)>) -> Seq<Seq<char>> {
    list.map_values(|p: (Seq<char>, Seq<char>)| p.0)
}

/// `list` with each listing of `more` added whose token is not there yet.
pub open spec fn with_fresh(
    list: Seq<(Seq<char>, Seq<char>)>,
    more: Seq<(Seq<char>, Seq<char>)>,
) -> Seq<(Seq<char>, Seq<char>)>
    decreases more.len(),
{
    if more.len() == 0 {
        list
    } else {
        let front = with_fresh(list, more.drop_last());
        if tokens(front).contains(more.last().0) {
            front
        } else {
            front.push(more.last())
        }
    }
}

/// Adding listings keeps those there are at their places.
pub proof fn lemma_fresh_extends(list: Seq<(Seq<char>, Seq<char>)>, more: Seq<(Seq<char>, Seq<char>)>)
    ensures
        list.len() <= with_fresh(list, more).len() <= list.len() + more.len(),
        with_fresh(list, more).take(list.len() as int) == list,
    decreases more.len(),
{
    if more.len() > 0 {
        lemma_fresh_extends(list, more.drop_last());
        let front = with_fresh(list, more.drop_last());
        assert(with_fresh(list, more).take(list.len() as int) =~= front.take(list.len() as int));
    } else {
        assert(list.take(list.len() as int) =~= list);
    }
}

/// Listings, each token once, in the order in which they were found.
pub struct Listings {
    found: Vec<(String, String)>,
    seen: TokenSet,
}

impl View for Listings {
    type V = Seq<(Seq<char>, Seq<char>)>;

    closed spec fn view(&self) -> Seq<(Seq<char>, Seq<char>)> {
        listing_views(self.found@)
    }
}

impl Listings {
    #[verifier::type_invariant]
    spec fn well_formed(self) -> bool {
        &&& self.seen@ == tokens(listing_views(self.found@)).to_set()
        &&& tokens(listing_views(self.found@)).no_duplicates()
    }

    pub fn new() -> (r: Self)
        ensures
            r@ == Seq::<(Seq<char>, Seq<char>)>::empty(),
    {
        let found: Vec<(String, String)> = Vec::new();
        let seen = TokenSet::new();
        assert(tokens(listing_views(found@)) =~= Seq::empty());
        assert(seen@ =~= tokens(listing_views(found@)).to_set());
        let r = Listings { found, seen };
        assert(r@ =~= Seq::<(Seq<char>, Seq<char>)>::empty());
        r
    }

    pub fn len(&self) -> (r: usize)
        ensures
            r == self@.len(),
    {
        self.found.len()
    }

    pub fn is_empty(&self) -> (r: bool)
        ensures
            r == (self@.len() == 0),
    {
        self.found.len() == 0
    }

    /// Adds the listings that are new.
    pub fn add_fresh(&mut self, more: Vec<(String, String)>)
        ensures
            final(self)@ == with_fresh(old(self)@, listing_views(more@)),
    {
        let ghost start = self@;
        let ghost all = listing_views(more@);
        proof {
            use_type_invariant(&*self);
        }
        let mut found: Vec<(String, String)> = Vec::new();
        let mut known = TokenSet::new();
        proof {
            assert(tokens(listing_views(found@)) =~= Seq::empty());
            assert(known@ =~= tokens(listing_views(found@)).to_set());
            assert(all.take(0) =~= Seq::empty());
        }
        let mut fresh = Listings { found, seen: known };
        std::mem::swap(self, &mut fresh);
        proof {
            use_type_invariant(&fresh);
        }
        found = fresh.found;
        known = fresh.seen;
        for p in it: more.into_iter()
            invariant
                all == listing_views(it.seq()),
                listing_views(found@) == with_fresh(start, all.take(it.index() as int)),
                known@ == tokens(listing_views(found@)).to_set(),
                tokens(listing_views(found@)).no_duplicates(),
        {
            let ghost k = it.index() as int;
            let ghost before = listing_views(found@);
            let ghost now = (p.0@, p.1@);
            proof {
                assert(all[k] == now);
                assert(all.take(k + 1).drop_last() =~= all.take(k));
                assert(all.take(k + 1).last() == now);
            }
            if known.insert(p.0.clone()) {
                found.push(p);
                proof {
                    assert(listing_views(found@) =~= before.push(now));
                    let old_tokens = tokens(before);
                    let new_tokens = tokens(listing_views(found@));
                    assert(new_tokens =~= old_tokens.push(now.0));
                    crate::seqs::lemma_to_set_step(new_tokens, old_tokens.len() as int);
                    assert(new_tokens.take(old_tokens.len() as int) =~= old_tokens);
                    assert(new_tokens.take(old_tokens.len() as int + 1) =~= new_tokens);
                }
            } else {
                assert(known@ =~= tokens(before).to_set());
            }
        }
        assert(all.take(all.len() as int) =~= all);
        *self = Listings { found, seen: known };
    }

    /// The listings, no more than `most` of them. No token occurs twice.
    pub fn into_list(self, most: usize) -> (r: Vec<(String, String)>)
        ensures
            listing_views(r@) == if self@.len() <= most {
                self@
            } else {
                self@.take(most as int)
            },
            tokens(listing_views(r@)).no_duplicates(),
    {
        proof {
            use_type_invariant(&self);
        }
        let ghost all = self@;
        let mut out = self.found;
        if out.len() > most {
            out.truncate(most);
            assert(listing_views(out@) =~= all.take(most as int));
            assert(tokens(listing_views(out@)) =~= tokens(all).take(most as int));
        }
        out
    }
}

/// Another page follows.
pub open spec fn has_next(page: JsonView) -> bool {
    within(member(page, "pagination"@), "has_next_page"@) == Some(JsonView::Bool(true))
}

fn is_true(v: Option<&Json>) -> (r: bool)
    ensures
        r == (seen(v) == Some(JsonView::Bool(true))),
{
    match v {
        Some(j) => match j {
            Json::Bool(b) => *b,
            _ => false,
        },
        None => false,
    }
}

fn copy_or_null(v: Option<&Json>) -> (r: Json)
    ensures
        r@ == seen(v).unwrap_or(JsonView::Null),
{
    match v {
        Some(j) => j.duplicate(),
        None => Json::Null,
    }
}

/// What a page says of where the feed goes on.
pub open spec fn left_off(page: JsonView) -> (JsonView, JsonView) {
    (
        member(page, "search_data"@).unwrap_or(JsonView::Null),
        within(member(page, "pagination"@), "data"@).unwrap_or(JsonView::Null),
    )
}

/// What follows a page.
#[derive(Clone, Copy, Debug, PartialEq)]
pub enum Turn {
    /// As many listings as were wanted are there.
    Enough,
    /// The feed has no more, or has repeated itself for too long.
    Exhausted,
    /// The next page is to be asked for.
    More,
}

/// How many pages in a row brought nothing new.
pub open spec fn stale(stale_before: nat, fresh: bool) -> nat {
    if fresh {
        0
    } else {
        stale_before + 1
    }
}

/// What follows a page after which there are `found` listings of `wanted`.
pub open spec fn turn(found: nat, wanted: nat, page: JsonView, stale_pages: nat) -> Turn {
    if found >= wanted {
        Turn::Enough
    } else if !has_next(page) || stale_pages >= 3 {
        Turn::Exhausted
    } else {
        Turn::More
    }
}

/// A walk along the feed. A page of listings that are all known is no proof that the
/// feed has ended, so a few are put up with.
pub struct Walk {
    wanted: usize,
    found: Listings,
    empty_pages: u32,
    prev: Option<(Json, Json)>,
}

impl Walk {
    pub closed spec fn limit(self) -> nat {
        self.wanted as nat
    }

    /// The listings found so far.
    pub closed spec fn listed(self) -> Seq<(Seq<char>, Seq<char>)> {
        self.found@
    }

    /// How many pages in a row have brought nothing new.
    pub closed spec fn stale_pages(self) -> nat {
        self.empty_pages as nat
    }

    /// Where the feed goes on.
    pub closed spec fn next_state(self) -> Option<(JsonView, JsonView)> {
        match self.prev {
            Some((search_data, page)) => Some((search_data@, page@)),
            None => None,
        }
    }

    pub fn new(wanted: usize) -> (r: Self)
        ensures
            r.limit() == wanted,
            r.listed() == Seq::<(Seq<char>, Seq<char>)>::empty(),
            r.stale_pages() == 0,
            r.next_state() is None,
    {
        Walk { wanted, found: Listings::new(), empty_pages: 0, prev: None }
    }

    /// How many listings have been found.
    pub fn count(&self) -> (r: usize)
        ensures
            r == self.listed().len(),
    {
        self.found.len()
    }

    /// The request for the next page.
    pub fn body(&self, city: &CityMode, category: &str) -> (r: Json)
        ensures
            r@ == request(city@, category@, self.next_state()),
            crate::search::asked_category(member(r@, "search_data"@)) == Some(category@),
    {
        match &self.prev {
            Some(p) => search_body(city, category, Some((&p.0, &p.1))),
            None => search_body(city, category, None),
        }
    }

    /// Takes the next page.
    pub fn page(&mut self, page: &Json) -> (r: Turn)
        requires
            old(self).stale_pages() < 3,
        ensures
            final(self).limit() == old(self).limit(),
            final(self).listed() == with_fresh(old(self).listed(), listings(page@)),
            final(self).stale_pages() == stale(
                old(self).stale_pages(),
                final(self).listed().len() > old(self).listed().len(),
            ),
            r == turn(final(self).listed().len(), old(self).limit(), page@, final(self).stale_pages()),
            final(self).next_state() == if r == Turn::More {
                Some(left_off(page@))
            } else {
                old(self).next_state()
            },
    {
        let before = self.found.len();
        let list = page_listings(page);
        self.found.add_fresh(list);
        proof {
            lemma_fresh_extends(old(self).listed(), listings(page@));
        }
        if self.found.len() > before {
            self.empty_pages = 0;
        } else {
            self.empty_pages = self.empty_pages + 1;
        }
        if self.found.len() >= self.wanted {
            return Turn::Enough;
        }
        let pagination = page.get("pagination");
        if !is_true(get_within(pagination, "has_next_page")) || self.empty_pages >= 3 {
            return Turn::Exhausted;
        }
        self.prev = Some((copy_or_null(page.get("search_data")), copy_or_null(get_within(pagination, "data"))));
        Turn::More
    }

    /// What was found, no more than was wanted, each token once.
    pub fn finish(self) -> (r: Vec<(String, String)>)
        ensures
            listing_views(r@) == if self.listed().len() <= self.limit() {
                self.listed()
            } else {
                self.listed().take(self.limit() as int)
            },
            r@.len() <= self.limit(),
            tokens(listing_views(r@)).no_duplicates(),
    {
        let most = self.wanted;
        let r = self.found.into_list(most);
        assert(r@.len() == listing_views(r@).len());
        r
    }
}

/// How many listings the category at place `index` of `categories` is asked for: its
/// share of what is left, at least one, and for the last category all of it. Nothing
/// where nothing is left.
pub open spec fn share(count: nat, collected: nat, categories: nat, index: nat) -> Option<nat> {
    if collected >= count {
        None
    } else if index + 1 == categories {
        Some((count - collected) as nat)
    } else {
        let even = (count - collected) / (categories - index);
        if even < 1 {
            Some(1nat)
        } else {
            Some(even as nat)
        }
    }
}

/// Divides the budget between categories; what one of them lacks goes to the rest.
pub fn category_share(count: usize, collected: usize, categories: usize, index: usize) -> (r: Option<usize>)
    requires
        index < categories,
    ensures
        share(count as nat, collected as nat, categories as nat, index as nat) == match r {
            Some(n) => Some(n as nat),
            None => None,
        },
        r is None <==> collected >= count,
        r matches Some(n) ==> 1 <= n && collected + n <= count,
{
    if collected >= count {
        return None;
    }
    let remaining = count - collected;
    if index + 1 == categories {
        return Some(remaining);
    }
    let even = remaining / (categories - index);
    proof {
        assert(even <= remaining) by (nonlinear_arith)
            requires
                even == remaining as int / (categories - index),
                categories - index >= 1,
                remaining >= 0,
        ;
    }
    if even < 1 {
        Some(1)
    } else {
        Some(even)
    }
}

/// No category is asked for more than is left, so no run collects more than was asked
/// for; each is asked for something; the last is asked for all that is left.
pub proof fn law_budget(count: nat, collected: nat, categories: nat, index: nat)
    requires
        index < categories,
    ensures
        share(count, collected, categories, index) is None <==> collected >= count,
        share(count, collected, categories, index) matches Some(n) ==> 1 <= n && collected + n <= count,
        collected < count && index + 1 == categories ==> share(count, collected, categories, index) == Some(
            (count - collected) as nat,
        ),
{
    if collected < count {
        let left = count - collected;
        let parts = categories - index;
        assert(left / parts <= left) by (nonlinear_arith)
            requires
                left >= 0,
                parts >= 1,
        ;
    }
}

/// The tokens of listings that are not there yet, in their order.
pub fn tokens_to_fetch(list: &Vec<(String, String)>, have: &TokenSet) -> (r: Vec<String>)
    ensures
        texts(r@) == missing(tokens(listing_views(list@)), have@),
{
    let mut all: Vec<String> = Vec::new();
    for i in 0..list.len()
        invariant
            all@.len() == i,
            forall|j: int| 0 <= j < i ==> (#[trigger] all@[j])@ == list@[j].0@,
    {
        all.push(list[i].0.clone());
    }
    assert(texts(all@) =~= tokens(listing_views(list@)));
    missing_tokens(&all, have)
}

/// A run that is taken up again fetches nothing that is there, leaves nothing out that
/// is not, and fetches no listing twice.
pub proof fn law_resume(list: Seq<(Seq<char>, Seq<char>)>, have: Set<Seq<char>>)
    requires
        tokens(list).no_duplicates(),
    ensures
        forall|t: Seq<char>|
            #[trigger] missing(tokens(list), have).contains(t) <==> tokens(list).contains(t) && !have.contains(t),
        missing(tokens(list), have).no_duplicates(),
{
    let all = tokens(list);
    let keep = |t: Seq<char>| !have.contains(t);
    crate::seqs::lemma_filter_members(all, keep);
    crate::seqs::lemma_filter_no_duplicates(all, keep);
}

/// A listing that the raw store speaks of is not fetched again.
pub proof fn law_stored_listing_is_not_fetched(
    list: Seq<(Seq<char>, Seq<char>)>,
    raw_lines: Seq<Seq<char>>,
    i: int,
    token: Seq<char>,
)
    requires
        readable(raw_lines),
        0 <= i < raw_lines.len(),
        speaks_of(raw_lines[i], token),
    ensures
        !missing(tokens(list), tokens_of(records(raw_lines)).to_set()).contains(token),
{
    let have = tokens_of(records(raw_lines)).to_set();
    law_stored_listing_is_found(raw_lines, i, token);
    crate::seqs::lemma_filter_members(tokens(list), |t: Seq<char>| !have.contains(t));
}

/// Takes the first listings out, to be fetched and looked at before the rest.
pub fn split_pilot(todo: Vec<String>, pilot: usize) -> (r: (Vec<String>, Vec<String>))
    ensures
        pilot <= todo@.len() ==> r.0@ == todo@.take(pilot as int) && r.1@ == todo@.skip(pilot as int),
        pilot > todo@.len() ==> r.0@ == todo@ && r.1@ == Seq::<String>::empty(),
        r.0@ + r.1@ == todo@,
        r.0@.len() <= pilot,
        r.1@.len() > 0 ==> r.0@.len() == pilot,
{
    let mut first = todo;
    let n = if pilot < first.len() {
        pilot
    } else {
        first.len()
    };
    let ghost all = first@;
    let rest = first.split_off(n);
    assert(all.take(all.len() as int) =~= all);
    assert(all.skip(all.len() as int) =~= Seq::<String>::empty());
    assert(first@ + rest@ =~= all);
    (first, rest)
}

} // verus!
