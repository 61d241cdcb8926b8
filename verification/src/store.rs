//! The stores: one JSON record per line.

use vstd::prelude::*;
use vstd::hash_set::StringHashSet;
use vstd::utf8::{decode_utf8, valid_utf8};
use crate::codec::{parse_json, parsed};
use crate::json::{member, text, trees, Json, JsonView};
use crate::text::{is_blank, texts, trimmed};

verus! {

/// A set of tokens.
pub struct TokenSet {
    inner: StringHashSet,
}

impl View for TokenSet {
    type V = Set<Seq<char>>;

    closed spec fn view(&self) -> Set<Seq<char>> {
        self.inner@
    }
}

impl TokenSet {
    pub fn new() -> (r: Self)
        ensures
            r@ == Set::<Seq<char>>::empty(),
    {
        TokenSet { inner: StringHashSet::new() }
    }

    /// Adds a token; says whether it is new.
    pub fn insert(&mut self, token: String) -> (r: bool)
        ensures
            final(self)@ == old(self)@.insert(token@),
            r == !old(self)@.contains(token@),
    {
        self.inner.insert(token)
    }

    pub fn contains(&self, token: &str) -> (r: bool)
        ensures
            r == self@.contains(token@),
    {
        self.inner.contains(token)
    }

    pub fn is_empty(&self) -> (r: bool)
        ensures
            r == self@.is_empty(),
    {
        self.inner.is_empty()
    }

    pub fn len(&self) -> (r: usize)
        ensures
            r == self@.len(),
    {
        self.inner.len()
    }

    /// The set of the tokens in a list.
    pub fn from_list(list: &Vec<String>) -> (r: Self)
        ensures
            r@ == texts(list@).to_set(),
    {
        let mut out = TokenSet::new();
        assert(out@ =~= texts(list@).take(0).to_set());
        for i in 0..list.len()
            invariant
                out@ == texts(list@).take(i as int).to_set(),
        {
            out.insert(list[i].clone());
            proof {
                assert(texts(list@)[i as int] == list@[i as int]@);
                crate::seqs::lemma_to_set_step(texts(list@), i as int);
            }
        }
        assert(texts(list@).take(list@.len() as int) =~= texts(list@));
        out
    }
}

/// A line that says nothing.
pub open spec fn blank(line: Seq<char>) -> bool {
    trimmed(line).len() == 0
}

/// A line that is neither blank nor JSON.
pub open spec fn corrupt(line: Seq<char>) -> bool {
    !blank(line) && parsed(line) is Err
}

/// The first line that is neither blank nor JSON stands at `at`.
pub open spec fn first_corrupt(lines: Seq<Seq<char>>, at: int) -> bool {
    &&& 0 <= at < lines.len()
    &&& corrupt(lines[at])
    &&& forall|i: int| 0 <= i < at ==> !corrupt(#[trigger] lines[i])
}

/// No line is corrupt.
pub open spec fn readable(lines: Seq<Seq<char>>) -> bool {
    forall|i: int| 0 <= i < lines.len() ==> !corrupt(#[trigger] lines[i])
}

/// The records of the lines that hold one.
pub open spec fn records(lines: Seq<Seq<char>>) -> Seq<JsonView>
    decreases lines.len(),
{
    if lines.len() == 0 {
        Seq::empty()
    } else {
        let front = records(lines.drop_last());
        if blank(lines.last()) {
            front
        } else {
            match parsed(lines.last()) {
                Ok(v) => front.push(v),
                Err(_) => front,
            }
        }
    }
}

/// The token of a record.
pub open spec fn token_of(v: JsonView) -> Option<Seq<char>> {
    text(member(v, "token"@))
}

/// The tokens of the records that have one.
pub open spec fn tokens_of(list: Seq<JsonView>) -> Seq<Seq<char>>
    decreases list.len(),
{
    if list.len() == 0 {
        Seq::empty()
    } else {
        match token_of(list.last()) {
            Some(t) => tokens_of(list.drop_last()).push(t),
            None => tokens_of(list.drop_last()),
        }
    }
}

/// A line of a store that is no JSON, and why.
#[derive(Debug, PartialEq)]
pub struct BadLine {
    pub at: usize,
    pub message: String,
}

/// `e` is about the first corrupt line.
pub open spec fn blames(e: BadLine, lines: Seq<Seq<char>>) -> bool {
    first_corrupt(lines, e.at as int) && parsed(lines[e.at as int]) == Err::<JsonView, Seq<char>>(e.message@)
}

/// The token of a record.
pub fn record_token(v: &Json) -> (r: Option<&str>)
    ensures
        token_of(v@) == match r {
            Some(t) => Some(t@),
            None => None,
        },
{
    match v.get("token") {
        Some(t) => t.as_str(),
        None => None,
    }
}

/// Reads the records of a store.
pub fn read_jsonl(lines: &Vec<String>) -> (r: Result<Vec<Json>, BadLine>)
    ensures
        match r {
            Ok(list) => readable(texts(lines@)) && trees(list@) == records(texts(lines@)),
            Err(e) => blames(e, texts(lines@)),
        },
{
    let ghost all = texts(lines@);
    let mut out: Vec<Json> = Vec::new();
    assert(trees(out@) =~= records(all.take(0)));
    for i in 0..lines.len()
        invariant
            all == texts(lines@),
            forall|j: int| 0 <= j < i ==> !corrupt(#[trigger] all[j]),
            trees(out@) == records(all.take(i as int)),
    {
        let line = lines[i].as_str();
        proof {
            assert(all[i as int] == line@);
            assert(all.take(i + 1).drop_last() =~= all.take(i as int));
            assert(all.take(i + 1).last() == line@);
        }
        if !is_blank(line) {
            match parse_json(line) {
                Ok(v) => {
                    let ghost before = trees(out@);
                    let ghost now = v@;
                    out.push(v);
                    assert(trees(out@) =~= before.push(now));
                },
                Err(e) => {
                    return Err(BadLine { at: i, message: e.message });
                },
            }
        }
    }
    assert(all.take(lines@.len() as int) =~= all);
    Ok(out)
}

/// Reads the records of a store that may be damaged: lines that are no JSON are passed
/// over.
pub fn salvage(lines: &Vec<String>) -> (r: Vec<Json>)
    ensures
        trees(r@) == records(texts(lines@)),
{
    let ghost all = texts(lines@);
    let mut out: Vec<Json> = Vec::new();
    assert(trees(out@) =~= records(all.take(0)));
    for i in 0..lines.len()
        invariant
            all == texts(lines@),
            trees(out@) == records(all.take(i as int)),
    {
        let line = lines[i].as_str();
        proof {
            assert(all.take(i + 1).drop_last() =~= all.take(i as int));
            assert(all.take(i + 1).last() == line@);
        }
        if !is_blank(line) {
            match parse_json(line) {
                Ok(v) => {
                    let ghost before = trees(out@);
                    let ghost now = v@;
                    out.push(v);
                    assert(trees(out@) =~= before.push(now));
                },
                Err(_) => {},
            }
        }
    }
    assert(all.take(lines@.len() as int) =~= all);
    out
}

/// The tokens that a store holds.
pub fn tokens_in(lines: &Vec<String>) -> (r: Result<TokenSet, BadLine>)
    ensures
        match r {
            Ok(set) => readable(texts(lines@)) && set@ == tokens_of(records(texts(lines@))).to_set(),
            Err(e) => blames(e, texts(lines@)),
        },
{
    let list = match read_jsonl(lines) {
        Ok(list) => list,
        Err(e) => return Err(e),
    };
    let tokens = list_tokens(&list);
    Ok(TokenSet::from_list(&tokens))
}

/// The tokens of records, in their order.
pub fn list_tokens(list: &Vec<Json>) -> (r: Vec<String>)
    ensures
        texts(r@) == tokens_of(trees(list@)),
{
    let ghost all = trees(list@);
    let mut out: Vec<String> = Vec::new();
    assert(texts(out@) =~= tokens_of(all.take(0)));
    for i in 0..list.len()
        invariant
            all == trees(list@),
            texts(out@) == tokens_of(all.take(i as int)),
    {
        proof {
            assert(all.take(i + 1).drop_last() =~= all.take(i as int));
            assert(all.take(i + 1).last() == list@[i as int]@);
        }
        match record_token(&list[i]) {
            Some(t) => {
                let ghost before = texts(out@);
                out.push(t.to_owned());
                assert(texts(out@) =~= before.push(t@));
            },
            None => {},
        }
    }
    assert(all.take(list@.len() as int) =~= all);
    out
}

/// The tokens of `list` that are not in `have`.
pub open spec fn missing(list: Seq<Seq<char>>, have: Set<Seq<char>>) -> Seq<Seq<char>> {
    list.filter(|t: Seq<char>| !have.contains(t))
}

/// Leaves out of a list the tokens that are there already.
pub fn missing_tokens(list: &Vec<String>, have: &TokenSet) -> (r: Vec<String>)
    ensures
        texts(r@) == missing(texts(list@), have@),
{
    let ghost all = texts(list@);
    let ghost keep = |t: Seq<char>| !have@.contains(t);
    let mut out: Vec<String> = Vec::new();
    assert(texts(out@) =~= all.take(0).filter(keep)) by {
        reveal(Seq::filter);
    }
    for i in 0..list.len()
        invariant
            all == texts(list@),
            keep == (|t: Seq<char>| !have@.contains(t)),
            texts(out@) == all.take(i as int).filter(keep),
    {
        proof {
            assert(all[i as int] == list@[i as int]@);
            crate::seqs::lemma_filter_step(all, keep, i as int);
        }
        if !have.contains(list[i].as_str()) {
            let ghost before = texts(out@);
            out.push(list[i].clone());
            assert(texts(out@) =~= before.push(all[i as int]));
        }
    }
    assert(all.take(list@.len() as int) =~= all);
    out
}

/// A store with a line that is no JSON.
#[derive(Debug, PartialEq)]
pub enum StoreError {
    Raw(BadLine),
    Failures(BadLine),
}

/// The tokens still owed: those of the failure store that the raw store lacks.
pub fn outstanding_failures(raw_lines: &Vec<String>, failure_lines: &Vec<String>) -> (r: Result<Vec<String>, StoreError>)
    ensures
        match r {
            Ok(list) => {
                &&& readable(texts(raw_lines@))
                &&& readable(texts(failure_lines@))
                &&& texts(list@) == missing(
                    tokens_of(records(texts(failure_lines@))),
                    tokens_of(records(texts(raw_lines@))).to_set(),
                )
            },
            Err(StoreError::Raw(e)) => blames(e, texts(raw_lines@)),
            Err(StoreError::Failures(e)) => readable(texts(raw_lines@)) && blames(e, texts(failure_lines@)),
        },
{
    let have = match tokens_in(raw_lines) {
        Ok(set) => set,
        Err(e) => return Err(StoreError::Raw(e)),
    };
    let list = match read_jsonl(failure_lines) {
        Ok(list) => list,
        Err(e) => return Err(StoreError::Failures(e)),
    };
    let tokens = list_tokens(&list);
    Ok(missing_tokens(&tokens, &have))
}

/// Which records of a store are asked for.
#[derive(Clone, Copy, Debug, PartialEq)]
pub enum Keep {
    Every,
    Removed,
}

/// The record is asked for.
pub open spec fn wanted(keep: Keep, v: JsonView) -> bool {
    match keep {
        Keep::Every => true,
        Keep::Removed => text(member(v, "status"@)) == Some("removed"@),
    }
}

/// The tokens of the lines that hold a record that is asked for.
pub open spec fn wanted_tokens(keep: Keep, lines: Seq<Seq<char>>) -> Seq<Seq<char>> {
    tokens_of(records(lines).filter(|v: JsonView| wanted(keep, v)))
}

fn is_wanted(keep: Keep, v: &Json) -> (r: bool)
    ensures
        r == wanted(keep, v@),
{
    match keep {
        Keep::Every => true,
        Keep::Removed => match v.get("status") {
            Some(x) => match x.as_str() {
                Some(t) => crate::text::same(t, "removed"),
                None => false,
            },
            None => false,
        },
    }
}

/// A pass over a store, line by line, that gathers tokens.
pub struct TokenScan {
    pub keep: Keep,
    pub tokens: Vec<String>,
}

impl TokenScan {
    pub fn new(keep: Keep) -> (r: Self)
        ensures
            r.keep == keep,
            texts(r.tokens@) == Seq::<Seq<char>>::empty(),
    {
        let r = TokenScan { keep, tokens: Vec::new() };
        assert(texts(r.tokens@) =~= Seq::<Seq<char>>::empty());
        r
    }

    /// Takes the next line. A last line that is no JSON may be one that is being
    /// written, and ends the pass: the answer is false. Elsewhere such a line is
    /// an error.
    pub fn line(&mut self, line: &str, last: bool) -> (r: Result<bool, crate::codec::NotJson>)
        ensures
            final(self).keep == old(self).keep,
            match r {
                Ok(true) => {
                    &&& !corrupt(line@)
                    &&& texts(final(self).tokens@) == texts(old(self).tokens@) + wanted_tokens(
                        old(self).keep,
                        seq![line@],
                    )
                },
                Ok(false) => last && corrupt(line@) && final(self).tokens@ == old(self).tokens@,
                Err(e) => {
                    &&& !last
                    &&& corrupt(line@)
                    &&& parsed(line@) == Err::<JsonView, Seq<char>>(e.message@)
                    &&& final(self).tokens@ == old(self).tokens@
                },
            },
    {
        let ghost start = texts(self.tokens@);
        proof {
            lemma_one_line(self.keep, line@);
            assert(start + Seq::<Seq<char>>::empty() =~= start);
        }
        if is_blank(line) {
            return Ok(true);
        }
        match parse_json(line) {
            Ok(v) => {
                if is_wanted(self.keep, &v) {
                    match record_token(&v) {
                        Some(t) => {
                            self.tokens.push(t.to_owned());
                            assert(texts(self.tokens@) =~= start + seq![t@]);
                        },
                        None => {},
                    }
                }
                Ok(true)
            },
            Err(e) => if last {
                Ok(false)
            } else {
                Err(e)
            },
        }
    }
}

/// What one line gives.
proof fn lemma_one_line(keep: Keep, line: Seq<char>)
    ensures
        wanted_tokens(keep, seq![line]) == if blank(line) || parsed(line) is Err || !wanted(keep, parsed(line)->Ok_0) {
            Seq::empty()
        } else {
            match token_of(parsed(line)->Ok_0) {
                Some(t) => seq![t],
                None => Seq::empty(),
            }
        },
{
    let one = seq![line];
    let f = |v: JsonView| wanted(keep, v);
    assert(one.drop_last() =~= Seq::empty());
    assert(records(one.drop_last()) =~= Seq::empty());
    reveal(Seq::filter);
    if !(blank(line) || parsed(line) is Err) {
        let v = parsed(line)->Ok_0;
        assert(records(one) =~= seq![v]);
        assert(seq![v].drop_last() =~= Seq::empty());
        assert(seq![v].drop_last().filter(f) =~= Seq::empty());
        if f(v) {
            assert(seq![v].filter(f) =~= seq![v]);
            assert(tokens_of(seq![v].drop_last()) =~= Seq::empty());
        } else {
            assert(seq![v].filter(f) =~= Seq::empty());
        }
    }
}

/// What one line more gives.
proof fn lemma_wanted_step(keep: Keep, lines: Seq<Seq<char>>, i: int)
    requires
        0 <= i < lines.len(),
    ensures
        wanted_tokens(keep, lines.take(i + 1)) == wanted_tokens(keep, lines.take(i)) + wanted_tokens(
            keep,
            seq![lines[i]],
        ),
{
    let f = |v: JsonView| wanted(keep, v);
    let line = lines[i];
    let front = records(lines.take(i));
    lemma_one_line(keep, line);
    assert(lines.take(i + 1).drop_last() =~= lines.take(i));
    assert(lines.take(i + 1).last() == line);
    assert(tokens_of(front.filter(f)) + Seq::empty() =~= tokens_of(front.filter(f)));
    if !(blank(line) || parsed(line) is Err) {
        let v = parsed(line)->Ok_0;
        reveal(Seq::filter);
        assert(front.push(v).drop_last() =~= front);
        if f(v) {
            assert(front.push(v).filter(f) == front.filter(f).push(v));
            assert(front.filter(f).push(v).drop_last() =~= front.filter(f));
            if token_of(v) is Some {
                let t = token_of(v)->0;
                assert(tokens_of(front.filter(f)).push(t) =~= tokens_of(front.filter(f)) + seq![t]);
            }
        }
    }
}

/// A record that is asked for is found, wherever it stands in the store.
pub proof fn law_wanted_record_is_found(keep: Keep, lines: Seq<Seq<char>>, i: int, token: Seq<char>)
    requires
        0 <= i < lines.len(),
        !blank(lines[i]),
        parsed(lines[i]) matches Ok(v) && wanted(keep, v) && token_of(v) == Some(token),
    ensures
        wanted_tokens(keep, lines).contains(token),
{
    lemma_wanted_kept(keep, lines, i, lines.len() as int, token);
    assert(lines.take(lines.len() as int) =~= lines);
}

/// A line that is being written changes nothing: without it the tokens are the same.
pub proof fn law_torn_line_is_ignored(keep: Keep, lines: Seq<Seq<char>>, torn: Seq<char>)
    requires
        corrupt(torn),
    ensures
        wanted_tokens(keep, lines.push(torn)) == wanted_tokens(keep, lines),
{
    assert(lines.push(torn).drop_last() =~= lines);
    assert(lines.push(torn).last() == torn);
}

/// The same of bytes: a line that cannot be read, be it cut inside a letter, changes
/// nothing.
pub proof fn law_torn_bytes_are_ignored(keep: Keep, lines: Seq<Seq<u8>>, torn: Seq<u8>)
    requires
        unusable(torn),
    ensures
        wanted_tokens(keep, contents(lines.push(torn))) == wanted_tokens(keep, contents(lines)),
{
    assert(lines.push(torn).drop_last() =~= lines);
    assert(lines.push(torn).last() == torn);
    match content(torn) {
        Some(t) => {
            law_torn_line_is_ignored(keep, contents(lines), t);
        },
        None => {},
    }
}

proof fn lemma_wanted_kept(keep: Keep, lines: Seq<Seq<char>>, i: int, n: int, token: Seq<char>)
    requires
        0 <= i < n <= lines.len(),
        !blank(lines[i]),
        parsed(lines[i]) matches Ok(v) && wanted(keep, v) && token_of(v) == Some(token),
    ensures
        wanted_tokens(keep, lines.take(n)).contains(token),
    decreases n,
{
    let before = wanted_tokens(keep, lines.take(n - 1));
    let now = wanted_tokens(keep, seq![lines[n - 1]]);
    lemma_wanted_step(keep, lines, n - 1);
    if i == n - 1 {
        lemma_one_line(keep, lines[i]);
        assert((before + now)[before.len() as int] == token);
    } else {
        lemma_wanted_kept(keep, lines, i, n - 1, token);
        let k = choose|k: int| 0 <= k < before.len() && before[k] == token;
        assert((before + now)[k] == token);
    }
}

/// The error with which std refuses bytes that are no UTF-8.
#[verifier::external_type_specification]
#[verifier::external_body]
pub struct ExUtf8Error(std::str::Utf8Error);

/// `std::str::from_utf8`: the text that the bytes encode, or an error where they are no
/// UTF-8.
pub assume_specification[ std::str::from_utf8 ](bytes: &[u8]) -> (r: Result<&str, std::str::Utf8Error>)
    ensures
        match r {
            Ok(decoded) => valid_utf8(bytes@) && decoded@ == decode_utf8(bytes@),
            Err(_) => !valid_utf8(bytes@),
        },
;

/// The text of a line; none where its bytes are no UTF-8.
pub open spec fn content(line: Seq<u8>) -> Option<Seq<char>> {
    if valid_utf8(line) {
        Some(decode_utf8(line))
    } else {
        None
    }
}

/// A line that cannot be read: no text at all, or neither blank nor JSON.
pub open spec fn unusable(line: Seq<u8>) -> bool {
    match content(line) {
        Some(t) => corrupt(t),
        None => true,
    }
}

/// What is wrong with a line that cannot be read.
pub open spec fn complaint(line: Seq<u8>) -> Seq<char> {
    match content(line) {
        Some(t) => parsed(t)->Err_0,
        None => "stream did not contain valid UTF-8"@,
    }
}

/// The texts of the lines that are text.
pub open spec fn contents(lines: Seq<Seq<u8>>) -> Seq<Seq<char>>
    decreases lines.len(),
{
    if lines.len() == 0 {
        Seq::empty()
    } else {
        match content(lines.last()) {
            Some(t) => contents(lines.drop_last()).push(t),
            None => contents(lines.drop_last()),
        }
    }
}

/// What lines of bytes hold.
pub open spec fn byte_lines(lines: Seq<Vec<u8>>) -> Seq<Seq<u8>> {
    lines.map_values(|l: Vec<u8>| l@)
}

/// The texts of lines of bytes. Lines that are no UTF-8 are passed over.
pub fn text_lines(lines: &Vec<Vec<u8>>) -> (r: Vec<String>)
    ensures
        texts(r@) == contents(byte_lines(lines@)),
{
    let ghost all = byte_lines(lines@);
    let mut out: Vec<String> = Vec::new();
    assert(texts(out@) =~= contents(all.take(0)));
    for i in 0..lines.len()
        invariant
            all == byte_lines(lines@),
            texts(out@) == contents(all.take(i as int)),
    {
        proof {
            assert(all.take(i + 1).drop_last() =~= all.take(i as int));
            assert(all.take(i + 1).last() == lines@[i as int]@);
        }
        match std::str::from_utf8(lines[i].as_slice()) {
            Ok(decoded) => {
                let ghost before = texts(out@);
                out.push(decoded.to_owned());
                assert(texts(out@) =~= before.push(decoded@));
            },
            Err(_) => {},
        }
    }
    assert(all.take(lines@.len() as int) =~= all);
    out
}

impl TokenScan {
    /// Takes the bytes of the next line. A last line that cannot be read may be one that
    /// is being written, wherever the writer has got to, even inside a letter: it ends
    /// the pass, and the answer is false. Elsewhere such a line is an error.
    pub fn bytes(&mut self, line: &Vec<u8>, last: bool) -> (r: Result<bool, crate::codec::NotJson>)
        ensures
            final(self).keep == old(self).keep,
            match r {
                Ok(true) => {
                    &&& !unusable(line@)
                    &&& texts(final(self).tokens@) == texts(old(self).tokens@) + wanted_tokens(
                        old(self).keep,
                        seq![decode_utf8(line@)],
                    )
                },
                Ok(false) => last && unusable(line@) && final(self).tokens@ == old(self).tokens@,
                Err(e) => {
                    &&& !last
                    &&& unusable(line@)
                    &&& e.message@ == complaint(line@)
                    &&& final(self).tokens@ == old(self).tokens@
                },
            },
    {
        match std::str::from_utf8(line.as_slice()) {
            Ok(decoded) => self.line(decoded, last),
            Err(_) => if last {
                Ok(false)
            } else {
                Err(crate::codec::NotJson { message: "stream did not contain valid UTF-8".to_owned() })
            },
        }
    }
}

/// The tokens of a store's records, in the order of the file, from the bytes of its
/// lines. A last line that cannot be read is passed over: a crawl may be writing it.
pub fn tokens_where(lines: &Vec<Vec<u8>>, keep: Keep) -> (r: Result<Vec<String>, BadLine>)
    ensures
        match r {
            Ok(list) => {
                &&& forall|i: int| 0 <= i < lines@.len() - 1 ==> !unusable(#[trigger] byte_lines(lines@)[i])
                &&& texts(list@) == wanted_tokens(keep, contents(byte_lines(lines@)))
            },
            Err(e) => {
                &&& e.at < lines@.len() - 1
                &&& unusable(byte_lines(lines@)[e.at as int])
                &&& forall|i: int| 0 <= i < e.at ==> !unusable(#[trigger] byte_lines(lines@)[i])
                &&& e.message@ == complaint(byte_lines(lines@)[e.at as int])
            },
        },
{
    let ghost all = byte_lines(lines@);
    let mut scan = TokenScan::new(keep);
    proof {
        assert(all.take(0) =~= Seq::empty());
        assert(records(contents(all.take(0))) =~= Seq::empty());
        reveal(Seq::filter);
        assert(wanted_tokens(keep, contents(all.take(0))) =~= Seq::empty());
    }
    for i in 0..lines.len()
        invariant
            all == byte_lines(lines@),
            scan.keep == keep,
            forall|j: int| 0 <= j < i ==> !unusable(#[trigger] all[j]),
            texts(scan.tokens@) == wanted_tokens(keep, contents(all.take(i as int))),
    {
        let last = i + 1 == lines.len();
        let ghost before = contents(all.take(i as int));
        proof {
            assert(all[i as int] == lines@[i as int]@);
            assert(all.take(i + 1).drop_last() =~= all.take(i as int));
            assert(all.take(i + 1).last() == all[i as int]);
            match content(all[i as int]) {
                Some(t) => {
                    let after = before.push(t);
                    lemma_wanted_step(keep, after, before.len() as int);
                    assert(after.take(before.len() as int) =~= before);
                    assert(after.take(before.len() as int + 1) =~= after);
                },
                None => {},
            }
        }
        match scan.bytes(&lines[i], last) {
            Ok(true) => {},
            Ok(false) => {
                proof {
                    assert(all.take(i + 1) =~= all);
                    match content(all[i as int]) {
                        Some(t) => {
                            law_torn_line_is_ignored(keep, before, t);
                        },
                        None => {},
                    }
                }
                return Ok(scan.tokens);
            },
            Err(e) => {
                return Err(BadLine { at: i, message: e.message });
            },
        }
    }
    assert(all.take(lines@.len() as int) =~= all);
    Ok(scan.tokens)
}

} // verus!
