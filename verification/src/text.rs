//! Texts as sequences of characters: order, trimming, splitting, joining and
//! decimal numbers.

use vstd::prelude::*;
use vstd::string::StringExecFns;

verus! {

/// `a` and `b` agree before position `i`, and at `i` the first of them either
/// ends or holds the smaller character.
pub open spec fn splits_at(a: Seq<char>, b: Seq<char>, i: int) -> bool {
    &&& 0 <= i <= a.len()
    &&& i < b.len()
    &&& forall|j: int| 0 <= j < i ==> a[j] == b[j]
    &&& i < a.len() ==> (a[i] as int) < (b[i] as int)
}

/// Lexicographic order of texts by code point.
pub open spec fn precedes(a: Seq<char>, b: Seq<char>) -> bool {
    exists|i: int| splits_at(a, b, i)
}

/// How one text stands to another in lexicographic order.
#[derive(Clone, Copy, Debug, PartialEq, Eq, Structural)]
pub enum Rank {
    Before,
    Same,
    After,
}

fn code_point(c: char) -> (r: u32)
    ensures
        r as int == c as int,
{
    c as u32
}

/// Compares two texts by code point.
pub fn rank(a: &str, b: &str) -> (r: Rank)
    ensures
        r == Rank::Before <==> precedes(a@, b@),
        r == Rank::Same <==> a@ == b@,
        r == Rank::After <==> precedes(b@, a@),
{
    let mut left = a.chars();
    let mut right = b.chars();
    let ghost mut i: int = 0;
    loop
        invariant
            0 <= i <= a@.len(),
            i <= b@.len(),
            vstd::std_specs::iter::IteratorSpec::remaining(&left) == a@.skip(i),
            vstd::std_specs::iter::IteratorSpec::remaining(&right) == b@.skip(i),
            forall|j: int| 0 <= j < i ==> a@[j] == b@[j],
        decreases a@.len() - i,
    {
        let x = left.next();
        let y = right.next();
        proof {
            lemma_precedes_total(a@, b@);
        }
        match (x, y) {
            (None, None) => {
                assert(a@ == b@);
                proof { lemma_precedes_irreflexive(a@); }
                return Rank::Same;
            }
            (None, Some(_)) => {
                assert(splits_at(a@, b@, i));
                return Rank::Before;
            }
            (Some(_), None) => {
                assert(splits_at(b@, a@, i));
                return Rank::After;
            }
            (Some(c), Some(d)) => {
                if code_point(c) < code_point(d) {
                    assert(splits_at(a@, b@, i));
                    return Rank::Before;
                }
                if code_point(d) < code_point(c) {
                    assert(splits_at(b@, a@, i));
                    return Rank::After;
                }
                proof { i = i + 1; }
            }
        }
    }
}

pub proof fn lemma_precedes_irreflexive(a: Seq<char>)
    ensures
        !precedes(a, a),
{
}

pub proof fn lemma_precedes_transitive(a: Seq<char>, b: Seq<char>, c: Seq<char>)
    requires
        precedes(a, b),
        precedes(b, c),
    ensures
        precedes(a, c),
{
    let i = choose|i: int| splits_at(a, b, i);
    let j = choose|j: int| splits_at(b, c, j);
    let k = if i <= j { i } else { j };
    assert(splits_at(a, c, k));
}

pub proof fn lemma_precedes_total(a: Seq<char>, b: Seq<char>)
    ensures
        a == b || precedes(a, b) || precedes(b, a),
        !(precedes(a, b) && precedes(b, a)),
        a == b ==> !precedes(a, b),
{
    if forall|i: int| 0 <= i < a.len() && i < b.len() ==> a[i] == b[i] {
        if a.len() < b.len() {
            assert(splits_at(a, b, a.len() as int));
        } else if b.len() < a.len() {
            assert(splits_at(b, a, b.len() as int));
        } else {
            assert(a =~= b);
        }
    } else {
        let d = choose|i: int| 0 <= i < a.len() && i < b.len() && a[i] != b[i];
        let f = lemma_first_difference(a, b, d);
        if (a[f] as int) < (b[f] as int) {
            assert(splits_at(a, b, f));
        } else {
            assert(splits_at(b, a, f));
        }
    }
}

proof fn lemma_first_difference(a: Seq<char>, b: Seq<char>, d: int) -> (f: int)
    requires
        0 <= d < a.len(),
        d < b.len(),
        a[d] != b[d],
    ensures
        0 <= f <= d,
        a[f] != b[f],
        forall|j: int| 0 <= j < f ==> a[j] == b[j],
    decreases d,
{
    if forall|j: int| 0 <= j < d ==> a[j] == b[j] {
        d
    } else {
        let e = choose|j: int| 0 <= j < d && a[j] != b[j];
        lemma_first_difference(a, b, e)
    }
}


/// What a vector of texts holds.
pub open spec fn texts(v: Seq<String>) -> Seq<Seq<char>> {
    v.map_values(|s: String| s@)
}

/// Unicode `White_Space`.
pub open spec fn white_space(c: char) -> bool {
    let n = c as int;
    ||| 0x9 <= n <= 0xd
    ||| n == 0x20
    ||| n == 0x85
    ||| n == 0xa0
    ||| n == 0x1680
    ||| 0x2000 <= n <= 0x200a
    ||| n == 0x2028
    ||| n == 0x2029
    ||| n == 0x202f
    ||| n == 0x205f
    ||| n == 0x3000
}

/// `s` without the white space it starts with.
pub open spec fn trimmed_start(s: Seq<char>) -> Seq<char>
    decreases s.len(),
{
    if s.len() > 0 && white_space(s[0]) {
        trimmed_start(s.skip(1))
    } else {
        s
    }
}

/// `s` without the white space it ends with.
pub open spec fn trimmed_end(s: Seq<char>) -> Seq<char>
    decreases s.len(),
{
    if s.len() > 0 && white_space(s.last()) {
        trimmed_end(s.drop_last())
    } else {
        s
    }
}

/// `s` without white space at either end.
pub open spec fn trimmed(s: Seq<char>) -> Seq<char> {
    trimmed_end(trimmed_start(s))
}

/// A text whose first character is no white space is not blank.
pub proof fn lemma_not_blank(s: Seq<char>)
    requires
        s.len() > 0,
        !white_space(s[0]),
    ensures
        trimmed(s).len() > 0,
{
    lemma_end_kept(s);
}

proof fn lemma_end_kept(s: Seq<char>)
    requires
        s.len() > 0,
        !white_space(s[0]),
    ensures
        trimmed_end(s).len() > 0,
    decreases s.len(),
{
    if white_space(s.last()) {
        lemma_end_kept(s.drop_last());
    }
}

/// `str::trim` of std: removes leading and trailing characters that have the
/// Unicode property `White_Space`.
pub assume_specification[ str::trim ](subject: &str) -> (r: &str)
    ensures
        r@ == trimmed(subject@),
;

/// `String::push` of std: appends one character.
pub assume_specification[ String::push ](subject: &mut String, extra: char)
    ensures
        final(subject)@ == old(subject)@.push(extra),
;

/// The white-space test that `trimmed` makes, for a whole text: nothing is left.
pub fn is_blank(s: &str) -> (r: bool)
    ensures
        r == (trimmed(s@).len() == 0),
{
    s.trim().is_empty()
}

/// Whether two texts are the same.
pub fn same(a: &str, b: &str) -> (r: bool)
    ensures
        r == (a@ == b@),
{
    match rank(a, b) {
        Rank::Same => true,
        _ => false,
    }
}

/// The pieces of `s` between occurrences of `sep`; one more than there are
/// occurrences.
pub open spec fn pieces(s: Seq<char>, sep: char) -> Seq<Seq<char>>
    decreases s.len(),
{
    if s.len() == 0 {
        seq![Seq::empty()]
    } else {
        let front = pieces(s.drop_last(), sep);
        if s.last() == sep {
            front.push(Seq::empty())
        } else {
            front.drop_last().push(front.last().push(s.last()))
        }
    }
}

/// The items of a comma-separated list: each piece trimmed, empty ones left out.
pub open spec fn list_items(s: Seq<char>) -> Seq<Seq<char>> {
    pieces(s, ',').map_values(|p: Seq<char>| trimmed(p)).filter(|p: Seq<char>| p.len() > 0)
}

/// Splits a text at every `sep`.
pub fn split(s: &str, sep: char) -> (r: Vec<String>)
    ensures
        texts(r@) == pieces(s@, sep),
{
    let mut rest = s.chars();
    let mut done: Vec<String> = Vec::new();
    let mut piece = String::new();
    let ghost mut i: int = 0;
    assert(s@.skip(0) == s@);
    assert(texts(done@).push(piece@) == pieces(s@.take(0), sep));
    loop
        invariant
            0 <= i <= s@.len(),
            vstd::std_specs::iter::IteratorSpec::remaining(&rest) == s@.skip(i),
            texts(done@).push(piece@) == pieces(s@.take(i), sep),
        decreases s@.len() - i,
    {
        match rest.next() {
            None => {
                assert(s@.take(i) == s@);
                let ghost before = texts(done@);
                let ghost last = piece@;
                done.push(piece);
                assert(texts(done@) == before.push(last));
                return done;
            }
            Some(c) => {
                let ghost before = texts(done@);
                let ghost last = piece@;
                proof {
                    assert(s@.skip(i)[0] == s@[i]);
                    assert(s@.take(i + 1).drop_last() == s@.take(i));
                    assert(s@.take(i + 1).last() == s@[i]);
                    assert(before.push(last).drop_last() == before);
                }
                if c == sep {
                    done.push(piece);
                    assert(texts(done@) == before.push(last));
                    piece = String::new();
                } else {
                    piece.push(c);
                }
                proof {
                    i = i + 1;
                }
            }
        }
    }
}

/// Text without `sep` is one piece, added to the last of those before it.
pub proof fn lemma_pieces_extend(s: Seq<char>, more: Seq<char>, sep: char)
    requires
        forall|i: int| 0 <= i < more.len() ==> #[trigger] more[i] != sep,
    ensures
        pieces(s, sep).len() > 0,
        pieces(s + more, sep) == pieces(s, sep).drop_last().push(pieces(s, sep).last() + more),
    decreases more.len(),
{
    lemma_some_piece(s, sep);
    let before = pieces(s, sep);
    if more.len() == 0 {
        assert(s + more =~= s);
        assert(before.last() + more =~= before.last());
        assert(before.drop_last().push(before.last()) =~= before);
    } else {
        let less = more.drop_last();
        lemma_pieces_extend(s, less, sep);
        assert((s + more).drop_last() =~= s + less);
        assert((s + more).last() == more.last());
        assert(more.last() == more[more.len() - 1]);
        assert((before.last() + less).push(more.last()) =~= before.last() + more);
        let middle = before.drop_last().push(before.last() + less);
        assert(middle.drop_last() =~= before.drop_last());
    }
}

proof fn lemma_some_piece(s: Seq<char>, sep: char)
    ensures
        pieces(s, sep).len() > 0,
        s.len() == 0 || s.last() == sep ==> pieces(s, sep).last() == Seq::<char>::empty(),
    decreases s.len(),
{
    if s.len() > 0 {
        lemma_some_piece(s.drop_last(), sep);
    }
}

/// A line without the carriage return that it may end in.
pub open spec fn without_return(line: Seq<char>) -> Seq<char> {
    if line.len() > 0 && line.last() == '\r' {
        line.drop_last()
    } else {
        line
    }
}

/// The lines of a file: what stands before each line feed, without a carriage return at
/// its end, and what stands after the last one, if anything does.
pub open spec fn file_lines(content: Seq<char>) -> Seq<Seq<char>> {
    let all = pieces(content, '\n');
    let ended = all.drop_last().map_values(|line: Seq<char>| without_return(line));
    if all.last().len() > 0 {
        ended.push(all.last())
    } else {
        ended
    }
}

/// A file that is empty or ends with a line feed.
pub open spec fn ends_cleanly(content: Seq<char>) -> bool {
    content.len() == 0 || content.last() == '\n'
}

/// A text without line breaks.
pub open spec fn one_line(s: Seq<char>) -> bool {
    forall|i: int| 0 <= i < s.len() ==> #[trigger] s[i] != '\n' && s[i] != '\r'
}

/// What is written after a clean end is one line more, after those there were.
pub proof fn lemma_line_added(content: Seq<char>, line: Seq<char>)
    requires
        ends_cleanly(content),
        one_line(line),
    ensures
        file_lines(content + line.push('\n')) == file_lines(content).push(line),
        ends_cleanly(content + line.push('\n')),
{
    let before = pieces(content, '\n');
    let longer = content + line;
    let whole = content + line.push('\n');
    lemma_some_piece(content, '\n');
    lemma_pieces_extend(content, line, '\n');
    assert(before.last() + line =~= line);
    assert(whole.drop_last() =~= longer);
    assert(whole.last() == '\n');
    let after = pieces(longer, '\n').push(Seq::empty());
    assert(pieces(whole, '\n') == after);
    assert(after.drop_last() =~= before.drop_last().push(line));
    if line.len() > 0 {
        assert(line.last() == line[line.len() - 1]);
    }
    assert(without_return(line) == line);
    assert(file_lines(whole) =~= file_lines(content).push(line));
}

/// The lines of a file's text.
pub fn split_lines(content: &str) -> (r: Vec<String>)
    ensures
        texts(r@) == file_lines(content@),
{
    let parts = split(content, '\n');
    let ghost all = pieces(content@, '\n');
    let ghost ended = all.drop_last().map_values(|line: Seq<char>| without_return(line));
    proof {
        lemma_some_piece(content@, '\n');
        assert(texts(parts@).len() == parts@.len());
    }
    let n = parts.len();
    let mut out: Vec<String> = Vec::new();
    for i in 0..n - 1
        invariant
            n == parts@.len(),
            n >= 1,
            all == texts(parts@),
            ended == all.drop_last().map_values(|line: Seq<char>| without_return(line)),
            out@.len() == i,
            forall|j: int| 0 <= j < i ==> (#[trigger] out@[j])@ == ended[j],
    {
        let line = parts[i].as_str();
        assert(all[i as int] == line@);
        proof {
            reveal_strlit("\r");
        }
        if ends_with(line, "\r") {
            assert(line@.skip(line@.len() - 1)[0] == line@.last());
            out.push(first_chars(line, line.unicode_len() - 1));
            assert(line@.take(line@.len() - 1) =~= line@.drop_last());
        } else {
            assert(line@.len() > 0 && line@.last() == '\r' ==> line@.skip(line@.len() - 1) =~= "\r"@);
            out.push(line.to_owned());
        }
    }
    assert(all[n - 1] == parts@[n - 1]@);
    assert(texts(out@) =~= ended);
    if !parts[n - 1].as_str().is_empty() {
        out.push(parts[n - 1].clone());
        assert(texts(out@) =~= ended.push(all.last()));
    }
    out
}

/// What is written to a file for a line.
pub fn file_entry(line: &str) -> (r: String)
    ensures
        r@ == line@.push('\n'),
        one_line(line@) ==> forall|content: Seq<char>|
            ends_cleanly(content) ==> {
                &&& ends_cleanly(#[trigger] (content + r@))
                &&& file_lines(content + r@) == file_lines(content).push(line@)
            },
{
    let mut out = line.to_owned();
    out.push('\n');
    proof {
        if one_line(line@) {
            assert forall|content: Seq<char>| ends_cleanly(content) implies ends_cleanly(
                #[trigger] (content + out@),
            ) && file_lines(content + out@) == file_lines(content).push(line@) by {
                lemma_line_added(content, line@);
            }
        }
    }
    out
}

/// Reads a comma-separated list.
pub fn split_list(s: &str) -> (r: Vec<String>)
    ensures
        texts(r@) == list_items(s@),
{
    let parts = split(s, ',');
    let mut out: Vec<String> = Vec::new();
    let ghost all = pieces(s@, ',').map_values(|p: Seq<char>| trimmed(p));
    let ghost keep = |p: Seq<char>| p.len() > 0;
    assert(texts(out@) == all.take(0).filter(keep)) by {
        reveal(Seq::filter);
    }
    for i in 0..parts.len()
        invariant
            texts(parts@) == pieces(s@, ','),
            all == pieces(s@, ',').map_values(|p: Seq<char>| trimmed(p)),
            keep == (|p: Seq<char>| p.len() > 0),
            texts(out@) == all.take(i as int).filter(keep),
    {
        let item = parts[i].trim();
        proof {
            assert(texts(parts@)[i as int] == parts@[i as int]@);
            crate::seqs::lemma_filter_step(all, keep, i as int);
        }
        if !item.is_empty() {
            let ghost before = texts(out@);
            out.push(item.to_owned());
            assert(texts(out@) == before.push(item@));
        }
    }
    assert(all.take(parts.len() as int) == all);
    out
}

/// The texts of `list` one after another, with `sep` between neighbours.
pub open spec fn joined(list: Seq<Seq<char>>, sep: Seq<char>) -> Seq<char>
    decreases list.len(),
{
    if list.len() == 0 {
        Seq::empty()
    } else if list.len() == 1 {
        list[0]
    } else {
        joined(list.drop_last(), sep) + sep + list.last()
    }
}

/// Joins texts with a separator.
pub fn join(list: &Vec<String>, sep: &str) -> (r: String)
    ensures
        r@ == joined(texts(list@), sep@),
{
    let mut out = String::new();
    for i in 0..list.len()
        invariant
            out@ == joined(texts(list@).take(i as int), sep@),
    {
        proof {
            assert(texts(list@).take(i + 1).drop_last() == texts(list@).take(i as int));
            assert(texts(list@).take(i + 1).last() == list@[i as int]@);
        }
        if i > 0 {
            out.append(sep);
        }
        out.append(list[i].as_str());
    }
    assert(texts(list@).take(list@.len() as int) == texts(list@));
    out
}

/// The decimal digit that stands for `d`.
pub open spec fn digit(d: int) -> char {
    ('0' as int + d) as char
}

/// The decimal notation of `n`, without leading zeros.
pub open spec fn decimal(n: nat) -> Seq<char>
    decreases n,
{
    if n < 10 {
        seq![digit(n as int)]
    } else {
        decimal(n / 10).push(digit((n % 10) as int))
    }
}

/// Decimal notation is made of digits.
pub proof fn lemma_decimal_digits(n: nat)
    ensures
        all_digits(decimal(n)),
    decreases n,
{
    if n >= 10 {
        lemma_decimal_digits(n / 10);
    }
}

fn digit_char(d: u8) -> (c: char)
    requires
        d < 10,
    ensures
        c == digit(d as int),
{
    (48u8 + d) as char
}

/// Writes a number in decimal notation.
pub fn decimal_text(n: u64) -> (r: String)
    ensures
        r@ == decimal(n as nat),
    decreases n,
{
    if n < 10 {
        let mut out = String::new();
        out.push(digit_char(n as u8));
        assert(out@ == seq![digit(n as int)]);
        out
    } else {
        let mut out = decimal_text(n / 10);
        out.push(digit_char((n % 10) as u8));
        out
    }
}

/// All characters are decimal digits.
pub open spec fn all_digits(s: Seq<char>) -> bool {
    forall|i: int| 0 <= i < s.len() ==> '0' as int <= #[trigger] s[i] as int <= '9' as int
}

/// The number that a row of digits stands for.
pub open spec fn digits_value(s: Seq<char>) -> nat
    decreases s.len(),
{
    if s.len() == 0 {
        0
    } else {
        digits_value(s.drop_last()) * 10 + (s.last() as int - '0' as int) as nat
    }
}

/// The number that `s` denotes: an optional plus sign and at least one digit,
/// nothing else, and no more than `u64::MAX`.
pub open spec fn unsigned(s: Seq<char>) -> Option<u64> {
    let digits = if s.len() > 0 && s[0] == '+' { s.skip(1) } else { s };
    if digits.len() > 0 && all_digits(digits) && digits_value(digits) <= u64::MAX {
        Some(digits_value(digits) as u64)
    } else {
        None
    }
}

proof fn lemma_digits_value_grows(s: Seq<char>, i: int)
    requires
        0 <= i <= s.len(),
    ensures
        digits_value(s.take(i)) <= digits_value(s),
    decreases s.len() - i,
{
    if i < s.len() {
        lemma_digits_value_grows(s, i + 1);
        assert(s.take(i + 1).drop_last() == s.take(i));
    } else {
        assert(s.take(i) == s);
    }
}

/// The characters of a text.
pub fn characters(s: &str) -> (r: Vec<char>)
    ensures
        r@ == s@,
{
    let mut rest = s.chars();
    let mut out: Vec<char> = Vec::new();
    assert(s@.skip(0) == s@);
    loop
        invariant
            out@.len() <= s@.len(),
            out@ == s@.take(out@.len() as int),
            vstd::std_specs::iter::IteratorSpec::remaining(&rest) == s@.skip(out@.len() as int),
        decreases s@.len() - out@.len(),
    {
        match rest.next() {
            None => {
                assert(s@.take(out@.len() as int) == s@);
                return out;
            }
            Some(c) => {
                out.push(c);
            }
        }
    }
}

/// Whether a text has no characters but digits.
pub fn is_digits(s: &str) -> (r: bool)
    ensures
        r == all_digits(s@),
{
    let all = characters(s);
    for i in 0..all.len()
        invariant
            all@ == s@,
            forall|j: int| 0 <= j < i ==> '0' as int <= #[trigger] s@[j] as int <= '9' as int,
    {
        let code = code_point(all[i]);
        if code < 48 || code > 57 {
            assert(!('0' as int <= s@[i as int] as int <= '9' as int));
            return false;
        }
    }
    true
}

/// Reads an unsigned number.
pub fn parse_unsigned(s: &str) -> (r: Option<u64>)
    ensures
        r == unsigned(s@),
{
    let all = characters(s);
    let start: usize = if all.len() > 0 && all[0] == '+' { 1 } else { 0 };
    let ghost digits = s@.skip(start as int);
    assert(start == 0 ==> digits == s@);
    if start == all.len() {
        return None;
    }
    let mut value: u64 = 0;
    for k in start..all.len()
        invariant
            all@ == s@,
            start <= 1,
            start < all@.len(),
            digits == s@.skip(start as int),
            digits == if s@.len() > 0 && s@[0] == '+' { s@.skip(1) } else { s@ },
            all_digits(digits.take(k - start)),
            value == digits_value(digits.take(k - start)),
    {
        let ghost i = k - start;
        proof {
            assert(all@[k as int] == digits[i]);
            assert(digits.take(i + 1).drop_last() == digits.take(i));
            assert(digits.take(i + 1).last() == digits[i]);
            lemma_digits_value_grows(digits, i + 1);
        }
        let code = code_point(all[k]);
        if code < 48 || code > 57 {
            return None;
        }
        let d = (code - 48) as u64;
        let tenfold = match value.checked_mul(10) {
            None => return None,
            Some(v) => v,
        };
        value = match tenfold.checked_add(d) {
            None => return None,
            Some(v) => v,
        };
        proof {
            assert forall|m: int| 0 <= m < i + 1 implies '0' as int <= #[trigger] digits.take(i + 1)[m] as int
                <= '9' as int by {
                if m < i {
                    assert(digits.take(i)[m] == digits.take(i + 1)[m]);
                }
            }
        }
    }
    assert(digits.take(all.len() - start) == digits);
    Some(value)
}

/// `s` begins with `prefix`.
pub open spec fn has_prefix(s: Seq<char>, prefix: Seq<char>) -> bool {
    prefix.len() <= s.len() && s.take(prefix.len() as int) == prefix
}

/// `s` ends with `suffix`.
pub open spec fn has_suffix(s: Seq<char>, suffix: Seq<char>) -> bool {
    suffix.len() <= s.len() && s.skip(s.len() - suffix.len()) == suffix
}

/// `s` holds `part` from position `at` on.
pub open spec fn holds_at(s: Seq<char>, part: Seq<char>, at: int) -> bool {
    0 <= at <= s.len() - part.len() && s.subrange(at, at + part.len()) == part
}

/// `s` holds `part` somewhere.
pub open spec fn holds(s: Seq<char>, part: Seq<char>) -> bool {
    exists|at: int| holds_at(s, part, at)
}

fn matches_at(s: &Vec<char>, part: &Vec<char>, at: usize) -> (r: bool)
    requires
        at + part@.len() <= s@.len(),
    ensures
        r == holds_at(s@, part@, at as int),
{
    let whole = s.len();
    for k in 0..part.len()
        invariant
            whole == s@.len(),
            at + part@.len() <= whole,
            forall|m: int| 0 <= m < k ==> s@[at + m] == #[trigger] part@[m],
    {
        if s[at + k] != part[k] {
            assert(s@.subrange(at as int, at + part@.len())[k as int] != part@[k as int]);
            return false;
        }
    }
    assert(s@.subrange(at as int, at + part@.len()) =~= part@);
    true
}

/// Whether a text begins with another.
pub fn starts_with(s: &str, prefix: &str) -> (r: bool)
    ensures
        r == has_prefix(s@, prefix@),
{
    let whole = characters(s);
    let part = characters(prefix);
    if part.len() > whole.len() {
        return false;
    }
    assert(s@.subrange(0, prefix@.len() as int) == s@.take(prefix@.len() as int));
    matches_at(&whole, &part, 0)
}

/// Whether a text ends with another.
pub fn ends_with(s: &str, suffix: &str) -> (r: bool)
    ensures
        r == has_suffix(s@, suffix@),
{
    let whole = characters(s);
    let part = characters(suffix);
    if part.len() > whole.len() {
        return false;
    }
    let at = whole.len() - part.len();
    assert(s@.subrange(at as int, at + suffix@.len()) == s@.skip(at as int));
    matches_at(&whole, &part, at)
}

/// Whether a text holds another.
pub fn contains(s: &str, part: &str) -> (r: bool)
    ensures
        r == holds(s@, part@),
{
    let whole = characters(s);
    let sought = characters(part);
    if sought.len() > whole.len() {
        return false;
    }
    let last = whole.len() - sought.len();
    let mut at: usize = 0;
    while at <= last
        invariant
            whole@ == s@,
            sought@ == part@,
            last == whole@.len() - sought@.len(),
            at <= last + 1,
            forall|k: int| 0 <= k < at ==> !holds_at(s@, part@, k),
        decreases last + 1 - at,
    {
        if matches_at(&whole, &sought, at) {
            return true;
        }
        if at == last {
            return false;
        }
        at = at + 1;
    }
    false
}

/// The first `n` characters of a text, or all of it.
pub fn first_chars(s: &str, n: usize) -> (r: String)
    ensures
        r@ == if s@.len() <= n { s@ } else { s@.take(n as int) },
{
    let mut rest = s.chars();
    let mut out = String::new();
    assert(s@.skip(0) == s@);
    let mut taken: usize = 0;
    while taken < n
        invariant
            taken <= n,
            taken == out@.len(),
            out@.len() <= s@.len(),
            out@ == s@.take(out@.len() as int),
            vstd::std_specs::iter::IteratorSpec::remaining(&rest) == s@.skip(out@.len() as int),
        decreases n - taken,
    {
        match rest.next() {
            None => {
                assert(s@.take(out@.len() as int) == s@);
                return out;
            }
            Some(c) => {
                out.push(c);
                taken = taken + 1;
            }
        }
    }
    assert(s@.len() == n ==> s@.take(n as int) == s@);
    out
}

/// Texts of one's own.
pub fn owned(list: &[&str]) -> (r: Vec<String>)
    ensures
        texts(r@) == list@.map_values(|x: &str| x@),
{
    let mut out: Vec<String> = Vec::new();
    for i in 0..list.len()
        invariant
            out@.len() == i,
            forall|j: int| 0 <= j < i ==> (#[trigger] out@[j])@ == list@[j]@,
    {
        out.push(list[i].to_owned());
    }
    assert(texts(out@) =~= list@.map_values(|x: &str| x@));
    out
}

} // verus!
