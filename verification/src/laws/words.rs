//! Texts: splitting and joining, trimming, numbers, and what a text begins with.

use vstd::prelude::*;
use crate::text::{
    decimal, digits_value, file_lines, has_prefix, has_suffix, holds, holds_at, joined, list_items,
    lemma_decimal_digits, pieces, precedes, splits_at, trimmed, trimmed_end, trimmed_start, unsigned, white_space,
};

verus! {

/// Joining with a separator puts it between any two parts.
pub proof fn law_joined(a: Seq<Seq<char>>, b: Seq<Seq<char>>, sep: Seq<char>, one: Seq<char>)
    ensures
        joined(Seq::empty(), sep) == Seq::<char>::empty(),
        joined(seq![one], sep) == one,
        a.len() > 0 && b.len() > 0 ==> joined(a + b, sep) == joined(a, sep) + sep + joined(b, sep),
    decreases b.len(),
{
    if a.len() > 0 && b.len() > 0 {
        assert((a + b).drop_last() =~= a + b.drop_last());
        assert((a + b).last() == b.last());
        if b.len() == 1 {
            assert(a + b.drop_last() =~= a);
        } else {
            law_joined(a, b.drop_last(), sep, one);
            assert(joined(a + b, sep) =~= joined(a, sep) + sep + joined(b, sep));
        }
    }
}

/// The pieces of a text have no separator in them, and joined with it they are the text.
pub proof fn law_pieces(s: Seq<char>, sep: char)
    ensures
        pieces(s, sep).len() > 0,
        forall|i: int, j: int|
            0 <= i < pieces(s, sep).len() && 0 <= j < pieces(s, sep)[i].len() ==> #[trigger] pieces(s, sep)[i][j] != sep,
        joined(pieces(s, sep), seq![sep]) == s,
    decreases s.len(),
{
    let all = pieces(s, sep);
    if s.len() == 0 {
        assert(joined(all, seq![sep]) =~= s);
    } else {
        let less = s.drop_last();
        let front = pieces(less, sep);
        law_pieces(less, sep);
        assert(less.push(s.last()) =~= s);
        if s.last() == sep {
            assert(all.drop_last() =~= front);
            assert(joined(all, seq![sep]) =~= s);
        } else {
            let last = front.last();
            assert forall|i: int, j: int| 0 <= i < all.len() && 0 <= j < all[i].len() implies #[trigger] all[i][j]
                != sep by {
                if i < front.len() - 1 {
                    assert(all[i] == front[i]);
                    assert(front[i][j] != sep);
                } else if j < last.len() {
                    assert(front[front.len() - 1][j] != sep);
                }
            }
            assert(all.drop_last() =~= front.drop_last());
            if front.len() == 1 {
                assert(front.last() == front[0]);
            }
            assert(joined(all, seq![sep]) =~= joined(front, seq![sep]).push(s.last()));
        }
    }
}

proof fn lemma_pieces_concat(a: Seq<char>, b: Seq<char>, sep: char)
    ensures
        pieces(a + seq![sep] + b, sep) == pieces(a, sep) + pieces(b, sep),
    decreases b.len(),
{
    let whole = a + seq![sep] + b;
    if b.len() == 0 {
        assert(whole.drop_last() =~= a);
        assert(pieces(whole, sep) =~= pieces(a, sep) + pieces(b, sep));
    } else {
        let less = b.drop_last();
        lemma_pieces_concat(a, less, sep);
        law_pieces(less, sep);
        assert(whole.drop_last() =~= a + seq![sep] + less);
        let front = pieces(a, sep) + pieces(less, sep);
        assert(front.last() == pieces(less, sep).last());
        assert(pieces(whole, sep) =~= pieces(a, sep) + pieces(b, sep));
    }
}

/// A list is read part by part: what stands on the two sides of a comma is read as two
/// lists. A list without a comma has the one item, trimmed, or none where it is blank.
pub proof fn law_lists(a: Seq<char>, b: Seq<char>)
    ensures
        list_items(a + seq![','] + b) == list_items(a) + list_items(b),
        (forall|i: int| 0 <= i < a.len() ==> #[trigger] a[i] != ',') ==> list_items(a) == if trimmed(a).len() > 0 {
            seq![trimmed(a)]
        } else {
            Seq::empty()
        },
{
    let cut = |p: Seq<char>| trimmed(p);
    let keep = |p: Seq<char>| p.len() > 0;
    let x = pieces(a, ',').map_values(cut);
    let y = pieces(b, ',').map_values(cut);
    lemma_pieces_concat(a, b, ',');
    assert(pieces(a + seq![','] + b, ',').map_values(cut) =~= x + y);
    Seq::filter_distributes_over_add(x, y, keep);
    if forall|i: int| 0 <= i < a.len() ==> #[trigger] a[i] != ',' {
        let none = Seq::<char>::empty();
        crate::text::lemma_pieces_extend(none, a, ',');
        assert(none + a =~= a);
        assert(pieces(a, ',') =~= seq![a]);
        assert(x =~= seq![trimmed(a)]);
        reveal(Seq::filter);
        assert(x.drop_last() =~= Seq::empty());
        assert(x.drop_last().filter(keep) =~= Seq::empty());
        assert(x.filter(keep) =~= if trimmed(a).len() > 0 {
            seq![trimmed(a)]
        } else {
            Seq::empty()
        });
    }
}

proof fn lemma_start_cut(s: Seq<char>) -> (i: int)
    ensures
        0 <= i <= s.len(),
        trimmed_start(s) == s.skip(i),
        forall|k: int| 0 <= k < i ==> white_space(#[trigger] s[k]),
        i < s.len() ==> !white_space(s[i]),
    decreases s.len(),
{
    if s.len() > 0 && white_space(s[0]) {
        let rest = s.skip(1);
        let i = lemma_start_cut(rest);
        assert(rest.skip(i) =~= s.skip(i + 1));
        assert forall|k: int| 0 <= k < i + 1 implies white_space(#[trigger] s[k]) by {
            if k > 0 {
                assert(rest[k - 1] == s[k]);
            }
        }
        if i < rest.len() {
            assert(rest[i] == s[i + 1]);
        }
        i + 1
    } else {
        assert(s.skip(0) =~= s);
        0
    }
}

proof fn lemma_end_cut(s: Seq<char>) -> (j: int)
    ensures
        0 <= j <= s.len(),
        trimmed_end(s) == s.take(j),
        forall|k: int| j <= k < s.len() ==> white_space(#[trigger] s[k]),
        j > 0 ==> !white_space(s[j - 1]),
    decreases s.len(),
{
    if s.len() > 0 && white_space(s.last()) {
        let rest = s.drop_last();
        let j = lemma_end_cut(rest);
        assert(rest.take(j) =~= s.take(j));
        assert forall|k: int| j <= k < s.len() implies white_space(#[trigger] s[k]) by {
            if k < rest.len() {
                assert(rest[k] == s[k]);
            }
        }
        if j > 0 {
            assert(rest[j - 1] == s[j - 1]);
        }
        j
    } else {
        assert(s.take(s.len() as int) =~= s);
        s.len() as int
    }
}

/// Trimming cuts white space off both ends and nothing else, and leaves none there.
pub proof fn law_trimmed(s: Seq<char>)
    ensures
        exists|i: int, j: int|
            0 <= i <= j <= s.len() && trimmed(s) == #[trigger] s.subrange(i, j) && (forall|k: int|
                0 <= k < i || j <= k < s.len() ==> white_space(#[trigger] s[k])),
        trimmed(s).len() > 0 ==> !white_space(trimmed(s)[0]) && !white_space(trimmed(s).last()),
{
    let i = lemma_start_cut(s);
    let t = trimmed_start(s);
    let m = lemma_end_cut(t);
    let j = i + m;
    assert(trimmed(s) =~= s.subrange(i, j));
    assert forall|k: int| 0 <= k < i || j <= k < s.len() implies white_space(#[trigger] s[k]) by {
        if k >= j {
            assert(t[k - i] == s[k]);
        }
    }
}

/// Decimal notation is read back as the number it stands for, with or without a plus
/// sign before it.
pub proof fn law_decimal(k: u64)
    ensures
        unsigned(decimal(k as nat)) == Some(k),
        unsigned(seq!['+'] + decimal(k as nat)) == Some(k),
        k > 0 ==> decimal(k as nat)[0] != '0',
        decimal(k as nat).len() >= 1,
{
    lemma_decimal_value(k as nat);
    lemma_decimal_digits(k as nat);
    let d = decimal(k as nat);
    assert('0' as int <= d[0] as int <= '9' as int);
    let signed = seq!['+'] + d;
    assert(signed.skip(1) =~= d);
}

pub proof fn lemma_decimal_value(n: nat)
    ensures
        digits_value(decimal(n)) == n,
        decimal(n).len() >= 1,
        n > 0 ==> decimal(n)[0] != '0',
    decreases n,
{
    if n < 10 {
        let d = decimal(n);
        assert(d.drop_last() =~= Seq::empty());
        assert(digits_value(d.drop_last()) == 0);
        assert(d.last() as int == '0' as int + n);
    } else {
        lemma_decimal_value(n / 10);
        let front = decimal(n / 10);
        let d = decimal(n);
        assert(d.drop_last() =~= front);
        assert(d.last() as int == '0' as int + n % 10);
        assert(d[0] == front[0]);
    }
}

/// How many digits a number has.
pub proof fn lemma_decimal_length(n: nat)
    ensures
        n < 100_000 ==> decimal(n).len() <= 5,
        n >= 100_000 ==> decimal(n).len() > 5,
{
    reveal_with_fuel(decimal, 6);
    if n >= 100_000 {
        let m = n / 10 / 10 / 10 / 10 / 10;
        assert(m >= 1);
        lemma_decimal_value(m);
    }
}

/// Only digits are read as a number, after at most one plus sign; a digit more makes the
/// number ten times as large and adds the digit.
pub proof fn law_unsigned(s: Seq<char>, k: u64, d: char)
    ensures
        unsigned(s) is Some ==> s.len() > 0 && (forall|i: int|
            0 <= i < s.len() ==> ('0' as int <= #[trigger] s[i] as int <= '9' as int) || (i == 0 && s[i] == '+')),
        unsigned(s) == Some(k) && '0' as int <= d as int <= '9' as int && k * 10 + (d as int - '0' as int) <= u64::MAX
            ==> unsigned(s.push(d)) == Some((k * 10 + (d as int - '0' as int)) as u64),
        unsigned(s) == Some(k) && '0' as int <= d as int <= '9' as int && k * 10 + (d as int - '0' as int) > u64::MAX
            ==> unsigned(s.push(d)) is None,
{
    if unsigned(s) is Some {
        let digits = if s[0] == '+' { s.skip(1) } else { s };
        assert forall|i: int| 0 <= i < s.len() implies ('0' as int <= #[trigger] s[i] as int <= '9' as int) || (i == 0
            && s[i] == '+') by {
            if s[0] == '+' {
                if i > 0 {
                    assert(digits[i - 1] == s[i]);
                    assert('0' as int <= digits[i - 1] as int <= '9' as int);
                }
            } else {
                assert('0' as int <= digits[i] as int <= '9' as int);
            }
        }
        let longer = s.push(d);
        let more = if s[0] == '+' { longer.skip(1) } else { longer };
        assert(more =~= digits.push(d));
        assert(more.drop_last() =~= digits);
        if '0' as int <= d as int <= '9' as int {
            assert forall|i: int| 0 <= i < more.len() implies '0' as int <= #[trigger] more[i] as int <= '9' as int by {
                if i < digits.len() {
                    assert(more[i] == digits[i]);
                }
            }
        }
    }
}

/// What a text begins with, ends with and holds.
pub proof fn law_parts(a: Seq<char>, part: Seq<char>, b: Seq<char>, s: Seq<char>)
    ensures
        has_prefix(part + b, part),
        has_suffix(a + part, part),
        holds(a + part + b, part),
        has_prefix(s, part) ==> s == part + s.skip(part.len() as int),
        has_suffix(s, part) ==> s == s.take(s.len() - part.len()) + part,
        holds(s, part) ==> exists|i: int|
            0 <= i <= s.len() - part.len() && s == s.take(i) + part + #[trigger] s.skip(i + part.len()),
{
    assert((part + b).take(part.len() as int) =~= part);
    assert((a + part).skip((a + part).len() - part.len()) =~= part);
    let whole = a + part + b;
    assert(whole.subrange(a.len() as int, (a.len() + part.len()) as int) =~= part);
    assert(holds_at(whole, part, a.len() as int));
    if has_prefix(s, part) {
        assert(s =~= part + s.skip(part.len() as int));
    }
    if has_suffix(s, part) {
        assert(s =~= s.take(s.len() - part.len()) + part);
    }
    if holds(s, part) {
        let i = choose|i: int| holds_at(s, part, i);
        assert(s =~= s.take(i) + s.subrange(i, i + part.len()) + s.skip(i + part.len()));
    }
}

/// A file's lines: a line with either line end is that line, and one that is not ended
/// counts too, unless it is empty.
pub proof fn law_file_lines(content: Seq<char>, line: Seq<char>)
    requires
        content.len() == 0 || content.last() == '\n',
        forall|i: int| 0 <= i < line.len() ==> #[trigger] line[i] != '\n' && line[i] != '\r',
    ensures
        file_lines(Seq::empty()) == Seq::<Seq<char>>::empty(),
        file_lines(content + line.push('\n')) == file_lines(content).push(line),
        file_lines(content + line.push('\r').push('\n')) == file_lines(content).push(line),
        file_lines(content + line) == if line.len() > 0 {
            file_lines(content).push(line)
        } else {
            file_lines(content)
        },
{
    let empty = Seq::<char>::empty();
    assert(pieces(empty, '\n') =~= seq![empty]);
    assert(file_lines(empty) =~= Seq::<Seq<char>>::empty());
    crate::text::lemma_line_added(content, line);
    let before = pieces(content, '\n');
    lemma_clean_end(content);
    // with a carriage return
    let returned = line.push('\r');
    assert forall|i: int| 0 <= i < returned.len() implies #[trigger] returned[i] != '\n' by {
        if i < line.len() {
            assert(returned[i] == line[i]);
        }
    }
    crate::text::lemma_pieces_extend(content, returned, '\n');
    assert(before.last() + returned =~= returned);
    let whole = content + returned.push('\n');
    assert(whole.drop_last() =~= content + returned);
    let after = pieces(content + returned, '\n').push(empty);
    assert(pieces(whole, '\n') == after);
    assert(after.drop_last() =~= before.drop_last().push(returned));
    assert(returned.drop_last() =~= line);
    assert(file_lines(whole) =~= file_lines(content).push(line));
    // not ended
    crate::text::lemma_pieces_extend(content, line, '\n');
    assert(before.last() + line =~= line);
    assert(pieces(content + line, '\n').drop_last() =~= before.drop_last());
    if line.len() == 0 {
        assert(content + line =~= content);
    }
}

proof fn lemma_clean_end(content: Seq<char>)
    requires
        content.len() == 0 || content.last() == '\n',
    ensures
        pieces(content, '\n').last().len() == 0,
        pieces(content, '\n').len() > 0,
{
    law_pieces(content, '\n');
}

/// Texts are ordered by their first characters, and where these are the same, by what
/// follows; an empty text comes before any other.
pub proof fn law_order(a: Seq<char>, b: Seq<char>, x: char, y: char)
    ensures
        !precedes(a, Seq::empty()),
        precedes(Seq::empty(), b) <==> b.len() > 0,
        precedes(seq![x] + a, seq![y] + b) <==> (x as int) < (y as int) || (x == y && precedes(a, b)),
{
    let none = Seq::<char>::empty();
    if b.len() > 0 {
        assert(splits_at(none, b, 0));
    }
    let s = seq![x] + a;
    let t = seq![y] + b;
    if (x as int) < (y as int) {
        assert(splits_at(s, t, 0));
    }
    if x == y && precedes(a, b) {
        let i = choose|i: int| splits_at(a, b, i);
        assert forall|j: int| 0 <= j < i + 1 implies s[j] == t[j] by {
            if j > 0 {
                assert(s[j] == a[j - 1] && t[j] == b[j - 1]);
            }
        }
        assert(splits_at(s, t, i + 1));
    }
    if precedes(s, t) {
        let i = choose|i: int| splits_at(s, t, i);
        if i > 0 {
            assert(s[0] == t[0]);
            assert forall|j: int| 0 <= j < i - 1 implies a[j] == b[j] by {
                assert(s[j + 1] == a[j] && t[j + 1] == b[j]);
            }
            assert(splits_at(a, b, i - 1));
        }
    }
}

/// Blanks, tabs and line ends are white space; what ASCII prints is not.
pub proof fn law_white_space(c: char)
    ensures
        white_space(' ') && white_space('\t') && white_space('\n') && white_space('\r'),
        '!' as int <= c as int <= '~' as int ==> !white_space(c),
{
}

} // verus!
