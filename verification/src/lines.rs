//! Lines of a text, numbers written in it, and its lower-case form.

use crate::text::{chars_of, find, find_from, lemma_find_is_first, lemma_find_none,
    lemma_occurs_in_rest, occurs_at, slice_of, string_of};
use vstd::prelude::*;

verus! {

/// `line` without the carriage return at its end, if it has one.
pub open spec fn strip_cr(line: Seq<char>) -> Seq<char> {
    if line.len() > 0 && line.last() == '\r' {
        line.drop_last()
    } else {
        line
    }
}

/// The lines of `text`. A line ends with a line feed, or with a carriage
/// return and a line feed, which are not part of it. What follows the last
/// line feed is a line too, as it stands, unless it is empty.
pub open spec fn lines(text: Seq<char>) -> Seq<Seq<char>>
    decreases text.len(),
{
    if text.len() == 0 {
        Seq::empty()
    } else {
        match find(text, seq!['\n']) {
            Some(i) => if 0 <= i < text.len() {
                seq![strip_cr(text.take(i))] + lines(text.skip(i + 1))
            } else {
                seq![text]
            },
            None => seq![text],
        }
    }
}

/// The views of the texts of `pieces`.
pub open spec fn views(pieces: Seq<Vec<char>>) -> Seq<Seq<char>> {
    pieces.map_values(|p: Vec<char>| p@)
}

/// The lines of `text`.
pub fn lines_of(text: &Vec<char>) -> (found: Vec<Vec<char>>)
    ensures
        views(found@) == lines(text@),
{
    let mut found: Vec<Vec<char>> = Vec::new();
    let mut feed: Vec<char> = Vec::new();
    feed.push('\n');
    assert(feed@ =~= seq!['\n']);
    let n = text.len();
    let mut from: usize = 0;
    assert(text@.skip(0) =~= text@);
    assert(views(found@) + lines(text@) =~= lines(text@));
    while from < n
        invariant
            from <= n,
            n == text.len(),
            feed@ == seq!['\n'],
            lines(text@) == views(found@) + lines(text@.skip(from as int)),
        decreases n - from,
    {
        let ghost rest = text@.skip(from as int);
        let ghost done = views(found@);
        match find_from(text, &feed, from) {
            Some(i) => {
                proof {
                    assert forall|j: int| 0 <= j < i - from implies !occurs_at(rest, feed@, j) by {
                        lemma_occurs_in_rest(text@, feed@, from as int, j);
                    }
                    lemma_occurs_in_rest(text@, feed@, from as int, i - from);
                    lemma_find_is_first(rest, feed@, i - from);
                    assert(rest.take(i - from) =~= text@.subrange(from as int, i as int));
                    assert(rest.skip(i - from + 1) =~= text@.skip(i + 1));
                }
                let end = if i > from && text[i - 1] == '\r' {
                    i - 1
                } else {
                    i
                };
                let line = slice_of(text, from, end);
                proof {
                    let raw = text@.subrange(from as int, i as int);
                    if i > from && text@[i - 1] == '\r' {
                        assert(raw.last() == '\r');
                        assert(raw.drop_last() =~= text@.subrange(from as int, end as int));
                    }
                    assert(line@ == strip_cr(raw));
                }
                found.push(line);
                from = i + 1;
                assert(views(found@) =~= done + seq![line@]);
                assert(lines(text@) =~= views(found@) + lines(text@.skip(from as int)));
            },
            None => {
                proof {
                    assert forall|j: int| 0 <= j implies !occurs_at(rest, feed@, j) by {
                        lemma_occurs_in_rest(text@, feed@, from as int, j);
                    }
                    lemma_find_none(rest, feed@);
                    assert(rest =~= text@.subrange(from as int, n as int));
                }
                let line = slice_of(text, from, n);
                found.push(line);
                from = n;
                assert(views(found@) =~= done + seq![line@]);
                assert(text@.skip(n as int).len() == 0);
                assert(lines(text@) =~= views(found@) + lines(text@.skip(from as int)));
            },
        }
    }
    assert(text@.skip(from as int).len() == 0);
    assert(views(found@) + lines(text@.skip(from as int)) =~= views(found@));
    found
}

/// A text has no more lines than characters.
pub proof fn lemma_lines_fit(text: Seq<char>)
    ensures
        lines(text).len() <= text.len(),
    decreases text.len(),
{
    if text.len() > 0 {
        match find(text, seq!['\n']) {
            Some(i) => {
                if 0 <= i < text.len() {
                    lemma_lines_fit(text.skip(i + 1));
                }
            },
            None => {},
        }
    }
}

/// Whether every character of `text` is a decimal digit.
pub open spec fn all_digits(text: Seq<char>) -> bool {
    forall|i: int| 0 <= i < text.len() ==> '0' <= #[trigger] text[i] <= '9'
}

/// The number that the decimal digits `text` write.
pub open spec fn number(text: Seq<char>) -> nat
    decreases text.len(),
{
    if text.len() == 0 {
        0
    } else {
        (number(text.drop_last()) * 10 + (text.last() as int - '0' as int)) as nat
    }
}

/// The number that `text` writes: one or more decimal digits, with or without
/// a plus sign in front of them. Any other text writes none.
pub open spec fn parse_number(text: Seq<char>) -> Option<nat> {
    let digits = if text.len() > 0 && text[0] == '+' {
        text.drop_first()
    } else {
        text
    };
    if digits.len() > 0 && all_digits(digits) {
        Some(number(digits))
    } else {
        None
    }
}

/// The number of a longer run of digits is not the smaller one.
pub proof fn lemma_number_grows(text: Seq<char>, upto: int)
    requires
        all_digits(text),
        0 <= upto <= text.len(),
    ensures
        number(text.take(upto)) <= number(text),
    decreases text.len() - upto,
{
    if upto < text.len() {
        lemma_number_grows(text, upto + 1);
        assert(text.take(upto + 1).drop_last() =~= text.take(upto));
        assert(text.take(upto + 1).last() == text[upto]);
    } else {
        assert(text.take(upto) =~= text);
    }
}

fn digit_value(c: char) -> (d: Option<usize>)
    ensures
        match d {
            Some(v) => '0' <= c <= '9' && v == c as int - '0' as int,
            None => !('0' <= c <= '9'),
        },
{
    if '0' <= c && c <= '9' {
        Some((c as u8 - '0' as u8) as usize)
    } else {
        None
    }
}

/// The number that `text` writes, if it writes one and that number is not
/// beyond `usize::MAX`.
pub fn parse_usize(text: &Vec<char>) -> (parsed: Option<usize>)
    ensures
        match parsed {
            Some(n) => parse_number(text@) == Some(n as nat),
            None => match parse_number(text@) {
                Some(n) => n > usize::MAX,
                None => true,
            },
        },
{
    let n = text.len();
    let start: usize = if n > 0 && text[0] == '+' {
        1
    } else {
        0
    };
    let ghost digits = text@.skip(start as int);
    assert(start == 1 ==> text@.drop_first() =~= digits);
    assert(start == 0 ==> text@ =~= digits);
    if start == n {
        return None;
    }
    let mut value: usize = 0;
    let mut i: usize = start;
    assert(digits.take(0) =~= Seq::<char>::empty());
    while i < n
        invariant
            start <= i <= n,
            n == text.len(),
            digits == text@.skip(start as int),
            digits == (if text@.len() > 0 && text@[0] == '+' {
                text@.drop_first()
            } else {
                text@
            }),
            all_digits(digits.take(i - start)),
            value == number(digits.take(i - start)),
        decreases n - i,
    {
        let ghost before = digits.take(i - start);
        let ghost upto = digits.take(i + 1 - start);
        assert(upto.drop_last() =~= before);
        assert(upto.last() == text@[i as int]);
        match digit_value(text[i]) {
            Some(d) => {
                assert(all_digits(upto)) by {
                    assert forall|k: int| 0 <= k < upto.len() implies '0' <= #[trigger] upto[k]
                        <= '9' by {
                        if k < before.len() {
                            assert(upto[k] == before[k]);
                        }
                    }
                }
                assert(number(upto) == value * 10 + d);
                if value > (usize::MAX - d) / 10 {
                    proof {
                        assert(value * 10 + d > usize::MAX);
                        if all_digits(digits) {
                            lemma_number_grows(digits, i + 1 - start);
                        }
                    }
                    return None;
                }
                value = value * 10 + d;
            },
            None => {
                assert(digits[i - start] == text@[i as int]);
                assert(!all_digits(digits));
                return None;
            },
        }
        i += 1;
    }
    assert(digits.take(n - start) =~= digits);
    Some(value)
}

/// The lower-case form of a text, as the standard library makes it for
/// every script of Unicode.
pub uninterp spec fn lowercase(text: Seq<char>) -> Seq<char>;

/// `str::to_lowercase` of the standard library: the result is the lower-case
/// form of `text`, which depends on `text` alone.
#[verifier::external_body]
fn to_lowercase(text: &str) -> (lower: String)
    ensures
        lower@ == lowercase(text@),
{
    text.to_lowercase()
}

/// The lower-case form of `text`.
pub fn lowercase_of(text: &Vec<char>) -> (lower: Vec<char>)
    ensures
        lower@ == lowercase(text@),
{
    let s = string_of(text);
    let l = to_lowercase(s.as_str());
    chars_of(l.as_str())
}

} // verus!
