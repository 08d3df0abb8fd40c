//! Text as sequences of characters: conversion from and to strings,
//! comparison, search for a pattern, and decimal numerals.

use vstd::prelude::*;

verus! {

/// The characters of `s`, one by one.
pub fn chars_of(s: &str) -> (v: Vec<char>)
    ensures
        v@ == s@,
{
    let mut v: Vec<char> = Vec::new();
    for c in it: s.chars()
        invariant
            v@ == it.seq().take(it.index() as int),
            it.seq() == s@,
    {
        v.push(c);
    }
    v
}

/// `String::push` of the standard library: appends the one character `c` to
/// the end of `s` and changes nothing else.
#[verifier::external_body]
fn push_char(s: &mut String, c: char)
    ensures
        final(s)@ == old(s)@.push(c),
{
    s.push(c)
}

/// The string made of `chars`.
pub fn string_of(chars: &Vec<char>) -> (s: String)
    ensures
        s@ == chars@,
{
    let mut s = String::new();
    let mut i: usize = 0;
    while i < chars.len()
        invariant
            i <= chars.len(),
            s@ == chars@.take(i as int),
        decreases chars.len() - i,
    {
        push_char(&mut s, chars[i]);
        i += 1;
        assert(chars@.take(i as int) =~= chars@.take(i - 1).push(chars@[i - 1]));
    }
    assert(chars@.take(chars.len() as int) =~= chars@);
    s
}

/// Whether `a` and `b` hold the same characters.
pub fn chars_eq(a: &Vec<char>, b: &Vec<char>) -> (same: bool)
    ensures
        same == (a@ == b@),
{
    if a.len() != b.len() {
        return false;
    }
    let mut i: usize = 0;
    while i < a.len()
        invariant
            i <= a.len(),
            a.len() == b.len(),
            a@.take(i as int) == b@.take(i as int),
        decreases a.len() - i,
    {
        if a[i] != b[i] {
            return false;
        }
        i += 1;
        assert(a@.take(i as int) =~= a@.take(i - 1).push(a@[i - 1]));
        assert(b@.take(i as int) =~= b@.take(i - 1).push(b@[i - 1]));
    }
    assert(a@.take(a.len() as int) =~= a@);
    assert(b@.take(b.len() as int) =~= b@);
    true
}

/// Whether `a` and `b` are the same text.
pub fn same_text(a: &str, b: &str) -> (same: bool)
    ensures
        same == (a@ == b@),
{
    let x = chars_of(a);
    let y = chars_of(b);
    chars_eq(&x, &y)
}

/// Whether `pattern` stands in `text` at position `i`.
pub open spec fn occurs_at(text: Seq<char>, pattern: Seq<char>, i: int) -> bool {
    &&& 0 <= i
    &&& i + pattern.len() <= text.len()
    &&& text.subrange(i, i + pattern.len()) == pattern
}

/// Whether `pattern` stands somewhere in `text`.
pub open spec fn contains(text: Seq<char>, pattern: Seq<char>) -> bool {
    exists|i: int| occurs_at(text, pattern, i)
}

/// Whether `i` is the first position at which `pattern` stands in `text`.
pub open spec fn first_at(text: Seq<char>, pattern: Seq<char>, i: int) -> bool {
    &&& occurs_at(text, pattern, i)
    &&& forall|j: int| 0 <= j < i ==> !occurs_at(text, pattern, j)
}

/// The first position at which `pattern` stands in `text`, if it stands
/// anywhere in it.
pub open spec fn find(text: Seq<char>, pattern: Seq<char>) -> Option<int> {
    if contains(text, pattern) {
        Some(choose|i: int| first_at(text, pattern, i))
    } else {
        None
    }
}

/// There is one first position: what is a first position is what `find` gives.
pub proof fn lemma_find_is_first(text: Seq<char>, pattern: Seq<char>, i: int)
    requires
        first_at(text, pattern, i),
    ensures
        find(text, pattern) == Some(i),
{
    let c = choose|c: int| first_at(text, pattern, c);
    assert(first_at(text, pattern, c));
    if c < i {
        assert(!occurs_at(text, pattern, c));
    }
    if i < c {
        assert(!occurs_at(text, pattern, i));
    }
}

/// Without an occurrence `find` gives nothing.
pub proof fn lemma_find_none(text: Seq<char>, pattern: Seq<char>)
    requires
        forall|j: int| 0 <= j ==> !occurs_at(text, pattern, j),
    ensures
        find(text, pattern) is None,
{
    if contains(text, pattern) {
        let j = choose|j: int| occurs_at(text, pattern, j);
        assert(!occurs_at(text, pattern, j));
    }
}

/// Whether `pattern` stands in `text` at position `i`, found by comparing
/// character by character.
pub fn matches_at(text: &Vec<char>, pattern: &Vec<char>, i: usize) -> (found: bool)
    ensures
        found == occurs_at(text@, pattern@, i as int),
{
    let n = text.len();
    let m = pattern.len();
    if m > n || i > n - m {
        return false;
    }
    let mut j: usize = 0;
    while j < m
        invariant
            j <= m,
            m == pattern.len(),
            n == text.len(),
            i + m <= n,
            text@.subrange(i as int, i + j) == pattern@.take(j as int),
        decreases m - j,
    {
        if text[i + j] != pattern[j] {
            assert(text@.subrange(i as int, i + m)[j as int] != pattern@[j as int]);
            return false;
        }
        j += 1;
        assert(text@.subrange(i as int, i + j) =~= text@.subrange(i as int, i + j - 1).push(
            text@[i + j - 1],
        ));
        assert(pattern@.take(j as int) =~= pattern@.take(j - 1).push(pattern@[j - 1]));
    }
    assert(pattern@.take(m as int) =~= pattern@);
    true
}

/// The first position at or behind `from` at which `pattern` stands in
/// `text`, or `None` if there is none.
pub fn find_from(text: &Vec<char>, pattern: &Vec<char>, from: usize) -> (at: Option<usize>)
    ensures
        match at {
            Some(i) => {
                &&& from <= i
                &&& occurs_at(text@, pattern@, i as int)
                &&& forall|j: int| from <= j < i ==> !occurs_at(text@, pattern@, j)
            },
            None => forall|j: int| from <= j ==> !occurs_at(text@, pattern@, j),
        },
{
    let n = text.len();
    let m = pattern.len();
    if m > n || from > n - m {
        return None;
    }
    let last = n - m;
    let mut i: usize = from;
    loop
        invariant
            from <= i <= last,
            last == n - m,
            n == text.len(),
            m == pattern.len(),
            forall|j: int| from <= j < i ==> !occurs_at(text@, pattern@, j),
        decreases last - i,
    {
        if matches_at(text, pattern, i) {
            return Some(i);
        }
        if i == last {
            return None;
        }
        i += 1;
    }
}

/// The digit character of `d`, for `d` below ten.
pub open spec fn digit(d: nat) -> char {
    if d == 0 {
        '0'
    } else if d == 1 {
        '1'
    } else if d == 2 {
        '2'
    } else if d == 3 {
        '3'
    } else if d == 4 {
        '4'
    } else if d == 5 {
        '5'
    } else if d == 6 {
        '6'
    } else if d == 7 {
        '7'
    } else if d == 8 {
        '8'
    } else {
        '9'
    }
}

/// The decimal numeral of `n`, without sign and without leading zeros.
pub open spec fn decimal(n: nat) -> Seq<char>
    decreases n,
{
    if n < 10 {
        seq![digit(n)]
    } else {
        decimal(n / 10).push(digit(n % 10))
    }
}

fn digit_of(d: u64) -> (c: char)
    requires
        d < 10,
    ensures
        c == digit(d as nat),
{
    if d == 0 {
        '0'
    } else if d == 1 {
        '1'
    } else if d == 2 {
        '2'
    } else if d == 3 {
        '3'
    } else if d == 4 {
        '4'
    } else if d == 5 {
        '5'
    } else if d == 6 {
        '6'
    } else if d == 7 {
        '7'
    } else if d == 8 {
        '8'
    } else {
        '9'
    }
}

/// Appends the decimal numeral of `n` to `out`.
pub fn push_decimal(out: &mut Vec<char>, n: u64)
    ensures
        final(out)@ == old(out)@ + decimal(n as nat),
    decreases n,
{
    if n < 10 {
        out.push(digit_of(n));
        assert(out@ =~= old(out)@ + decimal(n as nat));
    } else {
        push_decimal(out, n / 10);
        out.push(digit_of(n % 10));
        assert(out@ =~= old(out)@ + decimal(n as nat));
    }
}

/// Appends the characters of `s` to `out`.
pub fn push_str(out: &mut Vec<char>, s: &str)
    ensures
        final(out)@ == old(out)@ + s@,
{
    for c in it: s.chars()
        invariant
            out@ == old(out)@ + it.seq().take(it.index() as int),
            it.seq() == s@,
    {
        out.push(c);
        assert(old(out)@ + it.seq().take(it.index() + 1) =~= (old(out)@ + it.seq().take(
            it.index() as int,
        )).push(c));
    }
    assert(s@.take(s@.len() as int) =~= s@);
}

/// Appends `chars` to `out`.
pub fn push_chars(out: &mut Vec<char>, chars: &Vec<char>)
    ensures
        final(out)@ == old(out)@ + chars@,
{
    let mut i: usize = 0;
    while i < chars.len()
        invariant
            i <= chars.len(),
            out@ == old(out)@ + chars@.take(i as int),
        decreases chars.len() - i,
    {
        out.push(chars[i]);
        i += 1;
        assert(old(out)@ + chars@.take(i as int) =~= (old(out)@ + chars@.take(i - 1)).push(
            chars@[i - 1],
        ));
    }
    assert(chars@.take(chars.len() as int) =~= chars@);
}

/// The characters of `text` from position `from` up to, not including,
/// position `to`.
pub fn slice_of(text: &Vec<char>, from: usize, to: usize) -> (part: Vec<char>)
    requires
        from <= to <= text.len(),
    ensures
        part@ == text@.subrange(from as int, to as int),
{
    let mut part: Vec<char> = Vec::new();
    let mut i: usize = from;
    while i < to
        invariant
            from <= i <= to <= text.len(),
            part@ == text@.subrange(from as int, i as int),
        decreases to - i,
    {
        part.push(text[i]);
        i += 1;
        assert(text@.subrange(from as int, i as int) =~= text@.subrange(from as int, i - 1).push(
            text@[i - 1],
        ));
    }
    part
}

/// The lower-case form of an ASCII capital letter; any other character
/// unchanged.
pub open spec fn ascii_lower(c: char) -> char {
    if 'A' <= c <= 'Z' {
        ((c as u8) + 32) as char
    } else {
        c
    }
}

/// `text` with every ASCII capital letter replaced by its lower-case form.
pub open spec fn ascii_lowercase(text: Seq<char>) -> Seq<char> {
    Seq::new(text.len(), |i: int| ascii_lower(text[i]))
}

fn lower_of(c: char) -> (l: char)
    ensures
        l == ascii_lower(c),
{
    if 'A' <= c && c <= 'Z' {
        ((c as u8) + 32) as char
    } else {
        c
    }
}

/// `text` with every ASCII capital letter replaced by its lower-case form.
pub fn to_ascii_lowercase(text: &Vec<char>) -> (lower: Vec<char>)
    ensures
        lower@ == ascii_lowercase(text@),
{
    let mut lower: Vec<char> = Vec::new();
    let mut i: usize = 0;
    while i < text.len()
        invariant
            i <= text.len(),
            lower@ == ascii_lowercase(text@).take(i as int),
        decreases text.len() - i,
    {
        lower.push(lower_of(text[i]));
        i += 1;
        assert(ascii_lowercase(text@).take(i as int) =~= ascii_lowercase(text@).take(i - 1).push(
            ascii_lower(text@[i - 1]),
        ));
    }
    assert(ascii_lowercase(text@).take(text.len() as int) =~= ascii_lowercase(text@));
    lower
}

/// The first position at which `pattern` stands in `text`, if any.
pub fn find_in(text: &Vec<char>, pattern: &Vec<char>) -> (at: Option<usize>)
    ensures
        match at {
            Some(i) => find(text@, pattern@) == Some(i as int) && first_at(
                text@,
                pattern@,
                i as int,
            ),
            None => find(text@, pattern@) is None,
        },
        (at is Some) == contains(text@, pattern@),
{
    let at = find_from(text, pattern, 0);
    proof {
        match at {
            Some(i) => lemma_find_is_first(text@, pattern@, i as int),
            None => lemma_find_none(text@, pattern@),
        }
    }
    at
}

/// The pieces into which the occurrences of `separator` cut `text`: the text
/// in front of the first occurrence, then the pieces of what follows that
/// occurrence. An occurrence that overlaps an earlier one does not count. A
/// text without an occurrence is one piece.
pub open spec fn split(text: Seq<char>, separator: Seq<char>) -> Seq<Seq<char>>
    decreases text.len(),
{
    match find(text, separator) {
        Some(i) => if separator.len() > 0 && 0 <= i && i + separator.len() <= text.len() {
            seq![text.take(i)] + split(text.skip(i + separator.len()), separator)
        } else {
            seq![text]
        },
        None => seq![text],
    }
}

/// An occurrence of `pattern` in what follows position `from` of `text` is an
/// occurrence in `text`, `from` places further on.
pub proof fn lemma_occurs_in_rest(text: Seq<char>, pattern: Seq<char>, from: int, j: int)
    requires
        0 <= from <= text.len(),
    ensures
        occurs_at(text.skip(from), pattern, j) == (occurs_at(text, pattern, from + j) && 0 <= j),
{
    if 0 <= j && j + pattern.len() <= text.len() - from {
        assert(text.skip(from).subrange(j, j + pattern.len()) =~= text.subrange(
            from + j,
            from + j + pattern.len(),
        ));
    }
}

/// The pieces into which the occurrences of `separator` cut `text`.
pub fn split_on(text: &Vec<char>, separator: &Vec<char>) -> (pieces: Vec<Vec<char>>)
    requires
        separator.len() > 0,
    ensures
        pieces@.len() > 0,
        pieces@.map_values(|p: Vec<char>| p@) == split(text@, separator@),
{
    let mut pieces: Vec<Vec<char>> = Vec::new();
    let mut from: usize = 0;
    assert(text@.skip(0) =~= text@);
    assert(pieces@.map_values(|p: Vec<char>| p@) + split(text@, separator@) =~= split(
        text@,
        separator@,
    ));
    loop
        invariant_except_break
            split(text@, separator@) == pieces@.map_values(|p: Vec<char>| p@) + split(
                text@.skip(from as int),
                separator@,
            ),
        invariant
            separator.len() > 0,
            from <= text.len(),
        ensures
            pieces@.len() > 0,
            pieces@.map_values(|p: Vec<char>| p@) == split(text@, separator@),
        decreases text.len() - from,
    {
        let ghost rest = text@.skip(from as int);
        let ghost done = pieces@.map_values(|p: Vec<char>| p@);
        match find_from(text, separator, from) {
            Some(i) => {
                proof {
                    assert forall|j: int| 0 <= j < i - from implies !occurs_at(
                        rest,
                        separator@,
                        j,
                    ) by {
                        lemma_occurs_in_rest(text@, separator@, from as int, j);
                    }
                    lemma_occurs_in_rest(text@, separator@, from as int, i - from);
                    lemma_find_is_first(rest, separator@, i - from);
                    assert(rest.take(i - from) =~= text@.subrange(from as int, i as int));
                    assert(rest.skip(i - from + separator@.len()) =~= text@.skip(
                        i + separator@.len(),
                    ));
                }
                let piece = slice_of(text, from, i);
                pieces.push(piece);
                from = i + separator.len();
                assert(pieces@.map_values(|p: Vec<char>| p@) =~= done + seq![piece@]);
                assert(split(text@, separator@) =~= pieces@.map_values(|p: Vec<char>| p@) + split(
                    text@.skip(from as int),
                    separator@,
                ));
            },
            None => {
                proof {
                    assert forall|j: int| 0 <= j implies !occurs_at(rest, separator@, j) by {
                        lemma_occurs_in_rest(text@, separator@, from as int, j);
                    }
                    lemma_find_none(rest, separator@);
                    assert(rest =~= text@.subrange(from as int, text@.len() as int));
                }
                let piece = slice_of(text, from, text.len());
                pieces.push(piece);
                assert(pieces@.map_values(|p: Vec<char>| p@) =~= done + seq![piece@]);
                break ;
            },
        }
    }
    pieces
}

/// Whether `text` begins with `prefix`.
pub open spec fn starts_with(text: Seq<char>, prefix: Seq<char>) -> bool {
    occurs_at(text, prefix, 0)
}

/// Whether `text` ends with `suffix`.
pub open spec fn ends_with(text: Seq<char>, suffix: Seq<char>) -> bool {
    occurs_at(text, suffix, text.len() - suffix.len())
}

/// `text` cut at the first occurrence of `separator`: what stands in front
/// of it and what stands behind it.
pub open spec fn split_once(text: Seq<char>, separator: Seq<char>) -> Option<
    (Seq<char>, Seq<char>),
> {
    match find(text, separator) {
        Some(i) => Some((text.take(i), text.skip(i + separator.len()))),
        None => None,
    }
}

/// `text` cut at the first occurrence of `separator`, if there is one.
pub fn split_once_on(text: &Vec<char>, separator: &Vec<char>) -> (cut: Option<
    (Vec<char>, Vec<char>),
>)
    ensures
        match cut {
            Some((front, back)) => split_once(text@, separator@) == Some((front@, back@)),
            None => split_once(text@, separator@) is None,
        },
{
    match find_in(text, separator) {
        Some(i) => {
            let n = text.len();
            let m = separator.len();
            assert(i + m <= n);
            let front = slice_of(text, 0, i);
            let back = slice_of(text, i + m, n);
            assert(front@ =~= text@.take(i as int));
            assert(back@ =~= text@.skip(i + separator@.len()));
            Some((front, back))
        },
        None => None,
    }
}

/// `text` without the characters of `set` at its start.
pub open spec fn strip_start_any(text: Seq<char>, set: Seq<char>) -> Seq<char>
    decreases text.len(),
{
    if text.len() > 0 && set.contains(text[0]) {
        strip_start_any(text.drop_first(), set)
    } else {
        text
    }
}

/// `text` without the characters of `set` at its end.
pub open spec fn strip_end_any(text: Seq<char>, set: Seq<char>) -> Seq<char>
    decreases text.len(),
{
    if text.len() > 0 && set.contains(text.last()) {
        strip_end_any(text.drop_last(), set)
    } else {
        text
    }
}

/// `text` without the characters of `set` at its start and at its end.
pub open spec fn trim_any(text: Seq<char>, set: Seq<char>) -> Seq<char> {
    strip_end_any(strip_start_any(text, set), set)
}

/// Whether `c` is one of `set`.
pub fn is_in(c: char, set: &Vec<char>) -> (found: bool)
    ensures
        found == set@.contains(c),
{
    let mut i: usize = 0;
    while i < set.len()
        invariant
            i <= set.len(),
            forall|j: int| 0 <= j < i ==> set@[j] != c,
        decreases set.len() - i,
    {
        if set[i] == c {
            return true;
        }
        i += 1;
    }
    false
}

/// Where what is left of `text[from..to]` begins, once the characters of
/// `set` at its start are dropped.
fn skip_start_any(text: &Vec<char>, set: &Vec<char>, from: usize, to: usize) -> (at: usize)
    requires
        from <= to <= text.len(),
    ensures
        from <= at <= to,
        text@.subrange(at as int, to as int) == strip_start_any(
            text@.subrange(from as int, to as int),
            set@,
        ),
{
    let mut at: usize = from;
    while at < to && is_in(text[at], set)
        invariant
            from <= at <= to <= text.len(),
            strip_start_any(text@.subrange(at as int, to as int), set@) == strip_start_any(
                text@.subrange(from as int, to as int),
                set@,
            ),
        decreases to - at,
    {
        assert(text@.subrange(at as int, to as int).drop_first() =~= text@.subrange(
            at + 1,
            to as int,
        ));
        at += 1;
    }
    at
}

/// Where what is left of `text[from..to]` ends, once the characters of `set`
/// at its end are dropped.
fn skip_end_any(text: &Vec<char>, set: &Vec<char>, from: usize, to: usize) -> (at: usize)
    requires
        from <= to <= text.len(),
    ensures
        from <= at <= to,
        text@.subrange(from as int, at as int) == strip_end_any(
            text@.subrange(from as int, to as int),
            set@,
        ),
{
    let mut at: usize = to;
    while at > from && is_in(text[at - 1], set)
        invariant
            from <= at <= to <= text.len(),
            strip_end_any(text@.subrange(from as int, at as int), set@) == strip_end_any(
                text@.subrange(from as int, to as int),
                set@,
            ),
        decreases at - from,
    {
        assert(text@.subrange(from as int, at as int).drop_last() =~= text@.subrange(
            from as int,
            at - 1,
        ));
        at -= 1;
    }
    at
}

/// `text` without the characters of `set` at its start.
pub fn strip_start_any_of(text: &Vec<char>, set: &Vec<char>) -> (rest: Vec<char>)
    ensures
        rest@ == strip_start_any(text@, set@),
{
    assert(text@.subrange(0, text.len() as int) =~= text@);
    let from = skip_start_any(text, set, 0, text.len());
    slice_of(text, from, text.len())
}

/// `text` without the characters of `set` at its end.
pub fn strip_end_any_of(text: &Vec<char>, set: &Vec<char>) -> (rest: Vec<char>)
    ensures
        rest@ == strip_end_any(text@, set@),
{
    assert(text@.subrange(0, text.len() as int) =~= text@);
    let to = skip_end_any(text, set, 0, text.len());
    slice_of(text, 0, to)
}

/// `text` without the characters of `set` at its start and at its end.
pub fn trim_any_of(text: &Vec<char>, set: &Vec<char>) -> (rest: Vec<char>)
    ensures
        rest@ == trim_any(text@, set@),
{
    assert(text@.subrange(0, text.len() as int) =~= text@);
    let from = skip_start_any(text, set, 0, text.len());
    let to = skip_end_any(text, set, from, text.len());
    slice_of(text, from, to)
}

/// The characters that count as white space: those with the Unicode property
/// White_Space.
pub open spec fn white_space() -> Seq<char> {
    seq![
        '\u{9}',
        '\u{a}',
        '\u{b}',
        '\u{c}',
        '\u{d}',
        ' ',
        '\u{85}',
        '\u{a0}',
        '\u{1680}',
        '\u{2000}',
        '\u{2001}',
        '\u{2002}',
        '\u{2003}',
        '\u{2004}',
        '\u{2005}',
        '\u{2006}',
        '\u{2007}',
        '\u{2008}',
        '\u{2009}',
        '\u{200a}',
        '\u{2028}',
        '\u{2029}',
        '\u{202f}',
        '\u{205f}',
        '\u{3000}',
    ]
}

/// The white space characters, as a vector.
pub fn white_space_chars() -> (set: Vec<char>)
    ensures
        set@ == white_space(),
{
    let set = vec![
        '\u{9}',
        '\u{a}',
        '\u{b}',
        '\u{c}',
        '\u{d}',
        ' ',
        '\u{85}',
        '\u{a0}',
        '\u{1680}',
        '\u{2000}',
        '\u{2001}',
        '\u{2002}',
        '\u{2003}',
        '\u{2004}',
        '\u{2005}',
        '\u{2006}',
        '\u{2007}',
        '\u{2008}',
        '\u{2009}',
        '\u{200a}',
        '\u{2028}',
        '\u{2029}',
        '\u{202f}',
        '\u{205f}',
        '\u{3000}',
    ];
    assert(set@ =~= white_space());
    set
}

/// `text` without white space at its start and at its end.
pub open spec fn trim(text: Seq<char>) -> Seq<char> {
    trim_any(text, white_space())
}

/// `text` without white space at its start and at its end.
pub fn trim_of(text: &Vec<char>) -> (rest: Vec<char>)
    ensures
        rest@ == trim(text@),
{
    let set = white_space_chars();
    trim_any_of(text, &set)
}

/// `text` without the copies of `prefix` at its start. An empty prefix
/// takes nothing away.
pub open spec fn strip_prefixes(text: Seq<char>, prefix: Seq<char>) -> Seq<char>
    decreases text.len(),
{
    if prefix.len() > 0 && starts_with(text, prefix) {
        strip_prefixes(text.skip(prefix.len() as int), prefix)
    } else {
        text
    }
}

/// `text` without the copies of `suffix` at its end. An empty suffix takes
/// nothing away.
pub open spec fn strip_suffixes(text: Seq<char>, suffix: Seq<char>) -> Seq<char>
    decreases text.len(),
{
    if suffix.len() > 0 && ends_with(text, suffix) {
        strip_suffixes(text.take(text.len() - suffix.len()), suffix)
    } else {
        text
    }
}

/// `text` without the copies of `prefix` at its start.
pub fn strip_prefixes_of(text: &Vec<char>, prefix: &Vec<char>) -> (rest: Vec<char>)
    ensures
        rest@ == strip_prefixes(text@, prefix@),
{
    let m = prefix.len();
    let mut from: usize = 0;
    assert(text@.skip(0) =~= text@);
    while m > 0 && matches_at(text, prefix, from)
        invariant
            from <= text.len(),
            m == prefix.len(),
            strip_prefixes(text@, prefix@) == strip_prefixes(text@.skip(from as int), prefix@),
        decreases text.len() - from,
    {
        proof {
            lemma_occurs_in_rest(text@, prefix@, from as int, 0);
            assert(text@.skip(from as int).skip(m as int) =~= text@.skip(from + m));
        }
        from += m;
    }
    proof {
        lemma_occurs_in_rest(text@, prefix@, from as int, 0);
        assert(text@.skip(from as int) =~= text@.subrange(from as int, text.len() as int));
    }
    slice_of(text, from, text.len())
}

/// `text` without the copies of `suffix` at its end.
pub fn strip_suffixes_of(text: &Vec<char>, suffix: &Vec<char>) -> (rest: Vec<char>)
    ensures
        rest@ == strip_suffixes(text@, suffix@),
{
    let m = suffix.len();
    let mut to: usize = text.len();
    assert(text@.take(to as int) =~= text@);
    while m > 0 && to >= m && matches_at(text, suffix, to - m)
        invariant
            to <= text.len(),
            m == suffix.len(),
            strip_suffixes(text@, suffix@) == strip_suffixes(text@.take(to as int), suffix@),
        decreases to,
    {
        proof {
            let t = text@.take(to as int);
            assert(t.subrange(to - m, to as int) =~= text@.subrange(to - m, to as int));
            assert(t.take(t.len() - m) =~= text@.take(to - m));
        }
        to -= m;
    }
    proof {
        let t = text@.take(to as int);
        if m > 0 && to >= m {
            assert(t.subrange(to - m, to as int) =~= text@.subrange(to - m, to as int));
        }
        assert(t =~= text@.subrange(0, to as int));
    }
    slice_of(text, 0, to)
}

} // verus!
