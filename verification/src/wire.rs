//! What the head of a request says: its method and route, its headers, the
//! length of its body, and the parameters that a route hands on.

use crate::combinations::{strip_leading, strip_leading_of};
use crate::dict::Dict;
use crate::lines::{lines, lines_of, parse_number, parse_usize, views};
use crate::text::{ascii_lowercase, chars_of, matches_at, split, split_on, split_once,
    split_once_on, starts_with, string_of, to_ascii_lowercase, trim, trim_of};
use vstd::prelude::*;

verus! {

/// The texts of the values of a table.
pub open spec fn texts(table: Map<Seq<char>, String>) -> Map<Seq<char>, Seq<char>> {
    table.map_values(|s: String| s@)
}

/// The first line of `head`: what stands in front of its first line break.
pub open spec fn request_line(head: Seq<char>) -> Seq<char> {
    split(head, "\r\n"@)[0]
}

/// The method that `head` names: the first word of its first line.
pub open spec fn request_method(head: Seq<char>) -> Seq<char> {
    split(request_line(head), " "@)[0]
}

/// The route that `head` names: the second word of its first line, or the
/// empty text if the line has one word only.
pub open spec fn request_route(head: Seq<char>) -> Seq<char> {
    let words = split(request_line(head), " "@);
    if words.len() > 1 {
        words[1]
    } else {
        Seq::empty()
    }
}

/// The method and the route that `head` names.
pub fn method_and_route(head: &str) -> (named: (String, String))
    ensures
        named.0@ == request_method(head@),
        named.1@ == request_route(head@),
{
    proof {
        reveal_strlit("\r\n");
        reveal_strlit(" ");
    }
    let text = chars_of(head);
    let rows = split_on(&text, &chars_of("\r\n"));
    let words = split_on(&rows[0], &chars_of(" "));
    assert(views(rows@)[0] == rows@[0]@);
    assert(views(words@)[0] == words@[0]@);
    let method = string_of(&words[0]);
    let route = if words.len() > 1 {
        assert(views(words@)[1] == words@[1]@);
        string_of(&words[1])
    } else {
        String::new()
    };
    (method, route)
}

/// The headers that `rows` give: every row that holds a colon and a space
/// gives the name in front of them, in lower case, the value behind them. Of
/// two rows with one name the later one counts.
pub open spec fn header_map(rows: Seq<Seq<char>>) -> Map<Seq<char>, Seq<char>>
    decreases rows.len(),
{
    if rows.len() == 0 {
        Map::empty()
    } else {
        let before = header_map(rows.drop_last());
        match split_once(rows.last(), ": "@) {
            Some((name, value)) => before.insert(ascii_lowercase(name), value),
            None => before,
        }
    }
}

/// The headers of `head`: those that the rows behind its first line give.
pub open spec fn request_headers(head: Seq<char>) -> Map<Seq<char>, Seq<char>> {
    header_map(split(head, "\r\n"@).drop_first())
}

/// The headers of `head`.
pub fn headers_of(head: &str) -> (headers: Dict<String>)
    ensures
        headers.wf(),
        texts(headers@) == request_headers(head@),
{
    proof {
        reveal_strlit("\r\n");
        reveal_strlit(": ");
    }
    let text = chars_of(head);
    let rows = split_on(&text, &chars_of("\r\n"));
    let colon = chars_of(": ");
    let mut headers: Dict<String> = Dict::new();
    let ghost given = views(rows@).drop_first();
    let mut i: usize = 1;
    assert(given.take(0) =~= Seq::<Seq<char>>::empty());
    assert(texts(headers@) =~= header_map(given.take(0)));
    while i < rows.len()
        invariant
            1 <= i <= rows.len(),
            colon@ == ": "@,
            given == views(rows@).drop_first(),
            headers.wf(),
            texts(headers@) == header_map(given.take(i - 1)),
        decreases rows.len() - i,
    {
        let ghost before = headers@;
        proof {
            assert(given.take(i as int).drop_last() =~= given.take(i - 1));
            assert(given.take(i as int).last() == rows@[i as int]@);
        }
        match split_once_on(&rows[i], &colon) {
            Some((name, value)) => {
                let key = string_of(&to_ascii_lowercase(&name));
                let held = string_of(&value);
                headers.insert(key, held);
                assert(texts(headers@) =~= texts(before).insert(key@, held@));
            },
            None => {},
        }
        i += 1;
    }
    assert(given.take(rows.len() - 1) =~= given);
    headers
}

/// Whether `row` is a header that gives the length of the body: in lower
/// case it begins with `content-length:`.
pub open spec fn is_length_row(row: Seq<char>) -> bool {
    starts_with(ascii_lowercase(row), "content-length:"@)
}

/// The first of `rows` that gives the length of the body.
pub open spec fn length_row(rows: Seq<Seq<char>>) -> Option<Seq<char>>
    decreases rows.len(),
{
    if rows.len() == 0 {
        None
    } else if is_length_row(rows[0]) {
        Some(rows[0])
    } else {
        length_row(rows.drop_first())
    }
}

/// The length of the body that `head` announces: the number behind the
/// first colon of the first line of `head` that gives it, white space
/// around it left aside. It is zero if no line gives it, or if what stands
/// there is no number or a number beyond `usize::MAX`.
pub open spec fn announced_length(head: Seq<char>) -> nat {
    match length_row(lines(head)) {
        Some(row) => {
            let parts = split(row, ":"@);
            if parts.len() > 1 {
                match parse_number(trim(parts[1])) {
                    Some(n) => if n <= usize::MAX {
                        n
                    } else {
                        0
                    },
                    None => 0,
                }
            } else {
                0
            }
        },
        None => 0,
    }
}

/// The length of the body that `head` announces.
pub fn content_length(head: &str) -> (length: usize)
    ensures
        length == announced_length(head@),
{
    proof {
        reveal_strlit(":");
    }
    let text = chars_of(head);
    let rows = lines_of(&text);
    let prefix = chars_of("content-length:");
    let colon = chars_of(":");
    let ghost all = lines(head@);
    let mut i: usize = 0;
    assert(all.skip(0) =~= all);
    while i < rows.len()
        invariant
            i <= rows.len(),
            prefix@ == "content-length:"@,
            colon@ == ":"@,
            colon.len() > 0,
            all == views(rows@),
            all == lines(head@),
            length_row(all) == length_row(all.skip(i as int)),
        decreases rows.len() - i,
    {
        let ghost rest = all.skip(i as int);
        assert(rest[0] == rows@[i as int]@);
        assert(rest.drop_first() =~= all.skip(i + 1));
        let lower = to_ascii_lowercase(&rows[i]);
        if matches_at(&lower, &prefix, 0) {
            let parts = split_on(&rows[i], &colon);
            if parts.len() > 1 {
                assert(views(parts@)[1] == parts@[1]@);
                let value = trim_of(&parts[1]);
                return match parse_usize(&value) {
                    Some(n) => n,
                    None => 0,
                };
            } else {
                return 0;
            }
        }
        i += 1;
    }
    assert(all.skip(rows.len() as int).len() == 0);
    0
}

/// The position of the first of `pieces` that begins with a colon.
pub open spec fn first_parameter(pieces: Seq<Seq<char>>) -> Option<int>
    decreases pieces.len(),
{
    if pieces.len() == 0 {
        None
    } else if pieces[0].len() > 0 && pieces[0][0] == ':' {
        Some(0)
    } else {
        match first_parameter(pieces.drop_first()) {
            Some(i) => Some(i + 1),
            None => None,
        }
    }
}

/// The parameters that the registered route `registered` takes from the
/// request route `route`. Both are cut at their slashes. The first piece of
/// `registered` that begins with a colon names a parameter, by what follows
/// its colons; its value is the piece of `route` at the same position. There
/// is no parameter if `registered` has no such piece or `route` has no piece
/// there.
pub open spec fn route_parameters(registered: Seq<char>, route: Seq<char>) -> Map<
    Seq<char>,
    Seq<char>,
> {
    let names = split(registered, "/"@);
    let values = split(route, "/"@);
    match first_parameter(names) {
        Some(i) => if 0 <= i < names.len() && i < values.len() {
            Map::empty().insert(strip_leading(names[i], ':'), values[i])
        } else {
            Map::empty()
        },
        None => Map::empty(),
    }
}

/// The parameters that `registered` takes from `route`.
pub fn parameters_of(registered: &str, route: &str) -> (params: Dict<String>)
    ensures
        params.wf(),
        texts(params@) == route_parameters(registered@, route@),
{
    proof {
        reveal_strlit("/");
    }
    let slash = chars_of("/");
    let names = split_on(&chars_of(registered), &slash);
    let values = split_on(&chars_of(route), &slash);
    let mut params: Dict<String> = Dict::new();
    let ghost all = views(names@);
    let mut i: usize = 0;
    assert(all.skip(0) =~= all);
    assert(texts(params@) =~= Map::<Seq<char>, Seq<char>>::empty());
    while i < names.len()
        invariant
            i <= names.len(),
            all == views(names@),
            all == split(registered@, "/"@),
            views(values@) == split(route@, "/"@),
            params.wf(),
            params@ == Map::<Seq<char>, String>::empty(),
            first_parameter(all) == match first_parameter(all.skip(i as int)) {
                Some(k) => Some(k + i),
                None => None,
            },
        decreases names.len() - i,
    {
        let ghost rest = all.skip(i as int);
        assert(rest[0] == names@[i as int]@);
        assert(rest.drop_first() =~= all.skip(i + 1));
        if names[i].len() > 0 && names[i][0] == ':' {
            assert(first_parameter(all) == Some(i as int));
            if i < values.len() {
                assert(views(values@)[i as int] == values@[i as int]@);
                let key = string_of(&strip_leading_of(&names[i], ':'));
                let value = string_of(&values[i]);
                params.insert(key, value);
                assert(texts(params@) =~= Map::<Seq<char>, Seq<char>>::empty().insert(
                    key@,
                    value@,
                ));
            } else {
                assert(texts(params@) =~= Map::<Seq<char>, Seq<char>>::empty());
            }
            return params;
        }
        i += 1;
    }
    assert(all.skip(names.len() as int).len() == 0);
    assert(texts(params@) =~= Map::<Seq<char>, Seq<char>>::empty());
    params
}

} // verus!
