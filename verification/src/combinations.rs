//! The routes that a request route can stand for, when any of its segments
//! may be a parameter.

use crate::text::{chars_of, push_chars, push_str, split, split_on, string_of};
use vstd::prelude::*;

verus! {

/// `text` without the characters `c` at its start.
pub open spec fn strip_leading(text: Seq<char>, c: char) -> Seq<char>
    decreases text.len(),
{
    if text.len() > 0 && text[0] == c {
        strip_leading(text.drop_first(), c)
    } else {
        text
    }
}

/// The segments of `route`: what stands between its slashes, the slashes at
/// its start left aside.
pub open spec fn route_segments(route: Seq<char>) -> Seq<Seq<char>> {
    split(strip_leading(route, '/'), seq!['/'])
}

/// Whether `mask` turns the segment at index `i` into a parameter.
pub open spec fn chosen(mask: u32, i: u32) -> bool {
    mask & (1u32 << i) != 0
}

/// The route that `mask` makes of the first `upto` of `segments`: a slash in
/// front of every segment, and `:a` in place of every chosen one.
pub open spec fn masked_route(segments: Seq<Seq<char>>, mask: u32, upto: int) -> Seq<char>
    decreases upto,
{
    if upto <= 0 {
        Seq::empty()
    } else {
        masked_route(segments, mask, upto - 1) + seq!['/'] + (if chosen(mask, (upto - 1) as u32) {
            ":a"@
        } else {
            segments[upto - 1]
        })
    }
}

/// How many segments a route may have for its combinations to be listed.
pub const MAX_SEGMENTS: usize = 30;

/// The number of combinations of `n` segments.
pub open spec fn combination_count(n: nat) -> nat {
    if n <= MAX_SEGMENTS {
        (1u32 << (n as u32)) as nat
    } else {
        0
    }
}

/// Removes the characters `c` from the start of `text`.
pub fn strip_leading_of(text: &Vec<char>, c: char) -> (rest: Vec<char>)
    ensures
        rest@ == strip_leading(text@, c),
{
    let mut from: usize = 0;
    assert(text@.skip(0) =~= text@);
    while from < text.len() && text[from] == c
        invariant
            from <= text.len(),
            strip_leading(text@, c) == strip_leading(text@.skip(from as int), c),
        decreases text.len() - from,
    {
        assert(text@.skip(from as int).drop_first() =~= text@.skip(from + 1));
        from += 1;
    }
    assert(text@.skip(from as int) =~= text@.subrange(from as int, text.len() as int));
    crate::text::slice_of(text, from, text.len())
}

/// All the routes that `route` can stand for: for every choice of its
/// segments, the route in which the chosen segments are replaced by `:a`.
/// The choices come in the order of their masks, so the route itself comes
/// first and the route of parameters only comes last. A route of more than
/// thirty segments has none.
pub fn generate_route_combinations(route: &str) -> (routes: Vec<String>)
    ensures
        routes@.len() == combination_count(route_segments(route@).len()),
        forall|mask: int|
            0 <= mask < routes@.len() ==> (#[trigger] routes@[mask])@ == masked_route(
                route_segments(route@),
                mask as u32,
                route_segments(route@).len() as int,
            ),
{
    let text = chars_of(route);
    let trimmed = strip_leading_of(&text, '/');
    let mut slash: Vec<char> = Vec::new();
    slash.push('/');
    assert(slash@ =~= seq!['/']);
    let segments = split_on(&trimmed, &slash);
    let ghost parts = route_segments(route@);
    let n = segments.len();
    assert(n == parts.len());
    let mut routes: Vec<String> = Vec::new();
    if n > MAX_SEGMENTS {
        return routes;
    }
    let count: u32 = 1u32 << (n as u32);
    assert(count <= 0x4000_0000u32) by (bit_vector)
        requires
            count == 1u32 << (n as u32),
            (n as u32) <= 30,
    ;
    let mut mask: u32 = 0;
    while mask < count
        invariant
            mask <= count,
            n == segments.len(),
            n <= MAX_SEGMENTS,
            parts == segments@.map_values(|p: Vec<char>| p@),
            routes@.len() == mask,
            forall|m: int|
                0 <= m < mask ==> (#[trigger] routes@[m])@ == masked_route(parts, m as u32, n as int),
        decreases count - mask,
    {
        let mut out: Vec<char> = Vec::new();
        let mut i: usize = 0;
        while i < n
            invariant
                i <= n,
                n == segments.len(),
                n <= MAX_SEGMENTS,
                parts == segments@.map_values(|p: Vec<char>| p@),
                out@ == masked_route(parts, mask, i as int),
            decreases n - i,
        {
            out.push('/');
            if mask & (1u32 << (i as u32)) != 0 {
                push_str(&mut out, ":a");
            } else {
                push_chars(&mut out, &segments[i]);
                assert(segments@[i as int]@ == parts[i as int]);
            }
            i += 1;
        }
        routes.push(string_of(&out));
        mask += 1;
    }
    routes
}

} // verus!
