//! The file of an upload: its name, its content, and the lines of it that
//! speak of an exception.

use crate::lines::{lines, lines_of, lowercase, lowercase_of, views};
use crate::multipart::{marker, marker_of, utf8, utf8_of};
use crate::text::{chars_of, contains, find, find_in, push_chars, slice_of, split, split_on,
    string_of, strip_suffixes, strip_suffixes_of, trim, trim_of};
use vstd::prelude::*;

verus! {

/// The second of `pieces`, if there are two.
pub open spec fn second(pieces: Seq<Seq<char>>) -> Option<Seq<char>> {
    if pieces.len() > 1 {
        Some(pieces[1])
    } else {
        None
    }
}

/// The boundary that the content type `content_type` names, with the two
/// hyphens that stand in front of it in a body: what follows the first
/// `boundary=`, up to the next one, without the white space around it.
pub open spec fn boundary_in(content_type: Seq<char>) -> Option<Seq<char>> {
    match second(split(content_type, "boundary="@)) {
        Some(named) => Some("--"@ + trim(named)),
        None => None,
    }
}

/// Whether the line whose lower-case form is `lower` speaks of an exception.
pub open spec fn speaks_of_exception(lower: Seq<char>) -> bool {
    contains(lower, "exception"@)
}

/// Whether the line whose lower-case form is `lower` speaks of an exception.
pub fn mentions_exception(lower: &Vec<char>) -> (found: bool)
    ensures
        found == speaks_of_exception(lower@),
{
    find_in(lower, &chars_of("exception")).is_some()
}

/// How many of `rows` speak of an exception, in capital or in small letters.
pub open spec fn exception_lines(rows: Seq<Seq<char>>) -> nat
    decreases rows.len(),
{
    if rows.len() == 0 {
        0
    } else {
        exception_lines(rows.drop_last()) + (if speaks_of_exception(lowercase(rows.last())) {
            1nat
        } else {
            0nat
        })
    }
}

/// No more lines speak of an exception than there are lines.
pub proof fn lemma_exception_lines_fit(rows: Seq<Seq<char>>)
    ensures
        exception_lines(rows) <= rows.len(),
    decreases rows.len(),
{
    if rows.len() > 0 {
        lemma_exception_lines_fit(rows.drop_last());
    }
}

/// How many lines of `content` speak of an exception.
pub fn count_exception_lines(content: &Vec<char>) -> (count: usize)
    ensures
        count == exception_lines(lines(content@)),
{
    let rows = lines_of(content);
    let ghost all = lines(content@);
    let mut count: usize = 0;
    let mut i: usize = 0;
    assert(all.take(0) =~= Seq::<Seq<char>>::empty());
    while i < rows.len()
        invariant
            i <= rows.len(),
            all == views(rows@),
            count <= i,
            count == exception_lines(all.take(i as int)),
        decreases rows.len() - i,
    {
        proof {
            assert(all.take(i + 1).drop_last() =~= all.take(i as int));
            assert(all.take(i + 1).last() == rows@[i as int]@);
        }
        let lower = lowercase_of(&rows[i]);
        if mentions_exception(&lower) {
            count += 1;
        }
        i += 1;
    }
    assert(all.take(rows.len() as int) =~= all);
    count
}

/// Whether `part` is the part of a form that holds the field `file`.
pub open spec fn is_file_part(part: Seq<char>) -> bool {
    contains(part, "Content-Disposition"@) && contains(part, "name=\"file\""@)
}

/// The first of `parts` that holds the field `file`.
pub open spec fn first_file_part(parts: Seq<Seq<char>>) -> Option<Seq<char>>
    decreases parts.len(),
{
    if parts.len() == 0 {
        None
    } else if is_file_part(parts[0]) {
        Some(parts[0])
    } else {
        first_file_part(parts.drop_first())
    }
}

/// The name of the file of `part`: what stands between the first two
/// quotation marks behind the first `filename=`, or `unknown.txt` if the
/// part has no `filename=` or no quotation mark behind it.
pub open spec fn file_name_of(part: Seq<char>) -> Seq<char> {
    match second(split(part, "filename="@)) {
        Some(behind) => match second(split(behind, "\""@)) {
            Some(name) => name,
            None => "unknown.txt"@,
        },
        None => "unknown.txt"@,
    }
}

/// The content of the file of `part`: what stands between the first and the
/// second empty line, without the hyphens at its end and without the white
/// space around it; empty if the part has no empty line.
pub open spec fn file_content_of(part: Seq<char>) -> Seq<char> {
    trim(
        strip_suffixes(
            match second(split(part, "\r\n\r\n"@)) {
                Some(content) => content,
                None => Seq::empty(),
            },
            "--"@,
        ),
    )
}

/// The name of the uploaded file and the number of its lines that speak of
/// an exception. The body is cut at every occurrence of `boundary`; the
/// first part that holds the field `file` is the upload. There is none if no
/// part holds it, and none if the boundary is empty: then the body falls
/// into its single characters.
pub open spec fn counted(body: Seq<char>, boundary: Seq<char>) -> Option<(Seq<char>, nat)> {
    if boundary.len() == 0 {
        None
    } else {
        match first_file_part(split(body, boundary)) {
            Some(part) => Some((file_name_of(part), exception_lines(lines(file_content_of(part))))),
            None => None,
        }
    }
}

/// The name in a disposition line: what stands between `filename="` and the
/// next quotation mark.
pub open spec fn quoted_name(line: Seq<char>) -> Option<Seq<char>> {
    match find(line, "filename=\""@) {
        Some(start) => {
            let rest = line.skip(start + 10);
            match find(rest, "\""@) {
                Some(end) => Some(rest.take(end)),
                None => None,
            }
        },
        None => None,
    }
}

/// The first of `rows` in which `pattern` stands.
pub open spec fn first_row_with(rows: Seq<Seq<char>>, pattern: Seq<char>) -> Option<Seq<char>>
    decreases rows.len(),
{
    if rows.len() == 0 {
        None
    } else if contains(rows[0], pattern) {
        Some(rows[0])
    } else {
        first_row_with(rows.drop_first(), pattern)
    }
}

/// The name of a file that `part` gives: the quoted name in its first line
/// that holds `Content-Disposition`.
pub open spec fn part_file_name(part: Seq<char>) -> Option<Seq<char>> {
    match first_row_with(lines(part), "Content-Disposition"@) {
        Some(line) => quoted_name(line),
        None => None,
    }
}

/// The name of a file that the first of `parts` gives that gives one.
pub open spec fn first_file_name(parts: Seq<Seq<char>>) -> Option<Seq<char>>
    decreases parts.len(),
{
    if parts.len() == 0 {
        None
    } else {
        match part_file_name(parts[0]) {
            Some(name) => Some(name),
            None => first_file_name(parts.drop_first()),
        }
    }
}

/// The content of a file that `part` holds: if the part holds
/// `Content-Disposition` and `filename=` and an empty line, the bytes of
/// what stands behind the first empty line, without the line breaks at its
/// end.
pub open spec fn part_file_content(part: Seq<char>) -> Option<Seq<u8>> {
    if contains(part, "Content-Disposition"@) && contains(part, "filename="@) {
        match find(part, "\r\n\r\n"@) {
            Some(i) => Some(utf8(strip_suffixes(part.skip(i + 4), "\r\n"@))),
            None => None,
        }
    } else {
        None
    }
}

/// The content of a file that the first of `parts` holds that holds one.
pub open spec fn first_file_content(parts: Seq<Seq<char>>) -> Option<Seq<u8>>
    decreases parts.len(),
{
    if parts.len() == 0 {
        None
    } else {
        match part_file_content(parts[0]) {
            Some(content) => Some(content),
            None => first_file_content(parts.drop_first()),
        }
    }
}

/// The second of the pieces into which `separator` cuts `text`.
fn second_piece(text: &Vec<char>, separator: &Vec<char>) -> (piece: Option<Vec<char>>)
    requires
        separator.len() > 0,
    ensures
        match piece {
            Some(p) => second(split(text@, separator@)) == Some(p@),
            None => second(split(text@, separator@)) is None,
        },
{
    let mut pieces = split_on(text, separator);
    if pieces.len() > 1 {
        assert(views(pieces@)[1] == pieces@[1]@);
        Some(pieces.swap_remove(1))
    } else {
        None
    }
}

/// Reads the parts of an upload.
pub struct MultipartParser;

impl MultipartParser {
    /// The boundary that `content_type` names, with two hyphens in front.
    pub fn extract_boundary(content_type: &str) -> (boundary: Option<String>)
        ensures
            match boundary {
                Some(b) => boundary_in(content_type@) == Some(b@),
                None => boundary_in(content_type@) is None,
            },
    {
        proof {
            reveal_strlit("boundary=");
        }
        match second_piece(&chars_of(content_type), &chars_of("boundary=")) {
            Some(named) => {
                let mut out = chars_of("--");
                push_chars(&mut out, &trim_of(&named));
                Some(string_of(&out))
            },
            None => None,
        }
    }

    /// The name of the uploaded file and the number of its lines that speak
    /// of an exception, or the message that there is no file part.
    pub fn parse_file_and_count_exceptions(body: &str, boundary: &str) -> (outcome: Result<
        (String, u64),
        String,
    >)
        ensures
            match outcome {
                Ok((name, count)) => counted(body@, boundary@) == Some((name@, count as nat)),
                Err(message) => counted(body@, boundary@) is None && message@
                    == "No file part found"@,
            },
    {
        proof {
            reveal_strlit("filename=");
            reveal_strlit("\"");
            reveal_strlit("\r\n\r\n");
        }
        let mark = chars_of(boundary);
        if mark.len() == 0 {
            return Err("No file part found".to_owned());
        }
        let parts = split_on(&chars_of(body), &mark);
        let disposition = chars_of("Content-Disposition");
        let field = chars_of("name=\"file\"");
        let word = chars_of("filename=");
        let quote = chars_of("\"");
        let blank = chars_of("\r\n\r\n");
        let ghost all = views(parts@);
        let mut i: usize = 0;
        assert(all.skip(0) =~= all);
        while i < parts.len()
            invariant
                i <= parts.len(),
                all == views(parts@),
                all == split(body@, boundary@),
                boundary@.len() > 0,
                disposition@ == "Content-Disposition"@,
                field@ == "name=\"file\""@,
                word@ == "filename="@,
                word.len() > 0,
                quote@ == "\""@,
                quote.len() > 0,
                blank@ == "\r\n\r\n"@,
                blank.len() > 0,
                first_file_part(all) == first_file_part(all.skip(i as int)),
            decreases parts.len() - i,
        {
            let ghost rest = all.skip(i as int);
            assert(rest[0] == parts@[i as int]@);
            assert(rest.drop_first() =~= all.skip(i + 1));
            let part = &parts[i];
            if find_in(part, &disposition).is_some() && find_in(part, &field).is_some() {
                let name = match second_piece(part, &word) {
                    Some(behind) => match second_piece(&behind, &quote) {
                        Some(name) => string_of(&name),
                        None => "unknown.txt".to_owned(),
                    },
                    None => "unknown.txt".to_owned(),
                };
                let raw = match second_piece(part, &blank) {
                    Some(content) => content,
                    None => {
                        let empty: Vec<char> = Vec::new();
                        assert(empty@ =~= Seq::<char>::empty());
                        empty
                    },
                };
                let content = trim_of(&strip_suffixes_of(&raw, &chars_of("--")));
                let count = count_exception_lines(&content);
                return Ok((name, count as u64));
            }
            i += 1;
        }
        assert(all.skip(parts.len() as int).len() == 0);
        Err("No file part found".to_owned())
    }

    /// The name of the uploaded file: the body is cut at the marks between
    /// its parts, and the first part that gives a name of a file gives it.
    pub fn extract_filename(body: &str, boundary: &str) -> (name: Option<String>)
        ensures
            match name {
                Some(n) => first_file_name(split(body@, marker(boundary@))) == Some(n@),
                None => first_file_name(split(body@, marker(boundary@))) is None,
            },
    {
        proof {
            reveal_strlit("filename=\"");
        }
        let mark = marker_of(boundary);
        let parts = split_on(&chars_of(body), &mark);
        let disposition = chars_of("Content-Disposition");
        let opening = chars_of("filename=\"");
        let quote = chars_of("\"");
        let ghost all = views(parts@);
        let mut i: usize = 0;
        assert(all.skip(0) =~= all);
        while i < parts.len()
            invariant
                i <= parts.len(),
                all == views(parts@),
                all == split(body@, marker(boundary@)),
                disposition@ == "Content-Disposition"@,
                opening@ == "filename=\""@,
                opening@.len() == 10,
                quote@ == "\""@,
                first_file_name(all) == first_file_name(all.skip(i as int)),
            decreases parts.len() - i,
        {
            let ghost rest = all.skip(i as int);
            assert(rest[0] == parts@[i as int]@);
            assert(rest.drop_first() =~= all.skip(i + 1));
            let rows = lines_of(&parts[i]);
            let ghost shown = views(rows@);
            let mut k: usize = 0;
            let mut line: Option<usize> = None;
            assert(shown.skip(0) =~= shown);
            while k < rows.len() && line.is_none()
                invariant
                    k <= rows.len(),
                    shown == views(rows@),
                    disposition@ == "Content-Disposition"@,
                    match line {
                        Some(at) => at < rows.len() && first_row_with(shown, disposition@) == Some(
                            shown[at as int],
                        ),
                        None => first_row_with(shown, disposition@) == first_row_with(
                            shown.skip(k as int),
                            disposition@,
                        ),
                    },
                decreases rows.len() - k + (if line is None {
                    1int
                } else {
                    0int
                }),
            {
                let ghost left = shown.skip(k as int);
                assert(left[0] == rows@[k as int]@);
                assert(left.drop_first() =~= shown.skip(k + 1));
                if find_in(&rows[k], &disposition).is_some() {
                    line = Some(k);
                } else {
                    k += 1;
                }
            }
            if line.is_none() {
                assert(shown.skip(rows.len() as int).len() == 0);
            }
            match line {
                Some(at) => {
                    assert(shown[at as int] == rows@[at as int]@);
                    let row = &rows[at];
                    match find_in(row, &opening) {
                        Some(start) => {
                            let n = row.len();
                            assert(start + 10 <= n);
                            let rest = slice_of(row, start + 10, n);
                            assert(rest@ =~= row@.skip(start + 10));
                            match find_in(&rest, &quote) {
                                Some(end) => {
                                    let name = slice_of(&rest, 0, end);
                                    assert(name@ =~= rest@.take(end as int));
                                    return Some(string_of(&name));
                                },
                                None => {},
                            }
                        },
                        None => {},
                    }
                },
                None => {},
            }
            i += 1;
        }
        assert(all.skip(parts.len() as int).len() == 0);
        None
    }

    /// The content of the uploaded file: the body is cut at the marks
    /// between its parts, and the first part that holds the content of a
    /// file gives it.
    pub fn extract_file_content(body: &str, boundary: &str) -> (content: Option<Vec<u8>>)
        ensures
            match content {
                Some(c) => first_file_content(split(body@, marker(boundary@))) == Some(c@),
                None => first_file_content(split(body@, marker(boundary@))) is None,
            },
    {
        proof {
            reveal_strlit("\r\n\r\n");
        }
        let mark = marker_of(boundary);
        let parts = split_on(&chars_of(body), &mark);
        let disposition = chars_of("Content-Disposition");
        let word = chars_of("filename=");
        let blank = chars_of("\r\n\r\n");
        let ending = chars_of("\r\n");
        let ghost all = views(parts@);
        let mut i: usize = 0;
        assert(all.skip(0) =~= all);
        while i < parts.len()
            invariant
                i <= parts.len(),
                all == views(parts@),
                all == split(body@, marker(boundary@)),
                disposition@ == "Content-Disposition"@,
                word@ == "filename="@,
                blank@ == "\r\n\r\n"@,
                blank@.len() == 4,
                ending@ == "\r\n"@,
                first_file_content(all) == first_file_content(all.skip(i as int)),
            decreases parts.len() - i,
        {
            let ghost rest = all.skip(i as int);
            assert(rest[0] == parts@[i as int]@);
            assert(rest.drop_first() =~= all.skip(i + 1));
            let part = &parts[i];
            if find_in(part, &disposition).is_some() && find_in(part, &word).is_some() {
                match find_in(part, &blank) {
                    Some(at) => {
                        let n = part.len();
                        assert(at + 4 <= n);
                        let behind = slice_of(part, at + 4, n);
                        assert(behind@ =~= part@.skip(at + 4));
                        let content = strip_suffixes_of(&behind, &ending);
                        return Some(utf8_of(&content));
                    },
                    None => {},
                }
            }
            i += 1;
        }
        assert(all.skip(parts.len() as int).len() == 0);
        None
    }
}

} // verus!
