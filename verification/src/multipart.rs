//! Bodies in parts: what a multipart form holds, by the text of its body and
//! the boundary between its parts.

use crate::dict::Dict;
use crate::lines::{lines, lines_of, lowercase, lowercase_of, views};
use crate::text::{chars_of, contains, find, find_in, matches_at, push_str, slice_of, split,
    split_on, starts_with, string_of, strip_prefixes, strip_prefixes_of, strip_suffixes,
    strip_suffixes_of, trim, trim_any, trim_any_of, trim_of};
use vstd::prelude::*;
use vstd::string::StrSliceExecFns;

verus! {

/// The bytes that write `text` in UTF-8.
pub open spec fn utf8(text: Seq<char>) -> Seq<u8> {
    vstd::utf8::encode_utf8(text)
}

/// The bytes that write `text` in UTF-8.
pub fn utf8_of(text: &Vec<char>) -> (bytes: Vec<u8>)
    ensures
        bytes@ == utf8(text@),
{
    let s = string_of(text);
    s.as_str().as_bytes_vec()
}

/// The mark between the parts of a body with the boundary `boundary`: two
/// hyphens and the boundary.
pub open spec fn marker(boundary: Seq<char>) -> Seq<char> {
    "--"@ + boundary
}

/// The mark between the parts of a body with the boundary `boundary`.
pub fn marker_of(boundary: &str) -> (mark: Vec<char>)
    ensures
        mark@ == marker(boundary@),
        mark@.len() > 0,
{
    proof {
        reveal_strlit("--");
    }
    let mut mark = chars_of("--");
    push_str(&mut mark, boundary);
    mark
}

/// One field of a form.
#[derive(Debug)]
pub struct MultipartField {
    pub name: String,
    pub filename: Option<String>,
    pub content_type: Option<String>,
    pub value: Vec<u8>,
}

/// What a field holds, as texts and bytes.
pub struct FieldView {
    pub name: Seq<char>,
    pub filename: Option<Seq<char>>,
    pub content_type: Option<Seq<char>>,
    pub value: Seq<u8>,
}

/// The text of `s`, if there is one.
pub open spec fn text_of(s: Option<String>) -> Option<Seq<char>> {
    match s {
        Some(t) => Some(t@),
        None => None,
    }
}

impl View for MultipartField {
    type V = FieldView;

    open spec fn view(&self) -> FieldView {
        FieldView {
            name: self.name@,
            filename: text_of(self.filename),
            content_type: text_of(self.content_type),
            value: self.value@,
        }
    }
}

/// The fields of a table, as texts and bytes.
pub open spec fn fields_view(table: Map<Seq<char>, MultipartField>) -> Map<Seq<char>, FieldView> {
    table.map_values(|f: MultipartField| f@)
}

/// What the head of a part has told so far: the name of the field, the name
/// of the file, and the type of the content.
pub struct Told {
    pub name: Option<Seq<char>>,
    pub filename: Option<Seq<char>>,
    pub content_type: Option<Seq<char>>,
}

/// What a line of the head of a part is, by its lower-case form.
#[derive(Clone, Copy, Debug, PartialEq, Eq, Structural)]
pub enum LineKind {
    /// It begins with `content-disposition`.
    Disposition,
    /// It begins with `content-type:`.
    ContentType,
    /// Any other line.
    Other,
}

/// What a line is whose lower-case form is `lower`.
pub open spec fn kind_of(lower: Seq<char>) -> LineKind {
    if starts_with(lower, "content-disposition"@) {
        LineKind::Disposition
    } else if starts_with(lower, "content-type:"@) {
        LineKind::ContentType
    } else {
        LineKind::Other
    }
}

/// What a line is whose lower-case form is `lower`.
pub fn line_kind(lower: &Vec<char>) -> (kind: LineKind)
    ensures
        kind == kind_of(lower@),
{
    if matches_at(lower, &chars_of("content-disposition"), 0) {
        LineKind::Disposition
    } else if matches_at(lower, &chars_of("content-type:"), 0) {
        LineKind::ContentType
    } else {
        LineKind::Other
    }
}

/// What is told after the piece `piece` of a disposition line: a piece that,
/// without the white space around it, begins with `name=` tells the name,
/// one that begins with `filename=` tells the name of the file; both without
/// the word in front and without quotation marks around them.
pub open spec fn after_piece(told: Told, piece: Seq<char>) -> Told {
    let p = trim(piece);
    if starts_with(p, "name="@) {
        Told { name: Some(trim_any(strip_prefixes(p, "name="@), seq!['"'])), ..told }
    } else if starts_with(p, "filename="@) {
        Told { filename: Some(trim_any(strip_prefixes(p, "filename="@), seq!['"'])), ..told }
    } else {
        told
    }
}

/// What is told after the pieces `pieces` of a disposition line, taken in
/// their order.
pub open spec fn after_pieces(told: Told, pieces: Seq<Seq<char>>) -> Told
    decreases pieces.len(),
{
    if pieces.len() == 0 {
        told
    } else {
        after_pieces(after_piece(told, pieces[0]), pieces.drop_first())
    }
}

/// What is told after the line `line` of the head of a part. A disposition
/// line is cut at its semicolons and tells what its pieces tell. A type line
/// tells the type: what stands between its first and its second colon,
/// without the white space around it.
pub open spec fn after_line(told: Told, line: Seq<char>) -> Told {
    match kind_of(lowercase(line)) {
        LineKind::Disposition => after_pieces(told, split(line, ";"@)),
        LineKind::ContentType => {
            let parts = split(line, ":"@);
            let named = if parts.len() > 1 {
                parts[1]
            } else {
                Seq::empty()
            };
            Told { content_type: Some(trim(named)), ..told }
        },
        LineKind::Other => told,
    }
}

/// What is told after the lines `rows`, taken in their order.
pub open spec fn after_lines(told: Told, rows: Seq<Seq<char>>) -> Told
    decreases rows.len(),
{
    if rows.len() == 0 {
        told
    } else {
        after_lines(after_line(told, rows[0]), rows.drop_first())
    }
}

/// The field that the part `part` of a body with the boundary `boundary`
/// holds, if it holds one. The part is taken without the line breaks around
/// it. It holds no field if nothing is left then, or only two hyphens or the
/// closing mark; if it has no empty line; or if its head, the lines in front
/// of the first empty line, tells no name. The value of the field is what
/// stands behind that empty line.
pub open spec fn field_of(part: Seq<char>, boundary: Seq<char>) -> Option<FieldView> {
    let p = trim_any(part, seq!['\r', '\n']);
    if p.len() == 0 || p == "--"@ || p == marker(boundary) + "--"@ {
        None
    } else {
        match find(p, "\r\n\r\n"@) {
            None => None,
            Some(i) => {
                let told = after_lines(
                    Told { name: None, filename: None, content_type: None },
                    lines(p.take(i)),
                );
                match told.name {
                    None => None,
                    Some(name) => Some(
                        FieldView {
                            name,
                            filename: told.filename,
                            content_type: told.content_type,
                            value: utf8(p.skip(i + 4)),
                        },
                    ),
                }
            },
        }
    }
}

/// The fields that the parts `parts` hold, each under its name. Of two
/// fields with one name the later one counts.
pub open spec fn fields_of(parts: Seq<Seq<char>>, boundary: Seq<char>) -> Map<
    Seq<char>,
    FieldView,
>
    decreases parts.len(),
{
    if parts.len() == 0 {
        Map::empty()
    } else {
        let before = fields_of(parts.drop_last(), boundary);
        match field_of(parts.last(), boundary) {
            Some(field) => before.insert(field.name, field),
            None => before,
        }
    }
}

/// The name that `piece` tells behind the word `word`, without quotation
/// marks around it.
fn told_behind(piece: &Vec<char>, word: &str) -> (name: String)
    ensures
        name@ == trim_any(strip_prefixes(piece@, word@), seq!['"']),
{
    let mut quote: Vec<char> = Vec::new();
    quote.push('"');
    assert(quote@ =~= seq!['"']);
    string_of(&trim_any_of(&strip_prefixes_of(piece, &chars_of(word)), &quote))
}

/// What the head `head` of a part tells.
fn read_head(head: &Vec<char>) -> (told: (Option<String>, Option<String>, Option<String>))
    ensures
        after_lines(Told { name: None, filename: None, content_type: None }, lines(head@)) == (Told {
            name: text_of(told.0),
            filename: text_of(told.1),
            content_type: text_of(told.2),
        }),
{
    proof {
        reveal_strlit(";");
        reveal_strlit(":");
    }
    let rows = lines_of(head);
    let semicolon = chars_of(";");
    let colon = chars_of(":");
    let name_word = chars_of("name=");
    let file_word = chars_of("filename=");
    let mut name: Option<String> = None;
    let mut filename: Option<String> = None;
    let mut content_type: Option<String> = None;
    let ghost start = Told { name: None, filename: None, content_type: None };
    let ghost all = lines(head@);
    let mut i: usize = 0;
    assert(all.skip(0) =~= all);
    while i < rows.len()
        invariant
            i <= rows.len(),
            all == views(rows@),
            semicolon@ == ";"@,
            semicolon.len() > 0,
            colon@ == ":"@,
            colon.len() > 0,
            name_word@ == "name="@,
            file_word@ == "filename="@,
            after_lines(start, all) == after_lines(
                Told {
                    name: text_of(name),
                    filename: text_of(filename),
                    content_type: text_of(content_type),
                },
                all.skip(i as int),
            ),
        decreases rows.len() - i,
    {
        let ghost rest = all.skip(i as int);
        assert(rest[0] == rows@[i as int]@);
        assert(rest.drop_first() =~= all.skip(i + 1));
        let lower = lowercase_of(&rows[i]);
        match line_kind(&lower) {
            LineKind::Disposition => {
                let pieces = split_on(&rows[i], &semicolon);
                let ghost cut = views(pieces@);
                let ghost told_before = Told {
                    name: text_of(name),
                    filename: text_of(filename),
                    content_type: text_of(content_type),
                };
                let mut k: usize = 0;
                assert(cut.skip(0) =~= cut);
                while k < pieces.len()
                    invariant
                        k <= pieces.len(),
                        cut == views(pieces@),
                        name_word@ == "name="@,
                        file_word@ == "filename="@,
                        after_pieces(told_before, cut) == after_pieces(
                            Told {
                                name: text_of(name),
                                filename: text_of(filename),
                                content_type: text_of(content_type),
                            },
                            cut.skip(k as int),
                        ),
                    decreases pieces.len() - k,
                {
                    let ghost left = cut.skip(k as int);
                    assert(left[0] == pieces@[k as int]@);
                    assert(left.drop_first() =~= cut.skip(k + 1));
                    let piece = trim_of(&pieces[k]);
                    if matches_at(&piece, &name_word, 0) {
                        name = Some(told_behind(&piece, "name="));
                    } else if matches_at(&piece, &file_word, 0) {
                        filename = Some(told_behind(&piece, "filename="));
                    }
                    k += 1;
                }
                assert(cut.skip(pieces.len() as int).len() == 0);
            },
            LineKind::ContentType => {
                let parts = split_on(&rows[i], &colon);
                let named = if parts.len() > 1 {
                    assert(views(parts@)[1] == parts@[1]@);
                    trim_of(&parts[1])
                } else {
                    let empty: Vec<char> = Vec::new();
                    assert(empty@ =~= Seq::<char>::empty());
                    trim_of(&empty)
                };
                content_type = Some(string_of(&named));
            },
            LineKind::Other => {},
        }
        i += 1;
    }
    assert(all.skip(rows.len() as int).len() == 0);
    (name, filename, content_type)
}

/// The field that the part `part` holds, if it holds one.
fn read_part(part: &Vec<char>, boundary: &str) -> (field: Option<MultipartField>)
    ensures
        match field {
            Some(f) => field_of(part@, boundary@) == Some(f@),
            None => field_of(part@, boundary@) is None,
        },
{
    let breaks = vec!['\r', '\n'];
    assert(breaks@ =~= seq!['\r', '\n']);
    let p = trim_any_of(part, &breaks);
    let mut closing = marker_of(boundary);
    push_str(&mut closing, "--");
    if p.len() == 0 || crate::text::chars_eq(&p, &chars_of("--")) || crate::text::chars_eq(
        &p,
        &closing,
    ) {
        return None;
    }
    match find_in(&p, &chars_of("\r\n\r\n")) {
        None => None,
        Some(i) => {
            proof {
                reveal_strlit("\r\n\r\n");
            }
            let head = slice_of(&p, 0, i);
            assert(head@ =~= p@.take(i as int));
            let rest = slice_of(&p, i + 4, p.len());
            assert(rest@ =~= p@.skip(i + 4));
            let (name, filename, content_type) = read_head(&head);
            match name {
                None => None,
                Some(name) => Some(
                    MultipartField { name, filename, content_type, value: utf8_of(&rest) },
                ),
            }
        },
    }
}

/// The fields of the form whose body is `body` and whose boundary is
/// `boundary`: the body is cut at the marks between its parts, and every part
/// gives the field that it holds, under the name of the field.
pub fn parse_multipart_body(body: &str, boundary: &str) -> (fields: Dict<MultipartField>)
    ensures
        fields.wf(),
        fields_view(fields@) == fields_of(split(body@, marker(boundary@)), boundary@),
{
    let mark = marker_of(boundary);
    let parts = split_on(&chars_of(body), &mark);
    let ghost all = views(parts@);
    let mut fields: Dict<MultipartField> = Dict::new();
    let mut i: usize = 0;
    assert(all.take(0) =~= Seq::<Seq<char>>::empty());
    assert(fields_view(fields@) =~= fields_of(all.take(0), boundary@));
    while i < parts.len()
        invariant
            i <= parts.len(),
            all == views(parts@),
            fields.wf(),
            fields_view(fields@) == fields_of(all.take(i as int), boundary@),
        decreases parts.len() - i,
    {
        let ghost before = fields@;
        proof {
            assert(all.take(i + 1).drop_last() =~= all.take(i as int));
            assert(all.take(i + 1).last() == parts@[i as int]@);
        }
        match read_part(&parts[i], boundary) {
            Some(field) => {
                let key = field.name.clone();
                let ghost shown = field@;
                fields.insert(key, field);
                assert(fields_view(fields@) =~= fields_view(before).insert(shown.name, shown));
            },
            None => {},
        }
        i += 1;
    }
    assert(all.take(parts.len() as int) =~= all);
    fields
}

} // verus!
