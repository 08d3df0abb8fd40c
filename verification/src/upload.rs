//! What becomes of an upload: whether it is taken, what is counted for it,
//! and what is answered.

use crate::dict::Dict;
use crate::http::HttpStatusCode;
use crate::lines::{lines, lines_of};
use crate::multipart_parser::{count_exception_lines, exception_lines};
use crate::text::{chars_of, push_str, string_of};
use vstd::prelude::*;

verus! {

/// What was counted over all uploads.
pub struct UploadState {
    pub total_exceptions: usize,
    pub files_processed: usize,
    pub per_file: Dict<usize>,
}

/// An answer: a status and a message.
pub struct Reply {
    pub status: HttpStatusCode,
    pub message: String,
}

/// The file of an upload: its name, if it has one, and its content as text.
pub struct Upload {
    pub filename: Option<String>,
    pub content: String,
}

/// The name under which an upload is counted: its own, or `unknown.txt`.
pub open spec fn counted_name(filename: Option<String>) -> Seq<char> {
    match filename {
        Some(name) => name@,
        None => "unknown.txt"@,
    }
}

impl UploadState {
    /// Nothing counted yet.
    pub fn new() -> (state: Self)
        ensures
            state.per_file.wf(),
            state.total_exceptions == 0,
            state.files_processed == 0,
            state.per_file@ == Map::<Seq<char>, usize>::empty(),
    {
        UploadState { total_exceptions: 0, files_processed: 0, per_file: Dict::new() }
    }
}

/// `c` if it is an ASCII letter or digit, an underscore in its place if it
/// is not.
pub open spec fn plain(c: char) -> char {
    if ('a' <= c <= 'z') || ('A' <= c <= 'Z') || ('0' <= c <= '9') {
        c
    } else {
        '_'
    }
}

/// A name that is safe as the name of a file: `name` with an underscore in
/// the place of every character that is no ASCII letter or digit.
pub fn sanitize_filename(name: &str) -> (safe: String)
    ensures
        safe@ == Seq::new(name@.len(), |i: int| plain(name@[i])),
{
    let chars = chars_of(name);
    let ghost wanted = Seq::new(name@.len(), |i: int| plain(name@[i]));
    let mut safe: Vec<char> = Vec::new();
    let mut i: usize = 0;
    while i < chars.len()
        invariant
            i <= chars.len(),
            chars@ == name@,
            wanted == Seq::new(name@.len(), |i: int| plain(name@[i])),
            safe@ == wanted.take(i as int),
        decreases chars.len() - i,
    {
        let c = chars[i];
        if ('a' <= c && c <= 'z') || ('A' <= c && c <= 'Z') || ('0' <= c && c <= '9') {
            safe.push(c);
        } else {
            safe.push('_');
        }
        i += 1;
        assert(wanted.take(i as int) =~= wanted.take(i - 1).push(wanted[i - 1]));
    }
    assert(wanted.take(chars.len() as int) =~= wanted);
    string_of(&safe)
}

/// The answer to a request that fits no route: the routes that there are.
pub fn rejection_reply() -> (reply: Reply)
    ensures
        reply.status == HttpStatusCode::BadRequest,
        reply.message@
            == "Valid routes:\nPOST /upload - Upload a file for analysis\nGET /stats - Show statistics"@,
{
    Reply {
        status: HttpStatusCode::BadRequest,
        message:
            "Valid routes:\nPOST /upload - Upload a file for analysis\nGET /stats - Show statistics".to_owned(),
    }
}

/// Decides what becomes of an upload, and counts it.
///
/// Without a permit too many files are under way: status 429, and nothing is
/// counted. Without a file, or with an empty one: status 400, and nothing is
/// counted. Otherwise the lines of the file that speak of an exception are
/// counted; they are added to the total, the file counts as one more, and
/// the table holds the count under the name of the file, in place of what it
/// held for that name; the answer has status 200 and names the file.
pub fn handle_upload(state: &mut UploadState, permit: bool, file: Option<Upload>) -> (reply: Reply)
    requires
        old(state).per_file.wf(),
        match file {
            Some(upload) => old(state).total_exceptions + upload.content@.len() <= usize::MAX,
            None => true,
        },
        old(state).files_processed < usize::MAX,
    ensures
        final(state).per_file.wf(),
        !permit ==> {
            &&& reply.status == HttpStatusCode::TooManyRequests
            &&& reply.message@ == "Too many files being processed"@
            &&& *final(state) == *old(state)
        },
        permit ==> match file {
            Some(upload) => if upload.content@.len() == 0 {
                &&& reply.status == HttpStatusCode::BadRequest
                &&& reply.message@ == "File not found or empty"@
                &&& *final(state) == *old(state)
            } else {
                let count = exception_lines(lines(upload.content@));
                let name = counted_name(upload.filename);
                &&& reply.status == HttpStatusCode::Success
                &&& reply.message@ == "Processed file: "@ + name
                &&& final(state).total_exceptions == old(state).total_exceptions + count
                &&& final(state).files_processed == old(state).files_processed + 1
                &&& final(state).per_file@ == old(state).per_file@.insert(name, count as usize)
            },
            None => {
                &&& reply.status == HttpStatusCode::BadRequest
                &&& reply.message@ == "File not found or empty"@
                &&& *final(state) == *old(state)
            },
        },
{
    if !permit {
        return Reply {
            status: HttpStatusCode::TooManyRequests,
            message: "Too many files being processed".to_owned(),
        };
    }
    let upload = match file {
        Some(upload) => upload,
        None => {
            return Reply {
                status: HttpStatusCode::BadRequest,
                message: "File not found or empty".to_owned(),
            };
        },
    };
    let content = chars_of(upload.content.as_str());
    if content.len() == 0 {
        return Reply {
            status: HttpStatusCode::BadRequest,
            message: "File not found or empty".to_owned(),
        };
    }
    let filename = match upload.filename {
        Some(name) => name,
        None => "unknown.txt".to_owned(),
    };
    proof {
        crate::lines::lemma_lines_fit(content@);
        crate::multipart_parser::lemma_exception_lines_fit(lines(content@));
    }
    let count = count_exception_lines(&content);
    state.total_exceptions += count;
    state.files_processed += 1;
    let mut message = chars_of("Processed file: ");
    push_str(&mut message, filename.as_str());
    state.per_file.insert(filename, count);
    Reply { status: HttpStatusCode::Success, message: string_of(&message) }
}

} // verus!
