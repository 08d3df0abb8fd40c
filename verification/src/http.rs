//! The request methods and status codes of HTTP that the server knows, and
//! the text of its responses.

use crate::text::{chars_of, decimal, push_chars, push_decimal, push_str, same_text, string_of};
use vstd::prelude::*;

verus! {

/// A request method.
#[derive(Clone, Copy, Debug, PartialEq, Eq, Hash, Structural)]
pub enum HttpMethod {
    Get,
    Post,
    Put,
    Delete,
    Patch,
    Head,
    Options,
    Connect,
    Trace,
}

/// The method that `name` names: its name in capital letters, and nothing
/// else.
pub open spec fn method_named(name: Seq<char>) -> Option<HttpMethod> {
    if name == "GET"@ {
        Some(HttpMethod::Get)
    } else if name == "POST"@ {
        Some(HttpMethod::Post)
    } else if name == "PUT"@ {
        Some(HttpMethod::Put)
    } else if name == "DELETE"@ {
        Some(HttpMethod::Delete)
    } else if name == "PATCH"@ {
        Some(HttpMethod::Patch)
    } else if name == "HEAD"@ {
        Some(HttpMethod::Head)
    } else if name == "OPTIONS"@ {
        Some(HttpMethod::Options)
    } else if name == "CONNECT"@ {
        Some(HttpMethod::Connect)
    } else if name == "TRACE"@ {
        Some(HttpMethod::Trace)
    } else {
        None
    }
}

/// The method that `method` names, or `None` for any other text.
pub fn http_method_from_string(method: &str) -> (found: Option<HttpMethod>)
    ensures
        found == method_named(method@),
{
    if same_text(method, "GET") {
        Some(HttpMethod::Get)
    } else if same_text(method, "POST") {
        Some(HttpMethod::Post)
    } else if same_text(method, "PUT") {
        Some(HttpMethod::Put)
    } else if same_text(method, "DELETE") {
        Some(HttpMethod::Delete)
    } else if same_text(method, "PATCH") {
        Some(HttpMethod::Patch)
    } else if same_text(method, "HEAD") {
        Some(HttpMethod::Head)
    } else if same_text(method, "OPTIONS") {
        Some(HttpMethod::Options)
    } else if same_text(method, "CONNECT") {
        Some(HttpMethod::Connect)
    } else if same_text(method, "TRACE") {
        Some(HttpMethod::Trace)
    } else {
        None
    }
}

/// A status code of a response.
#[derive(Clone, Copy, Debug, PartialEq, Eq, Structural)]
pub enum HttpStatusCode {
    /// 200, which HTTP calls OK.
    Success,
    BadRequest,
    NotFound,
    TooManyRequests,
    InternalServerError,
}

impl HttpStatusCode {
    /// The number of the status.
    pub open spec fn number(self) -> u16 {
        match self {
            HttpStatusCode::Success => 200,
            HttpStatusCode::BadRequest => 400,
            HttpStatusCode::NotFound => 404,
            HttpStatusCode::TooManyRequests => 429,
            HttpStatusCode::InternalServerError => 500,
        }
    }

    /// The number of the status.
    pub fn code(&self) -> (n: u16)
        ensures
            n == self.number(),
    {
        match self {
            HttpStatusCode::Success => 200,
            HttpStatusCode::BadRequest => 400,
            HttpStatusCode::NotFound => 404,
            HttpStatusCode::TooManyRequests => 429,
            HttpStatusCode::InternalServerError => 500,
        }
    }
}

/// The text of the response to a request for which there is no handler.
pub open spec fn not_found_text() -> Seq<char> {
    "HTTP/1.1 "@ + decimal(HttpStatusCode::NotFound.number() as nat)
        + " Not Found\r\nContent-Type: text/plain\r\nContent-Length: 9\r\nCache-Control: no-store, no-cache, must-revalidate\r\nConnection: close\r\n\r\nNot Found"@
}

/// The response to a request for which there is no handler: status 404 and
/// the body `Not Found`.
pub fn not_found_response() -> (response: String)
    ensures
        response@ == not_found_text(),
{
    let mut out: Vec<char> = Vec::new();
    push_str(&mut out, "HTTP/1.1 ");
    push_decimal(&mut out, HttpStatusCode::NotFound.code() as u64);
    push_str(
        &mut out,
        " Not Found\r\nContent-Type: text/plain\r\nContent-Length: 9\r\nCache-Control: no-store, no-cache, must-revalidate\r\nConnection: close\r\n\r\nNot Found",
    );
    string_of(&out)
}

/// The text of the response that carries `body` with the status `status`:
/// the status line, the headers with the length of the body in bytes, an
/// empty line, and the body.
pub open spec fn response_text(status: HttpStatusCode, body: Seq<char>) -> Seq<char> {
    "HTTP/1.1 "@ + decimal(status.number() as nat) + " OK\r\nContent-Type: text/plain\r\nContent-Length: "@
        + decimal(vstd::utf8::encode_utf8(body).len()) + "\r\nCache-Control: no-store, no-cache, must-revalidate\r\nConnection: close\r\n\r\n"@
        + body
}

/// The response that carries `body` with the status `status`.
pub fn response(status: HttpStatusCode, body: &str) -> (response: String)
    ensures
        response@ == response_text(status, body@),
{
    let mut out: Vec<char> = Vec::new();
    push_str(&mut out, "HTTP/1.1 ");
    push_decimal(&mut out, status.code() as u64);
    push_str(&mut out, " OK\r\nContent-Type: text/plain\r\nContent-Length: ");
    let length = body.as_bytes().len();
    assert(length == vstd::utf8::encode_utf8(body@).len());
    push_decimal(&mut out, length as u64);
    push_str(
        &mut out,
        "\r\nCache-Control: no-store, no-cache, must-revalidate\r\nConnection: close\r\n\r\n",
    );
    let text = chars_of(body);
    push_chars(&mut out, &text);
    string_of(&out)
}

} // verus!
