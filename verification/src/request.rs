//! What a handler gets to see of a request.

use crate::dict::Dict;
use crate::text::{ascii_lowercase, chars_of, string_of, to_ascii_lowercase};
use vstd::prelude::*;

verus! {

/// A request: the parameters taken from its route, its headers under their
/// names in lower case, and its body.
pub struct Request {
    params: Dict<String>,
    headers: Dict<String>,
    body: String,
}

impl Request {
    /// The parameters, each name with its value.
    pub closed spec fn params(&self) -> Map<Seq<char>, String> {
        self.params@
    }

    /// The headers, each name with its value.
    pub closed spec fn headers(&self) -> Map<Seq<char>, String> {
        self.headers@
    }

    /// The body.
    pub closed spec fn body(&self) -> Seq<char> {
        self.body@
    }

    /// The invariant of the request: its two tables are well formed.
    pub closed spec fn wf(&self) -> bool {
        self.params.wf() && self.headers.wf()
    }

    /// The request with these parameters, headers and body.
    pub fn new(params: Dict<String>, headers: Dict<String>, body: String) -> (request: Request)
        requires
            params.wf(),
            headers.wf(),
        ensures
            request.wf(),
            request.params() == params@,
            request.headers() == headers@,
            request.body() == body@,
    {
        Request { params, headers, body }
    }

    /// The value of the parameter `key`, if the route gave one.
    pub fn get_param(&self, key: &str) -> (value: Option<&String>)
        requires
            self.wf(),
        ensures
            match value {
                Some(v) => self.params().contains_key(key@) && *v == self.params()[key@],
                None => !self.params().contains_key(key@),
            },
    {
        self.params.get(key)
    }

    /// The value of the header `key`, whatever the case of the letters of
    /// `key`.
    pub fn get_header(&self, key: &str) -> (value: Option<&String>)
        requires
            self.wf(),
        ensures
            match value {
                Some(v) => self.headers().contains_key(ascii_lowercase(key@)) && *v
                    == self.headers()[ascii_lowercase(key@)],
                None => !self.headers().contains_key(ascii_lowercase(key@)),
            },
    {
        let name = string_of(&to_ascii_lowercase(&chars_of(key)));
        self.headers.get(name.as_str())
    }

    /// The body.
    pub fn get_body(&self) -> (body: &str)
        ensures
            body@ == self.body(),
    {
        self.body.as_str()
    }
}

} // verus!
