//! What a handler works on: the request, and the response in the making.

use crate::http::HttpStatusCode;
use crate::request::Request;
use vstd::prelude::*;

verus! {

/// The request together with the status and the body of the response that
/// the handler builds. Once the response is sent, nothing of it can be set.
pub struct Context {
    request: Request,
    status: HttpStatusCode,
    completed: bool,
    body: String,
    boundary: Option<String>,
}

impl Context {
    /// The request.
    pub closed spec fn request(&self) -> Request {
        self.request
    }

    /// The status of the response.
    pub closed spec fn status(&self) -> HttpStatusCode {
        self.status
    }

    /// Whether the response has been sent.
    pub closed spec fn completed(&self) -> bool {
        self.completed
    }

    /// The body of the response.
    pub closed spec fn body(&self) -> Seq<char> {
        self.body@
    }

    /// The boundary of a multipart body, if one was set.
    pub closed spec fn boundary(&self) -> Option<String> {
        self.boundary
    }

    /// A context for `request`, with the status `status`, an empty body and
    /// no boundary; the response is not sent.
    pub fn new(request: Request, status: HttpStatusCode) -> (context: Context)
        ensures
            context.request() == request,
            context.status() == status,
            !context.completed(),
            context.body() == Seq::<char>::empty(),
            context.boundary() is None,
    {
        Context { request, status, completed: false, body: String::new(), boundary: None }
    }

    /// Whether the response has been sent.
    pub fn is_completed(&self) -> (sent: bool)
        ensures
            sent == self.completed(),
    {
        self.completed
    }

    /// The request.
    pub fn get_request(&self) -> (request: &Request)
        ensures
            *request == self.request(),
    {
        &self.request
    }

    /// The status of the response.
    pub fn get_status(&self) -> (status: &HttpStatusCode)
        ensures
            *status == self.status(),
    {
        &self.status
    }

    /// Sets the status of the response.
    pub fn set_status(&mut self, status: HttpStatusCode)
        requires
            !old(self).completed(),
        ensures
            final(self).status() == status,
            final(self).request() == old(self).request(),
            final(self).completed() == old(self).completed(),
            final(self).body() == old(self).body(),
            final(self).boundary() == old(self).boundary(),
    {
        self.status = status;
    }

    /// Sets the body of the response to `text`.
    pub fn send_text(&mut self, text: &str)
        requires
            !old(self).completed(),
        ensures
            final(self).body() == text@,
            final(self).request() == old(self).request(),
            final(self).status() == old(self).status(),
            final(self).completed() == old(self).completed(),
            final(self).boundary() == old(self).boundary(),
    {
        self.body = text.to_owned();
    }

    /// The body of the response, as `send_text` set it.
    pub fn get_body(&self) -> (body: &String)
        ensures
            body@ == self.body(),
    {
        &self.body
    }

    /// Sets the boundary of a multipart body.
    pub fn set_boundary(&mut self, boundary: String)
        requires
            !old(self).completed(),
        ensures
            final(self).boundary() == Some(boundary),
            final(self).request() == old(self).request(),
            final(self).status() == old(self).status(),
            final(self).completed() == old(self).completed(),
            final(self).body() == old(self).body(),
    {
        self.boundary = Some(boundary);
    }

    /// The boundary of a multipart body, if one was set.
    pub fn get_boundary(&self) -> (boundary: Option<&String>)
        ensures
            match boundary {
                Some(b) => self.boundary() == Some(*b),
                None => self.boundary() is None,
            },
    {
        self.boundary.as_ref()
    }
}

} // verus!
