//! The table of handlers of a server, and the choice of the handler for a
//! request.
//!
//! The server is generic in what a handler is: it keeps the handlers and
//! finds the one that a request is for. To call the handler, and to read
//! requests from a connection and write responses to it, is left to the
//! program that owns the server.

use crate::combinations::{combination_count, generate_route_combinations, masked_route,
    route_segments};
use crate::context::Context;
use crate::http::{http_method_from_string, method_named, HttpMethod, HttpStatusCode};
use crate::pair::Pair;
use crate::request::Request;
use crate::wire::{headers_of, method_and_route, parameters_of, request_headers, request_method,
    request_route, route_parameters, texts};
use vstd::prelude::*;

verus! {

/// A server: its handlers, each under a method and a route, and the number
/// of threads that serve requests.
pub struct WebServer<H> {
    handlers: Vec<(Pair<HttpMethod, String>, H)>,
    threads: u32,
}

impl<H> WebServer<H> {
    /// The method and route of every handler, in the order in which they
    /// were first registered.
    pub closed spec fn keys(&self) -> Seq<(HttpMethod, Seq<char>)> {
        Seq::new(
            self.handlers@.len(),
            |i: int| (self.handlers@[i].0.first, self.handlers@[i].0.second@),
        )
    }

    /// The handlers, each at the position of its method and route.
    pub closed spec fn handler_seq(&self) -> Seq<H> {
        Seq::new(self.handlers@.len(), |i: int| self.handlers@[i].1)
    }

    /// The number of threads that serve requests.
    pub closed spec fn thread_count(&self) -> u32 {
        self.threads
    }

    /// The invariant of the table: no method and route stand in it twice.
    pub open spec fn wf(&self) -> bool {
        &&& self.keys().no_duplicates()
        &&& self.keys().len() == self.handler_seq().len()
    }

    /// Whether there is a handler for `method` and exactly the route `route`.
    pub open spec fn has(&self, method: HttpMethod, route: Seq<char>) -> bool {
        self.keys().contains((method, route))
    }

    /// A server without handlers, with ten threads.
    pub fn new() -> (server: WebServer<H>)
        ensures
            server.wf(),
            server.keys() == Seq::<(HttpMethod, Seq<char>)>::empty(),
            server.handler_seq() == Seq::<H>::empty(),
            server.thread_count() == 10,
    {
        let server = WebServer { handlers: Vec::new(), threads: 10 };
        assert(server.keys() =~= Seq::<(HttpMethod, Seq<char>)>::empty());
        assert(server.handler_seq() =~= Seq::<H>::empty());
        server
    }

    /// Sets the number of threads that serve requests.
    pub fn threads(&mut self, threads: u32)
        ensures
            final(self).thread_count() == threads,
            final(self).keys() == old(self).keys(),
            final(self).handler_seq() == old(self).handler_seq(),
    {
        self.threads = threads;
        assert(self.keys() =~= old(self).keys());
        assert(self.handler_seq() =~= old(self).handler_seq());
    }

    /// The number of threads that serve requests.
    pub fn thread_number(&self) -> (threads: u32)
        ensures
            threads == self.thread_count(),
    {
        self.threads
    }

    /// The number of handlers.
    pub fn len(&self) -> (n: usize)
        ensures
            n == self.keys().len(),
            n == self.handler_seq().len(),
    {
        self.handlers.len()
    }

    /// The position of the handler for `method` and exactly the route
    /// `route`, if there is one.
    pub fn position(&self, method: HttpMethod, route: &str) -> (at: Option<usize>)
        ensures
            match at {
                Some(i) => i < self.keys().len() && self.keys()[i as int] == (method, route@),
                None => !self.has(method, route@),
            },
    {
        let wanted = route.to_owned();
        let mut i: usize = 0;
        while i < self.handlers.len()
            invariant
                i <= self.handlers.len(),
                wanted@ == route@,
                forall|j: int| 0 <= j < i ==> self.keys()[j] != (method, route@),
            decreases self.handlers.len() - i,
        {
            if self.handlers[i].0.first == method && self.handlers[i].0.second == wanted {
                return Some(i);
            }
            i += 1;
        }
        None
    }

    /// The handler at position `i`.
    pub fn handler_at(&self, i: usize) -> (handler: &H)
        requires
            i < self.handler_seq().len(),
        ensures
            *handler == self.handler_seq()[i as int],
    {
        &self.handlers[i].1
    }

    /// Registers `handler` for `method` and `route`. It takes the place of
    /// the handler that was there for them, or comes last.
    pub fn route(&mut self, method: HttpMethod, route: &str, handler: H)
        requires
            old(self).wf(),
        ensures
            final(self).wf(),
            final(self).thread_count() == old(self).thread_count(),
            final(self).has(method, route@),
            forall|m: HttpMethod, r: Seq<char>|
                final(self).has(m, r) == (old(self).has(m, r) || (m, r) == (method, route@)),
            match old(self).keys().index_of_first((method, route@)) {
                Some(i) => {
                    &&& final(self).keys() == old(self).keys()
                    &&& final(self).handler_seq() == old(self).handler_seq().update(i, handler)
                },
                None => {
                    &&& final(self).keys() == old(self).keys().push((method, route@))
                    &&& final(self).handler_seq() == old(self).handler_seq().push(handler)
                },
            },
    {
        let ghost key = (method, route@);
        proof {
            old(self).keys().index_of_first_ensures(key);
        }
        match self.position(method, route) {
            Some(i) => {
                self.handlers[i].1 = handler;
                assert(self.keys() =~= old(self).keys());
                assert(self.handler_seq() =~= old(self).handler_seq().update(i as int, handler));
                assert(old(self).keys().index_of_first(key) == Some(i as int)) by {
                    let j = old(self).keys().index_of_first(key).unwrap();
                    assert(old(self).keys()[j] == key);
                }
                assert(self.has(method, route@)) by {
                    assert(self.keys()[i as int] == key);
                }
            },
            None => {
                let at = self.handlers.len();
                self.handlers.push((Pair::new(method, route.to_owned()), handler));
                assert(self.keys() =~= old(self).keys().push(key));
                assert(self.handler_seq() =~= old(self).handler_seq().push(handler));
                assert(self.keys()[at as int] == key);
                assert forall|m: HttpMethod, r: Seq<char>|
                    self.has(m, r) == (old(self).has(m, r) || (m, r) == key) by {
                    if old(self).has(m, r) {
                        let j = choose|j: int|
                            0 <= j < old(self).keys().len() && old(self).keys()[j] == (m, r);
                        assert(self.keys()[j] == (m, r));
                    }
                    if self.has(m, r) {
                        let j = choose|j: int| 0 <= j < self.keys().len() && self.keys()[j] == (m, r);
                        if j < at {
                            assert(old(self).keys()[j] == (m, r));
                        }
                    }
                }
            },
        }
    }

    /// Registers `handler` for GET requests of `route`.
    pub fn get(&mut self, route: &str, handler: H)
        requires
            old(self).wf(),
        ensures
            final(self).wf(),
            final(self).thread_count() == old(self).thread_count(),
            final(self).has(HttpMethod::Get, route@),
            forall|m: HttpMethod, r: Seq<char>|
                final(self).has(m, r) == (old(self).has(m, r) || (m, r) == (
                    HttpMethod::Get,
                    route@,
                )),
            match old(self).keys().index_of_first((HttpMethod::Get, route@)) {
                Some(i) => {
                    &&& final(self).keys() == old(self).keys()
                    &&& final(self).handler_seq() == old(self).handler_seq().update(i, handler)
                },
                None => {
                    &&& final(self).keys() == old(self).keys().push((HttpMethod::Get, route@))
                    &&& final(self).handler_seq() == old(self).handler_seq().push(handler)
                },
            },
    {
        self.route(HttpMethod::Get, route, handler);
    }

    /// Registers `handler` for POST requests of `route`.
    pub fn post(&mut self, route: &str, handler: H)
        requires
            old(self).wf(),
        ensures
            final(self).wf(),
            final(self).thread_count() == old(self).thread_count(),
            final(self).has(HttpMethod::Post, route@),
            forall|m: HttpMethod, r: Seq<char>|
                final(self).has(m, r) == (old(self).has(m, r) || (m, r) == (
                    HttpMethod::Post,
                    route@,
                )),
            match old(self).keys().index_of_first((HttpMethod::Post, route@)) {
                Some(i) => {
                    &&& final(self).keys() == old(self).keys()
                    &&& final(self).handler_seq() == old(self).handler_seq().update(i, handler)
                },
                None => {
                    &&& final(self).keys() == old(self).keys().push((HttpMethod::Post, route@))
                    &&& final(self).handler_seq() == old(self).handler_seq().push(handler)
                },
            },
    {
        self.route(HttpMethod::Post, route, handler);
    }

    /// Whether `mask` is the first choice of segments of `route` for which
    /// there is a handler for `method`.
    pub open spec fn first_match(&self, method: HttpMethod, route: Seq<char>, mask: int) -> bool {
        let segments = route_segments(route);
        &&& 0 <= mask < combination_count(segments.len())
        &&& self.has(method, masked_route(segments, mask as u32, segments.len() as int))
        &&& forall|m: int|
            0 <= m < mask ==> !self.has(
                method,
                #[trigger] masked_route(segments, m as u32, segments.len() as int),
            )
    }

    /// The registered route that the request route `route` stands for, and
    /// the position of its handler: among the routes that `route` can stand
    /// for, in their order, the first for which there is a handler for
    /// `method`. `None` if there is a handler for none of them.
    pub fn resolve(&self, method: HttpMethod, route: &str) -> (found: Option<(String, usize)>)
        ensures
            match found {
                Some((registered, at)) => {
                    &&& at < self.keys().len()
                    &&& self.keys()[at as int] == (method, registered@)
                    &&& exists|mask: int|
                        self.first_match(method, route@, mask) && registered@ == masked_route(
                            route_segments(route@),
                            mask as u32,
                            route_segments(route@).len() as int,
                        )
                },
                None => forall|mask: int|
                    0 <= mask < combination_count(route_segments(route@).len()) ==> !self.has(
                        method,
                        #[trigger] masked_route(
                            route_segments(route@),
                            mask as u32,
                            route_segments(route@).len() as int,
                        ),
                    ),
            },
    {
        let mut routes = generate_route_combinations(route);
        let ghost all = routes@;
        let ghost segments = route_segments(route@);
        let total = routes.len();
        let mut mask: usize = 0;
        while mask < total
            invariant
                mask <= total,
                total == routes.len(),
                routes@ == all,
                total == combination_count(segments.len()),
                segments == route_segments(route@),
                forall|m: int|
                    0 <= m < total ==> (#[trigger] all[m])@ == masked_route(
                        segments,
                        m as u32,
                        segments.len() as int,
                    ),
                forall|m: int|
                    0 <= m < mask ==> !self.has(
                        method,
                        #[trigger] masked_route(segments, m as u32, segments.len() as int),
                    ),
            decreases total - mask,
        {
            match self.position(method, routes[mask].as_str()) {
                Some(at) => {
                    let registered = routes.swap_remove(mask);
                    assert(registered == all[mask as int]);
                    assert(self.has(method, registered@)) by {
                        assert(self.keys()[at as int] == (method, registered@));
                    }
                    assert(self.first_match(method, route@, mask as int));
                    return Some((registered, at));
                },
                None => {},
            }
            mask += 1;
        }
        None
    }
}

/// What is to be done with a request.
pub enum Dispatch {
    /// The head names no method that the server knows: nothing is answered.
    Ignore,
    /// There is no handler for the request: the answer is that nothing was
    /// found.
    NotFound,
    /// The handler at position `handler` is to be called with `context`; the
    /// answer is what it leaves there.
    Run { handler: usize, context: Context },
}

impl<H> WebServer<H> {
    /// Decides what is to be done with the request whose head is `head` and
    /// whose body is `body`.
    ///
    /// A head that names no known method is ignored. Otherwise the route of
    /// the head is resolved as `resolve` does; without a handler nothing is
    /// found. With one, the context for it holds the parameters that the
    /// registered route takes from the route of the head, the headers of the
    /// head and the body, and begins with the status 200 and an empty answer.
    pub fn dispatch(&self, head: &str, body: String) -> (decision: Dispatch)
        requires
            self.wf(),
        ensures
            match method_named(request_method(head@)) {
                None => decision is Ignore,
                Some(method) => {
                    let route = request_route(head@);
                    let segments = route_segments(route);
                    match decision {
                        Dispatch::Ignore => false,
                        Dispatch::NotFound => forall|mask: int|
                            0 <= mask < combination_count(segments.len()) ==> !self.has(
                                method,
                                #[trigger] masked_route(segments, mask as u32, segments.len() as int),
                            ),
                        Dispatch::Run { handler, context } => {
                            &&& handler < self.keys().len()
                            &&& exists|mask: int|
                                #![trigger self.first_match(method, route, mask)]
                                self.first_match(method, route, mask) && self.keys()[handler as int]
                                    == (
                                    method,
                                    masked_route(segments, mask as u32, segments.len() as int),
                                ) && texts(context.request().params()) == route_parameters(
                                    masked_route(segments, mask as u32, segments.len() as int),
                                    route,
                                )
                            &&& context.request().wf()
                            &&& texts(context.request().headers()) == request_headers(head@)
                            &&& context.request().body() == body@
                            &&& context.status() == HttpStatusCode::Success
                            &&& !context.completed()
                            &&& context.body() == Seq::<char>::empty()
                            &&& context.boundary() is None
                        },
                    }
                },
            },
    {
        let (method_name, route) = method_and_route(head);
        let method = match http_method_from_string(method_name.as_str()) {
            Some(m) => m,
            None => {
                return Dispatch::Ignore;
            },
        };
        match self.resolve(method, route.as_str()) {
            None => Dispatch::NotFound,
            Some((registered, handler)) => {
                let params = parameters_of(registered.as_str(), route.as_str());
                let headers = headers_of(head);
                let request = Request::new(params, headers, body);
                let context = Context::new(request, HttpStatusCode::Success);
                Dispatch::Run { handler, context }
            },
        }
    }
}

} // verus!
