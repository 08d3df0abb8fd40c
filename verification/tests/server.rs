use mpmc_queue::http::{HttpMethod, HttpStatusCode};
use mpmc_queue::intake::{bytes_between, find_head_end, Intake, Want};
use mpmc_queue::web_server::{Dispatch, WebServer};
use mpmc_queue::wire::{content_length, headers_of, method_and_route, parameters_of};

fn server() -> WebServer<u32> {
    let mut s = WebServer::new();
    s.get("/", 1);
    s.get("/pi/:a", 2);
    s.post("/upload", 3);
    s
}

#[test]
fn a_new_server_has_ten_threads_and_no_handler() {
    let mut s: WebServer<u32> = WebServer::new();
    assert_eq!(s.thread_number(), 10);
    assert_eq!(s.len(), 0);
    s.threads(16);
    assert_eq!(s.thread_number(), 16);
}

#[test]
fn a_handler_takes_the_place_of_the_one_before_it() {
    let mut s = server();
    assert_eq!(s.len(), 3);
    s.get("/", 7);
    assert_eq!(s.len(), 3);
    assert_eq!(s.position(HttpMethod::Get, "/"), Some(0));
    assert_eq!(*s.handler_at(0), 7);
    s.post("/", 8);
    assert_eq!(s.len(), 4);
    assert_eq!(*s.handler_at(3), 8);
}

#[test]
fn a_route_resolves_to_the_first_registered_combination() {
    let mut s = server();
    assert_eq!(s.resolve(HttpMethod::Get, "/pi/5"), Some(("/pi/:a".to_string(), 1)));
    assert_eq!(s.resolve(HttpMethod::Get, "/"), Some(("/".to_string(), 0)));
    assert_eq!(s.resolve(HttpMethod::Post, "/"), None);
    assert_eq!(s.resolve(HttpMethod::Get, "/pi"), None);
    assert_eq!(s.resolve(HttpMethod::Post, "/upload"), Some(("/upload".to_string(), 2)));
    s.get("/pi/5", 9);
    assert_eq!(s.resolve(HttpMethod::Get, "/pi/5"), Some(("/pi/5".to_string(), 3)));
    s.get("/:a/5", 10);
    s.get("/:a/:a", 11);
    assert_eq!(s.resolve(HttpMethod::Get, "/pi/6"), Some(("/pi/:a".to_string(), 1)));
    assert_eq!(s.resolve(HttpMethod::Get, "/x/5"), Some(("/:a/5".to_string(), 4)));
    assert_eq!(s.resolve(HttpMethod::Get, "/x/y"), Some(("/:a/:a".to_string(), 5)));
}

#[test]
fn the_head_names_method_and_route() {
    assert_eq!(
        method_and_route("GET /pi/5 HTTP/1.1\r\nHost: x\r\n\r\n"),
        ("GET".to_string(), "/pi/5".to_string())
    );
    assert_eq!(method_and_route("GET"), ("GET".to_string(), String::new()));
    assert_eq!(method_and_route(""), (String::new(), String::new()));
    assert_eq!(method_and_route("A  B"), ("A".to_string(), String::new()));
}

#[test]
fn headers_are_kept_under_their_names_in_lower_case() {
    let h = headers_of(
        "POST /upload HTTP/1.1\r\nContent-Type: text/plain\r\nX-A: 1\r\nx-a: 2\r\nBroken\r\nY: a: b\r\n\r\n",
    );
    assert_eq!(h.len(), 3);
    assert_eq!(h.get("content-type"), Some(&"text/plain".to_string()));
    assert_eq!(h.get("x-a"), Some(&"2".to_string()));
    assert_eq!(h.get("y"), Some(&"a: b".to_string()));
    assert_eq!(h.get("Content-Type"), None);
}

#[test]
fn the_announced_length_is_read_from_the_head() {
    assert_eq!(content_length("POST / HTTP/1.1\r\nContent-Length: 12\r\n\r\n"), 12);
    assert_eq!(content_length("POST / HTTP/1.1\r\ncontent-length:7\r\n\r\n"), 7);
    assert_eq!(content_length("POST / HTTP/1.1\r\nContent-Length: abc\r\n\r\n"), 0);
    assert_eq!(content_length("POST / HTTP/1.1\r\nHost: x\r\n\r\n"), 0);
    assert_eq!(content_length("POST / HTTP/1.1\r\nContent-Length: 5:6\r\n\r\n"), 5);
    assert_eq!(
        content_length("POST / HTTP/1.1\r\nContent-Length: 3\r\nContent-Length: 4\r\n\r\n"),
        3
    );
    assert_eq!(content_length("Content-Length: 99999999999999999999999\r\n"), 0);
}

#[test]
fn the_first_parameter_of_a_route_takes_its_value() {
    let p = parameters_of("/pi/:a", "/pi/5");
    assert_eq!(p.len(), 1);
    assert_eq!(p.get("a"), Some(&"5".to_string()));
    assert_eq!(parameters_of("/", "/").len(), 0);
    let p = parameters_of("/:id/:x", "/7/8");
    assert_eq!(p.len(), 1);
    assert_eq!(p.get("id"), Some(&"7".to_string()));
    assert_eq!(parameters_of("/a/:b", "/a").len(), 0);
    let p = parameters_of("/::b", "/v");
    assert_eq!(p.get("b"), Some(&"v".to_string()));
}

#[test]
fn a_request_is_dispatched_to_its_handler() {
    let s = server();
    match s.dispatch("GET /pi/5 HTTP/1.1\r\nHost: here\r\n\r\n", "body".to_string()) {
        Dispatch::Run { handler, context } => {
            assert_eq!(handler, 1);
            assert_eq!(*s.handler_at(handler), 2);
            assert_eq!(context.get_request().get_param("a"), Some(&"5".to_string()));
            assert_eq!(context.get_request().get_header("Host"), Some(&"here".to_string()));
            assert_eq!(context.get_request().get_body(), "body");
            assert_eq!(*context.get_status(), HttpStatusCode::Success);
            assert_eq!(context.get_body(), "");
            assert!(!context.is_completed());
        }
        _ => panic!("the request has a handler"),
    }
}

#[test]
fn a_request_without_handler_is_not_found_and_one_without_method_is_ignored() {
    let s = server();
    assert!(matches!(s.dispatch("GET /nothing/at/all HTTP/1.1\r\n\r\n", String::new()), Dispatch::NotFound));
    assert!(matches!(s.dispatch("FETCH / HTTP/1.1\r\n\r\n", String::new()), Dispatch::Ignore));
    assert!(matches!(s.dispatch("", String::new()), Dispatch::Ignore));
    assert!(matches!(s.dispatch("POST /pi/5 HTTP/1.1\r\n\r\n", String::new()), Dispatch::NotFound));
}

#[test]
fn the_end_of_the_head_is_behind_the_first_empty_line() {
    assert_eq!(find_head_end(&b"GET /\r\n\r\nbody\r\n\r\n".to_vec()), Some(9));
    assert_eq!(find_head_end(&b"\r\n\r\n".to_vec()), Some(4));
    assert_eq!(find_head_end(&b"GET /\r\n\r".to_vec()), None);
    assert_eq!(find_head_end(&b"".to_vec()), None);
    assert_eq!(bytes_between(&b"abcdef".to_vec(), 2, 4), b"cd".to_vec());
}

#[test]
fn bytes_are_taken_until_head_and_body_are_there() {
    let mut i = Intake::new();
    assert_eq!(i.feed(&b"POST /upload HTTP/1.1\r\nContent-Le".to_vec()), Want::More);
    assert_eq!(i.head(), "");
    assert_eq!(i.feed(&b"ngth: 5\r\n\r\nab".to_vec()), Want::More);
    assert_eq!(i.feed(&b"c".to_vec()), Want::More);
    assert_eq!(i.feed(&b"de".to_vec()), Want::Nothing);
    assert_eq!(i.head(), "POST /upload HTTP/1.1\r\nContent-Length: 5\r\n\r\n");
    assert_eq!(i.body(), "abcde");
}

#[test]
fn a_request_without_body_is_there_with_its_head() {
    let mut i = Intake::new();
    assert_eq!(i.feed(&b"GET / HTTP/1.1\r\nHost: x\r\n\r\n".to_vec()), Want::Nothing);
    assert_eq!(i.body(), "");
}

#[test]
fn the_end_of_the_stream_ends_the_intake() {
    let mut i = Intake::new();
    assert_eq!(i.feed(&b"GET / HT".to_vec()), Want::More);
    assert_eq!(i.feed(&Vec::new()), Want::Nothing);
    assert_eq!(i.head(), "");
    assert_eq!(i.body(), "GET / HT");
}

#[test]
fn bytes_that_are_no_text_are_read_as_the_replacement_character() {
    let mut i = Intake::new();
    assert_eq!(i.feed(&b"GET / HTTP/1.1\r\nContent-Length: 3\r\n\r\na\xffb".to_vec()), Want::Nothing);
    assert_eq!(i.body(), "a\u{fffd}b");
}
