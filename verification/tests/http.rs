use mpmc_queue::context::Context;
use mpmc_queue::dict::Dict;
use mpmc_queue::http::{
    http_method_from_string, not_found_response, response, HttpMethod, HttpStatusCode,
};
use mpmc_queue::pair::Pair;
use mpmc_queue::request::Request;

#[test]
fn every_method_is_known_by_its_name_in_capitals() {
    assert_eq!(http_method_from_string("GET"), Some(HttpMethod::Get));
    assert_eq!(http_method_from_string("POST"), Some(HttpMethod::Post));
    assert_eq!(http_method_from_string("PUT"), Some(HttpMethod::Put));
    assert_eq!(http_method_from_string("DELETE"), Some(HttpMethod::Delete));
    assert_eq!(http_method_from_string("PATCH"), Some(HttpMethod::Patch));
    assert_eq!(http_method_from_string("HEAD"), Some(HttpMethod::Head));
    assert_eq!(http_method_from_string("OPTIONS"), Some(HttpMethod::Options));
    assert_eq!(http_method_from_string("CONNECT"), Some(HttpMethod::Connect));
    assert_eq!(http_method_from_string("TRACE"), Some(HttpMethod::Trace));
}

#[test]
fn other_texts_name_no_method() {
    assert_eq!(http_method_from_string("get"), None);
    assert_eq!(http_method_from_string(""), None);
    assert_eq!(http_method_from_string("GETS"), None);
    assert_eq!(http_method_from_string(" GET"), None);
}

#[test]
fn status_codes_have_their_numbers() {
    assert_eq!(HttpStatusCode::Success.code(), 200);
    assert_eq!(HttpStatusCode::BadRequest.code(), 400);
    assert_eq!(HttpStatusCode::NotFound.code(), 404);
    assert_eq!(HttpStatusCode::TooManyRequests.code(), 429);
    assert_eq!(HttpStatusCode::InternalServerError.code(), 500);
}

#[test]
fn not_found_response_is_the_fixed_text() {
    assert_eq!(
        not_found_response(),
        "HTTP/1.1 404 Not Found\r\nContent-Type: text/plain\r\nContent-Length: 9\r\nCache-Control: no-store, no-cache, must-revalidate\r\nConnection: close\r\n\r\nNot Found"
    );
}

#[test]
fn response_carries_status_length_and_body() {
    assert_eq!(
        response(HttpStatusCode::Success, "Hello World"),
        "HTTP/1.1 200 OK\r\nContent-Type: text/plain\r\nContent-Length: 11\r\nCache-Control: no-store, no-cache, must-revalidate\r\nConnection: close\r\n\r\nHello World"
    );
    assert_eq!(
        response(HttpStatusCode::BadRequest, ""),
        "HTTP/1.1 400 OK\r\nContent-Type: text/plain\r\nContent-Length: 0\r\nCache-Control: no-store, no-cache, must-revalidate\r\nConnection: close\r\n\r\n"
    );
}

#[test]
fn response_length_counts_bytes_not_characters() {
    let text = response(HttpStatusCode::Success, "a\u{e9}\u{20ac}");
    assert!(text.contains("Content-Length: 6\r\n"));
    assert!(text.ends_with("\r\n\r\na\u{e9}\u{20ac}"));
}

#[test]
fn pair_holds_both_values() {
    let p = Pair::new(HttpMethod::Get, "/".to_string());
    assert_eq!(p.first, HttpMethod::Get);
    assert_eq!(p.second, "/");
    assert_eq!(p, Pair::new(HttpMethod::Get, "/".to_string()));
}

fn table(entries: &[(&str, &str)]) -> Dict<String> {
    let mut d = Dict::new();
    for (k, v) in entries {
        d.insert(k.to_string(), v.to_string());
    }
    d
}

#[test]
fn request_gives_params_headers_and_body() {
    let r = Request::new(
        table(&[("a", "5")]),
        table(&[("content-type", "text/plain")]),
        "the body".to_string(),
    );
    assert_eq!(r.get_param("a"), Some(&"5".to_string()));
    assert_eq!(r.get_param("b"), None);
    assert_eq!(r.get_header("Content-Type"), Some(&"text/plain".to_string()));
    assert_eq!(r.get_header("CONTENT-TYPE"), Some(&"text/plain".to_string()));
    assert_eq!(r.get_header("content-length"), None);
    assert_eq!(r.get_body(), "the body");
}

#[test]
fn context_starts_empty_and_keeps_what_is_set() {
    let r = Request::new(Dict::new(), Dict::new(), String::new());
    let mut c = Context::new(r, HttpStatusCode::Success);
    assert!(!c.is_completed());
    assert_eq!(*c.get_status(), HttpStatusCode::Success);
    assert_eq!(c.get_body(), "");
    assert_eq!(c.get_boundary(), None);
    assert_eq!(c.get_request().get_body(), "");
    c.set_status(HttpStatusCode::BadRequest);
    c.send_text("Invalid number");
    c.set_boundary("XYZ".to_string());
    assert_eq!(*c.get_status(), HttpStatusCode::BadRequest);
    assert_eq!(c.get_body(), "Invalid number");
    assert_eq!(c.get_boundary(), Some(&"XYZ".to_string()));
    c.send_text("again");
    assert_eq!(c.get_body(), "again");
}

#[test]
fn dict_keeps_one_value_for_a_key_in_first_order() {
    let mut d: Dict<u32> = Dict::new();
    assert_eq!(d.insert("b".to_string(), 1), 0);
    assert_eq!(d.insert("a".to_string(), 2), 1);
    assert_eq!(d.insert("b".to_string(), 3), 0);
    assert_eq!(d.len(), 2);
    assert_eq!(d.get("b"), Some(&3));
    assert_eq!(d.get("a"), Some(&2));
    assert_eq!(d.get("c"), None);
    assert!(d.contains_key("a"));
    assert!(!d.contains_key(""));
    assert_eq!(d.key_at(0), "b");
    assert_eq!(*d.value_at(1), 2);
    assert_eq!(d.position("a"), Some(1));
}
