use mpmc_queue::http::HttpStatusCode;
use mpmc_queue::multipart::{line_kind, marker_of, parse_multipart_body, utf8_of, LineKind};
use mpmc_queue::multipart_parser::{count_exception_lines, mentions_exception, MultipartParser};
use mpmc_queue::text::{chars_of, string_of};
use mpmc_queue::upload::{
    handle_upload, rejection_reply, sanitize_filename, Upload, UploadState,
};

const BODY: &str = "--XYZ\r\nContent-Disposition: form-data; name=\"file\"; filename=\"a.txt\"\r\nContent-Type: text/plain\r\n\r\nline one\r\nAn Exception here\r\n--XYZ\r\nContent-Disposition: form-data; name=\"note\"\r\n\r\nhello\r\n--XYZ--\r\n";

#[test]
fn the_fields_of_a_form_are_found_by_their_names() {
    let fields = parse_multipart_body(BODY, "XYZ");
    assert_eq!(fields.len(), 2);
    let file = fields.get("file").unwrap();
    assert_eq!(file.name, "file");
    assert_eq!(file.filename, Some("a.txt".to_string()));
    assert_eq!(file.content_type, Some("text/plain".to_string()));
    assert_eq!(file.value, b"line one\r\nAn Exception here".to_vec());
    let note = fields.get("note").unwrap();
    assert_eq!(note.name, "note");
    assert_eq!(note.filename, None);
    assert_eq!(note.content_type, None);
    assert_eq!(note.value, b"hello".to_vec());
}

#[test]
fn parts_without_name_or_without_empty_line_hold_no_field() {
    let body = "--B\r\nContent-Disposition: form-data\r\n\r\nx\r\n--B\r\nContent-Disposition: form-data; name=\"a\"\r\n--B\r\n\r\n--B\r\ncontent-disposition: x; name=b; filename=\"f\"\r\nCONTENT-TYPE: t/u : v\r\n\r\n\u{e9}\r\n--B--";
    let fields = parse_multipart_body(body, "B");
    assert_eq!(fields.len(), 1);
    let b = fields.get("b").unwrap();
    assert_eq!(b.filename, Some("f".to_string()));
    assert_eq!(b.content_type, Some("t/u".to_string()));
    assert_eq!(b.value, "\u{e9}".as_bytes().to_vec());
}

#[test]
fn of_two_fields_with_one_name_the_later_counts() {
    let body = "--B\r\nContent-Disposition: f; name=\"a\"\r\n\r\n1\r\n--B\r\nContent-Disposition: f; name=\"a\"\r\n\r\n2\r\n--B--";
    let fields = parse_multipart_body(body, "B");
    assert_eq!(fields.len(), 1);
    assert_eq!(fields.get("a").unwrap().value, b"2".to_vec());
}

#[test]
fn a_body_without_parts_has_no_fields() {
    assert_eq!(parse_multipart_body("", "B").len(), 0);
    assert_eq!(parse_multipart_body("just text", "B").len(), 0);
}

#[test]
fn head_lines_are_told_apart_by_their_lower_case_form() {
    assert_eq!(line_kind(&chars_of("content-disposition: form-data")), LineKind::Disposition);
    assert_eq!(line_kind(&chars_of("content-type: a/b")), LineKind::ContentType);
    assert_eq!(line_kind(&chars_of("content-type")), LineKind::Other);
    assert_eq!(line_kind(&chars_of("Content-Type: a/b")), LineKind::Other);
    assert_eq!(string_of(&marker_of("XYZ")), "--XYZ");
    assert_eq!(utf8_of(&chars_of("a\u{e9}")), vec![0x61, 0xc3, 0xa9]);
}

#[test]
fn the_boundary_is_what_follows_its_word() {
    assert_eq!(
        MultipartParser::extract_boundary("multipart/form-data; boundary=XYZ"),
        Some("--XYZ".to_string())
    );
    assert_eq!(
        MultipartParser::extract_boundary("multipart/form-data; boundary= XYZ \r\n"),
        Some("--XYZ".to_string())
    );
    assert_eq!(MultipartParser::extract_boundary("boundary=a;boundary=b"), Some("--a;".to_string()));
    assert_eq!(MultipartParser::extract_boundary("text/plain"), None);
    assert_eq!(MultipartParser::extract_boundary("boundary="), Some("--".to_string()));
}

#[test]
fn the_file_part_gives_name_and_count() {
    assert_eq!(
        MultipartParser::parse_file_and_count_exceptions(BODY, "--XYZ"),
        Ok(("a.txt".to_string(), 1))
    );
}

#[test]
fn exceptions_are_counted_in_capital_and_small_letters() {
    let body = "--B\r\nContent-Disposition: form-data; name=\"file\"\r\n\r\nEXCEPTION\r\nno\r\nan exception, an Exception\r\nexcept\r\n--B--";
    assert_eq!(
        MultipartParser::parse_file_and_count_exceptions(body, "--B"),
        Ok(("unknown.txt".to_string(), 2))
    );
}

#[test]
fn without_file_part_there_is_an_error() {
    assert_eq!(
        MultipartParser::parse_file_and_count_exceptions("--B\r\nContent-Disposition: form-data; name=\"note\"\r\n\r\nx\r\n--B--", "--B"),
        Err("No file part found".to_string())
    );
    assert_eq!(
        MultipartParser::parse_file_and_count_exceptions("", "--B"),
        Err("No file part found".to_string())
    );
    assert_eq!(
        MultipartParser::parse_file_and_count_exceptions(BODY, ""),
        Err("No file part found".to_string())
    );
}

#[test]
fn the_name_of_the_file_stands_in_the_disposition_line() {
    assert_eq!(MultipartParser::extract_filename(BODY, "XYZ"), Some("a.txt".to_string()));
    assert_eq!(MultipartParser::extract_filename(BODY, "ABC"), Some("a.txt".to_string()));
    assert_eq!(
        MultipartParser::extract_filename("--B\r\nContent-Disposition: form-data; name=\"note\"\r\n\r\nx\r\n--B--", "B"),
        None
    );
    assert_eq!(
        MultipartParser::extract_filename("--B\r\nContent-Disposition: x; filename=\"open\r\n--B\r\nContent-Disposition: x; filename=\"b.log\"\r\n--B--", "B"),
        Some("b.log".to_string())
    );
    assert_eq!(MultipartParser::extract_filename("", "B"), None);
}

#[test]
fn the_content_of_the_file_stands_behind_the_empty_line() {
    assert_eq!(
        MultipartParser::extract_file_content(BODY, "XYZ"),
        Some(b"line one\r\nAn Exception here".to_vec())
    );
    assert_eq!(
        MultipartParser::extract_file_content("--B\r\nContent-Disposition: x; filename=\"f\"\r\n\r\n\r\n\r\n--B--", "B"),
        Some(Vec::new())
    );
    assert_eq!(
        MultipartParser::extract_file_content("--B\r\nContent-Disposition: x; name=\"f\"\r\n\r\nabc\r\n--B--", "B"),
        None
    );
    assert_eq!(MultipartParser::extract_file_content("", "B"), None);
}

#[test]
fn exception_lines_are_counted() {
    assert_eq!(count_exception_lines(&chars_of("")), 0);
    assert_eq!(count_exception_lines(&chars_of("Exception\nexception\r\nEXCEPTION")), 3);
    assert_eq!(count_exception_lines(&chars_of("exceptio\nn")), 0);
    assert!(mentions_exception(&chars_of("an exception")));
    assert!(!mentions_exception(&chars_of("an Exception")));
}

#[test]
fn an_upload_without_permit_is_turned_away() {
    let mut state = UploadState::new();
    let reply = handle_upload(
        &mut state,
        false,
        Some(Upload { filename: Some("a".to_string()), content: "exception".to_string() }),
    );
    assert_eq!(reply.status, HttpStatusCode::TooManyRequests);
    assert_eq!(reply.message, "Too many files being processed");
    assert_eq!(state.files_processed, 0);
}

#[test]
fn an_upload_without_file_or_with_an_empty_file_is_refused() {
    let mut state = UploadState::new();
    let reply = handle_upload(&mut state, true, None);
    assert_eq!(reply.status, HttpStatusCode::BadRequest);
    assert_eq!(reply.message, "File not found or empty");
    let reply = handle_upload(
        &mut state,
        true,
        Some(Upload { filename: Some("a".to_string()), content: String::new() }),
    );
    assert_eq!(reply.status, HttpStatusCode::BadRequest);
    assert_eq!(reply.message, "File not found or empty");
    assert_eq!(state.files_processed, 0);
    assert_eq!(state.total_exceptions, 0);
}

#[test]
fn an_upload_is_counted_under_its_name() {
    let mut state = UploadState::new();
    let reply = handle_upload(
        &mut state,
        true,
        Some(Upload { filename: Some("a.log".to_string()), content: "x\nException\nexception".to_string() }),
    );
    assert_eq!(reply.status, HttpStatusCode::Success);
    assert_eq!(reply.message, "Processed file: a.log");
    let reply = handle_upload(
        &mut state,
        true,
        Some(Upload { filename: None, content: "no such line".to_string() }),
    );
    assert_eq!(reply.message, "Processed file: unknown.txt");
    handle_upload(
        &mut state,
        true,
        Some(Upload { filename: Some("a.log".to_string()), content: "EXCEPTION".to_string() }),
    );
    assert_eq!(state.total_exceptions, 3);
    assert_eq!(state.files_processed, 3);
    assert_eq!(state.per_file.get("a.log"), Some(&1));
    assert_eq!(state.per_file.get("unknown.txt"), Some(&0));
}

#[test]
fn the_rejection_lists_the_routes() {
    let reply = rejection_reply();
    assert_eq!(reply.status, HttpStatusCode::BadRequest);
    assert_eq!(
        reply.message,
        "Valid routes:\nPOST /upload - Upload a file for analysis\nGET /stats - Show statistics"
    );
}

#[test]
fn a_safe_name_keeps_letters_and_digits_only() {
    assert_eq!(sanitize_filename("a.txt"), "a_txt");
    assert_eq!(sanitize_filename("../etc/passwd"), "___etc_passwd");
    assert_eq!(sanitize_filename("Az09"), "Az09");
    assert_eq!(sanitize_filename("\u{e9}t\u{e9} 1"), "_t__1");
    assert_eq!(sanitize_filename(""), "");
    for name in ["a.txt", "x y\tz", "\u{130}\u{df}", "~!@#$%^&*()_+"] {
        assert_eq!(sanitize_filename(name), name.replace(|c: char| !c.is_ascii_alphanumeric(), "_"));
    }
}
