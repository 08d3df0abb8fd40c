use mpmc_queue::combinations::generate_route_combinations;
use mpmc_queue::lines::{lines_of, lowercase_of, parse_usize};
use mpmc_queue::search::bruteforce;
use mpmc_queue::text::{
    chars_of, find_from, find_in, same_text, split_on, split_once_on, string_of, strip_prefixes_of,
    strip_suffixes_of, to_ascii_lowercase, trim_any_of, trim_of,
};

fn c(s: &str) -> Vec<char> {
    chars_of(s)
}

fn strings(pieces: Vec<Vec<char>>) -> Vec<String> {
    pieces.iter().map(string_of).collect()
}

#[test]
fn chars_and_strings_go_back_and_forth() {
    assert_eq!(chars_of("a\u{e9}b"), vec!['a', '\u{e9}', 'b']);
    assert_eq!(string_of(&vec!['a', '\u{e9}', 'b']), "a\u{e9}b");
    assert_eq!(string_of(&Vec::new()), "");
    assert!(same_text("abc", "abc"));
    assert!(!same_text("abc", "abd"));
    assert!(!same_text("abc", "ab"));
}

#[test]
fn bruteforce_finds_a_pattern_anywhere() {
    assert!(bruteforce("hola mundo", "mundo"));
    assert!(bruteforce("hola mundo", "hola"));
    assert!(bruteforce("hola mundo", "a m"));
    assert!(!bruteforce("hola mundo", "mundos"));
    assert!(!bruteforce("ab", "abc"));
    assert!(bruteforce("abc", ""));
    assert!(bruteforce("", ""));
    assert!(!bruteforce("", "a"));
    assert!(bruteforce("a\u{f1}b", "\u{f1}b"));
    assert!(bruteforce("aab", "ab"));
}

#[test]
fn find_gives_the_first_position() {
    assert_eq!(find_in(&c("abcabc"), &c("bc")), Some(1));
    assert_eq!(find_in(&c("abcabc"), &c("x")), None);
    assert_eq!(find_in(&c("abc"), &c("")), Some(0));
    assert_eq!(find_from(&c("abcabc"), &c("bc"), 2), Some(4));
    assert_eq!(find_from(&c("abcabc"), &c("bc"), 5), None);
    assert_eq!(find_from(&c("abc"), &c("c"), 9), None);
}

#[test]
fn split_cuts_at_every_separator() {
    assert_eq!(strings(split_on(&c("a--b--c"), &c("--"))), vec!["a", "b", "c"]);
    assert_eq!(strings(split_on(&c("aaa"), &c("aa"))), vec!["", "a"]);
    assert_eq!(strings(split_on(&c("abc"), &c("x"))), vec!["abc"]);
    assert_eq!(strings(split_on(&c(""), &c("x"))), vec![""]);
    assert_eq!(strings(split_on(&c("/a/"), &c("/"))), vec!["", "a", ""]);
}

#[test]
fn split_once_cuts_at_the_first_separator() {
    let (front, back) = split_once_on(&c("A: b: c"), &c(": ")).unwrap();
    assert_eq!(string_of(&front), "A");
    assert_eq!(string_of(&back), "b: c");
    assert!(split_once_on(&c("A:b"), &c(": ")).is_none());
}

#[test]
fn trim_takes_white_space_from_both_ends() {
    assert_eq!(string_of(&trim_of(&c("  a b \n"))), "a b");
    assert_eq!(string_of(&trim_of(&c("\u{a0}\u{3000}x\t\r"))), "x");
    assert_eq!(string_of(&trim_of(&c(" \n "))), "");
    assert_eq!(string_of(&trim_of(&c("x"))), "x");
    assert_eq!(string_of(&trim_any_of(&c("\"\"a\"b\""), &c("\""))), "a\"b");
    assert_eq!(string_of(&trim_any_of(&c("\r\n\rabc\n"), &c("\r\n"))), "abc");
}

#[test]
fn prefixes_and_suffixes_are_taken_as_often_as_they_stand() {
    assert_eq!(string_of(&strip_prefixes_of(&c("name=name=x"), &c("name="))), "x");
    assert_eq!(string_of(&strip_prefixes_of(&c("nam=x"), &c("name="))), "nam=x");
    assert_eq!(string_of(&strip_prefixes_of(&c("abc"), &c(""))), "abc");
    assert_eq!(string_of(&strip_suffixes_of(&c("abc\r\n\r\n"), &c("\r\n"))), "abc");
    assert_eq!(string_of(&strip_suffixes_of(&c("abc----"), &c("--"))), "abc");
    assert_eq!(string_of(&strip_suffixes_of(&c("abc-"), &c("--"))), "abc-");
    assert_eq!(string_of(&strip_suffixes_of(&c("----"), &c("--"))), "");
}

#[test]
fn lines_end_with_a_line_feed_and_maybe_a_carriage_return() {
    assert_eq!(strings(lines_of(&c("a\r\nb\nc"))), vec!["a", "b", "c"]);
    assert_eq!(strings(lines_of(&c("a\n"))), vec!["a"]);
    assert_eq!(strings(lines_of(&c("a\n\n"))), vec!["a", ""]);
    assert_eq!(strings(lines_of(&c(""))), Vec::<String>::new());
    assert_eq!(strings(lines_of(&c("a\r"))), vec!["a\r"]);
    assert_eq!(strings(lines_of(&c("\n"))), vec![""]);
    assert_eq!(strings(lines_of(&c("a\r\r\nb"))), vec!["a\r", "b"]);
}

#[test]
fn lines_are_those_of_the_standard_library() {
    for text in ["a\r\nb\nc", "a\n", "a\n\n", "", "a\r", "\n", "\r\n\r\n", "x\ny\r"] {
        let expected: Vec<String> = text.lines().map(|l| l.to_string()).collect();
        assert_eq!(strings(lines_of(&c(text))), expected, "for {:?}", text);
    }
}

#[test]
fn numbers_are_read_as_the_standard_library_reads_them() {
    for text in
        ["42", "+7", "", "+", "4 2", "-1", "007", "18446744073709551615", "18446744073709551616", "9a"]
    {
        assert_eq!(parse_usize(&c(text)), text.parse::<usize>().ok(), "for {:?}", text);
    }
    assert_eq!(parse_usize(&c("42")), Some(42));
    assert_eq!(parse_usize(&c("+7")), Some(7));
    assert_eq!(parse_usize(&c("")), None);
}

#[test]
fn lower_case_forms() {
    assert_eq!(string_of(&to_ascii_lowercase(&c("Content-TYPE: \u{c9}"))), "content-type: \u{c9}");
    assert_eq!(string_of(&lowercase_of(&c("EXCEPTION \u{c9}"))), "exception \u{e9}");
}

#[test]
fn combinations_of_a_route_of_two_segments() {
    assert_eq!(generate_route_combinations("/pi/5"), vec!["/pi/5", "/:a/5", "/pi/:a", "/:a/:a"]);
}

#[test]
fn combinations_of_short_routes() {
    assert_eq!(generate_route_combinations("/"), vec!["/", "/:a"]);
    assert_eq!(generate_route_combinations(""), vec!["/", "/:a"]);
    assert_eq!(generate_route_combinations("//a"), vec!["/a", "/:a"]);
    assert_eq!(generate_route_combinations("a/"), vec!["/a/", "/:a/", "/a/:a", "/:a/:a"]);
}

#[test]
fn a_route_of_three_segments_has_eight_combinations() {
    let all = generate_route_combinations("/a/b/c");
    assert_eq!(all.len(), 8);
    assert_eq!(all[0], "/a/b/c");
    assert_eq!(all[5], "/:a/b/:a");
    assert_eq!(all[7], "/:a/:a/:a");
}

#[test]
fn a_route_of_too_many_segments_has_no_combinations() {
    let route = vec!["s"; 31].join("/");
    assert!(generate_route_combinations(&route).is_empty());
}
