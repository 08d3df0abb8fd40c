use mpmc_queue::lines::{lines_of, lowercase_of, parse_usize};
use mpmc_queue::search::bruteforce;
use mpmc_queue::text::{
    chars_of, find_in, split_on, split_once_on, string_of, strip_prefixes_of, strip_suffixes_of,
    to_ascii_lowercase, trim_any_of, trim_of,
};

/// Texts over a few characters, the same in every run.
struct Texts(u64);

impl Texts {
    fn number(&mut self, below: usize) -> usize {
        self.0 = self.0.wrapping_mul(6364136223846793005).wrapping_add(1442695040888963407);
        ((self.0 >> 33) as usize) % below
    }

    fn text(&mut self, alphabet: &[char], longest: usize) -> String {
        let len = self.number(longest + 1);
        (0..len).map(|_| alphabet[self.number(alphabet.len())]).collect()
    }
}

fn strings(pieces: Vec<Vec<char>>) -> Vec<String> {
    pieces.iter().map(string_of).collect()
}

#[test]
fn white_space_is_what_the_standard_library_takes_for_it() {
    for code in 0..=0x10FFFFu32 {
        if let Some(c) = char::from_u32(code) {
            assert_eq!(trim_of(&vec![c]).is_empty(), c.is_whitespace(), "for {:?}", c);
        }
    }
}

#[test]
fn ascii_lower_case_is_that_of_the_standard_library() {
    for code in 0..=0x10FFFFu32 {
        if let Some(c) = char::from_u32(code) {
            assert_eq!(to_ascii_lowercase(&vec![c]), vec![c.to_ascii_lowercase()]);
        }
    }
}

#[test]
fn lower_case_is_that_of_the_standard_library() {
    for text in ["ABC def", "\u{130}stanbul", "\u{3a3}\u{3a3}", "Stra\u{df}e", ""] {
        assert_eq!(string_of(&lowercase_of(&chars_of(text))), text.to_lowercase());
    }
}

#[test]
fn search_and_split_are_those_of_the_standard_library() {
    let mut texts = Texts(3);
    let alphabet = ['a', 'b', '-'];
    for _ in 0..3000 {
        let text = texts.text(&alphabet, 12);
        let pattern = texts.text(&alphabet, 3);
        assert_eq!(bruteforce(&text, &pattern), text.contains(&pattern), "{:?} {:?}", text, pattern);
        assert_eq!(
            find_in(&chars_of(&text), &chars_of(&pattern)),
            text.find(&pattern),
            "{:?} {:?}",
            text,
            pattern
        );
        if !pattern.is_empty() {
            let expected: Vec<String> = text.split(&pattern).map(String::from).collect();
            assert_eq!(
                strings(split_on(&chars_of(&text), &chars_of(&pattern))),
                expected,
                "{:?} {:?}",
                text,
                pattern
            );
            let once = split_once_on(&chars_of(&text), &chars_of(&pattern))
                .map(|(a, b)| (string_of(&a), string_of(&b)));
            let expected = text.split_once(&pattern).map(|(a, b)| (a.to_string(), b.to_string()));
            assert_eq!(once, expected, "{:?} {:?}", text, pattern);
            assert_eq!(
                string_of(&strip_prefixes_of(&chars_of(&text), &chars_of(&pattern))),
                text.trim_start_matches(pattern.as_str()),
                "{:?} {:?}",
                text,
                pattern
            );
            assert_eq!(
                string_of(&strip_suffixes_of(&chars_of(&text), &chars_of(&pattern))),
                text.trim_end_matches(pattern.as_str()),
                "{:?} {:?}",
                text,
                pattern
            );
        }
    }
}

#[test]
fn trimming_and_lines_are_those_of_the_standard_library() {
    let mut texts = Texts(5);
    let alphabet = ['a', ' ', '\r', '\n', '"', '\t'];
    for _ in 0..3000 {
        let text = texts.text(&alphabet, 10);
        assert_eq!(string_of(&trim_of(&chars_of(&text))), text.trim(), "{:?}", text);
        assert_eq!(
            string_of(&trim_any_of(&chars_of(&text), &vec!['\r', '\n'])),
            text.trim_matches(|c| c == '\r' || c == '\n'),
            "{:?}",
            text
        );
        assert_eq!(
            string_of(&trim_any_of(&chars_of(&text), &vec!['"'])),
            text.trim_matches('"'),
            "{:?}",
            text
        );
        let expected: Vec<String> = text.lines().map(String::from).collect();
        assert_eq!(strings(lines_of(&chars_of(&text))), expected, "{:?}", text);
    }
}

#[test]
fn numbers_are_those_of_the_standard_library() {
    let mut texts = Texts(9);
    let alphabet = ['0', '1', '9', '+', '-', ' '];
    for _ in 0..3000 {
        let text = texts.text(&alphabet, 24);
        assert_eq!(parse_usize(&chars_of(&text)), text.parse::<usize>().ok(), "{:?}", text);
    }
}
