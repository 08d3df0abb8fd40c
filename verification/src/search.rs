//! Search for a pattern in the lines of a text.
//!
//! A file is handed over as its lines; a line that could not be read is
//! `None`. It still counts as a line, and holds no pattern.

use crate::text::{chars_of, contains, find_in};
use vstd::prelude::*;

verus! {

/// Whether `pattern` stands somewhere in `text`. The empty pattern stands in
/// every text.
pub fn bruteforce(text: &str, pattern: &str) -> (found: bool)
    ensures
        found == contains(text@, pattern@),
{
    let text_chars = chars_of(text);
    let pattern_chars = chars_of(pattern);
    find_in(&text_chars, &pattern_chars).is_some()
}

/// What the library sees of the lines of a file.
pub open spec fn lines_view(lines: Seq<Option<String>>) -> Seq<Option<Seq<char>>> {
    lines.map_values(
        |l: Option<String>|
            match l {
                Some(s) => Some(s@),
                None => None,
            },
    )
}

/// Whether `line` could be read and holds `pattern`.
pub open spec fn line_holds(line: Option<Seq<char>>, pattern: Seq<char>) -> bool {
    match line {
        Some(l) => contains(l, pattern),
        None => false,
    }
}

/// The numbers reported for the first `upto` lines of `lines`: for every line
/// that holds `pattern`, in the order of the lines, the number that `numbers`
/// holds at its index.
pub open spec fn reported(
    lines: Seq<Option<Seq<char>>>,
    pattern: Seq<char>,
    numbers: Seq<int>,
    upto: int,
) -> Seq<int>
    decreases upto,
{
    if upto <= 0 {
        Seq::empty()
    } else if line_holds(lines[upto - 1], pattern) {
        reported(lines, pattern, numbers, upto - 1).push(numbers[upto - 1])
    } else {
        reported(lines, pattern, numbers, upto - 1)
    }
}

/// A way to search a file and to number the lines that it reports.
pub trait SearchStrategy {
    /// Whether the strategy can be used.
    spec fn usable(&self) -> bool;

    /// The numbers under which the lines of a file of `total` lines are
    /// reported, in the order of the lines.
    spec fn numbers(&self, total: int) -> Seq<int>;

    /// The numbers of the lines of `lines` that hold `pattern`, in the order
    /// of the lines.
    fn search(&self, lines: &Vec<Option<String>>, pattern: &str) -> (found: Vec<usize>)
        requires
            self.usable(),
        ensures
            found@.map_values(|n: usize| n as int) == reported(
                lines_view(lines@),
                pattern@,
                self.numbers(lines@.len() as int),
                lines@.len() as int,
            ),
    ;
}

/// Whether `line` could be read and holds `pattern`.
fn line_matches(line: &Option<String>, pattern: &str) -> (found: bool)
    ensures
        found == line_holds(
            match *line {
                Some(s) => Some(s@),
                None => None,
            },
            pattern@,
        ),
{
    match line {
        Some(l) => bruteforce(l.as_str(), pattern),
        None => false,
    }
}

/// Searches the lines one after the other and reports each by its number in
/// the file, counted from one.
pub struct SequentialSearch;

impl SearchStrategy for SequentialSearch {
    open spec fn usable(&self) -> bool {
        true
    }

    open spec fn numbers(&self, total: int) -> Seq<int> {
        Seq::new(total as nat, |k: int| k + 1)
    }

    fn search(&self, lines: &Vec<Option<String>>, pattern: &str) -> (found: Vec<usize>) {
        let mut found: Vec<usize> = Vec::new();
        let mut k: usize = 0;
        while k < lines.len()
            invariant
                k <= lines.len(),
                found@.map_values(|n: usize| n as int) == reported(
                    lines_view(lines@),
                    pattern@,
                    self.numbers(lines@.len() as int),
                    k as int,
                ),
            decreases lines.len() - k,
        {
            let ghost before = found@.map_values(|n: usize| n as int);
            if line_matches(&lines[k], pattern) {
                found.push(k + 1);
                assert(found@.map_values(|n: usize| n as int) =~= before.push(k + 1));
            }
            k += 1;
        }
        found
    }
}

/// Searches every file on a thread of its own. Within one file it reports as
/// `SequentialSearch` does.
pub struct ConcurrentSearch;

impl SearchStrategy for ConcurrentSearch {
    open spec fn usable(&self) -> bool {
        true
    }

    open spec fn numbers(&self, total: int) -> Seq<int> {
        Seq::new(total as nat, |k: int| k + 1)
    }

    fn search(&self, lines: &Vec<Option<String>>, pattern: &str) -> (found: Vec<usize>) {
        assert(self.numbers(lines@.len() as int) =~= SequentialSearch.numbers(lines@.len() as int));
        SequentialSearch.search(lines, pattern)
    }
}

/// Searches the lines of a file in chunks of `chunk_size` lines, each chunk
/// on a thread of its own.
pub struct ChunkedConcurrentSearch {
    pub chunk_size: usize,
}

impl ChunkedConcurrentSearch {
    /// The number of lines in the chunk that holds the line at index `k` of a
    /// file of `total` lines: `chunk_size`, or what is left for the last
    /// chunk.
    pub open spec fn chunk_len(&self, k: int, total: int) -> int {
        let start = (k / self.chunk_size as int) * self.chunk_size;
        if total - start < self.chunk_size {
            total - start
        } else {
            self.chunk_size as int
        }
    }
}

impl ChunkedConcurrentSearch {
    /// The number under which the line at index `k` of a file of `total`
    /// lines is reported: the index of its chunk times the length of that
    /// chunk, plus the place of the line in the chunk, counted from one. This
    /// is the number of the line in the file wherever the chunk is a full
    /// one.
    pub open spec fn number_of(&self, k: int, total: int) -> int {
        (k / self.chunk_size as int) * self.chunk_len(k, total) + k % (self.chunk_size as int) + 1
    }
}

impl ChunkedConcurrentSearch {
    /// The numbers under which the lines of the chunk with the index
    /// `chunk_index`, a chunk of `len` lines, are reported.
    pub open spec fn chunk_numbers(chunk_index: int, len: int) -> Seq<int> {
        Seq::new(len as nat, |i: int| chunk_index * len + i + 1)
    }

    /// The numbers of the lines of one chunk that hold `pattern`, in the
    /// order of the lines: the work of one thread.
    pub fn search_chunk(chunk: &Vec<Option<String>>, chunk_index: usize, pattern: &str) -> (found:
        Vec<usize>)
        requires
            chunk_index * chunk@.len() + chunk@.len() <= usize::MAX,
        ensures
            found@.map_values(|n: usize| n as int) == reported(
                lines_view(chunk@),
                pattern@,
                Self::chunk_numbers(chunk_index as int, chunk@.len() as int),
                chunk@.len() as int,
            ),
    {
        let len = chunk.len();
        let mut found: Vec<usize> = Vec::new();
        if len == 0 {
            return found;
        }
        assert(chunk_index * len <= usize::MAX) by (nonlinear_arith)
            requires
                chunk_index * len + len <= usize::MAX,
                0 <= len,
        ;
        let base = chunk_index * len;
        let mut i: usize = 0;
        while i < len
            invariant
                i <= len,
                len == chunk.len(),
                base == chunk_index * len,
                base + len <= usize::MAX,
                found@.map_values(|n: usize| n as int) == reported(
                    lines_view(chunk@),
                    pattern@,
                    Self::chunk_numbers(chunk_index as int, len as int),
                    i as int,
                ),
            decreases len - i,
        {
            let ghost before = found@.map_values(|n: usize| n as int);
            if line_matches(&chunk[i], pattern) {
                found.push(base + i + 1);
                assert(found@.map_values(|n: usize| n as int) =~= before.push(base + i + 1));
            }
            i += 1;
        }
        found
    }
}

impl SearchStrategy for ChunkedConcurrentSearch {
    open spec fn usable(&self) -> bool {
        self.chunk_size > 0
    }

    open spec fn numbers(&self, total: int) -> Seq<int> {
        Seq::new(total as nat, |k: int| self.number_of(k, total))
    }

    fn search(&self, lines: &Vec<Option<String>>, pattern: &str) -> (found: Vec<usize>) {
        let mut found: Vec<usize> = Vec::new();
        let total = lines.len();
        let size = self.chunk_size;
        let mut k: usize = 0;
        while k < total
            invariant
                k <= total,
                total == lines.len(),
                size == self.chunk_size,
                size > 0,
                found@.map_values(|n: usize| n as int) == reported(
                    lines_view(lines@),
                    pattern@,
                    self.numbers(lines@.len() as int),
                    k as int,
                ),
            decreases total - k,
        {
            let ghost before = found@.map_values(|n: usize| n as int);
            if line_matches(&lines[k], pattern) {
                let chunk_index = k / size;
                let place = k % size;
                assert(chunk_index * size + place == k) by (nonlinear_arith)
                    requires
                        chunk_index == k / size,
                        place == k % size,
                        size > 0,
                ;
                let start = k - place;
                let chunk_len = if total - start < size {
                    total - start
                } else {
                    size
                };
                assert(chunk_index * chunk_len <= chunk_index * size) by (nonlinear_arith)
                    requires
                        chunk_len <= size,
                ;
                let n = chunk_index * chunk_len + place + 1;
                found.push(n);
                assert(n == self.number_of(k as int, total as int));
                assert(found@.map_values(|n: usize| n as int) =~= before.push(n as int));
            }
            k += 1;
        }
        found
    }
}

} // verus!
