//! The bytes of a request as they come in, chunk by chunk, and the decision
//! whether more of them are to be read.
//!
//! Whoever owns the connection reads a chunk and feeds it; the answer says
//! whether to read on. A chunk of no bytes stands for the end of the stream.

use crate::wire::{announced_length, content_length};
use vstd::prelude::*;

verus! {

/// Whether the empty line that ends a head begins at position `i` of
/// `bytes`: a carriage return and a line feed, twice.
pub open spec fn blank_line_at(bytes: Seq<u8>, i: int) -> bool {
    &&& 0 <= i
    &&& i + 4 <= bytes.len()
    &&& bytes[i] == 13
    &&& bytes[i + 1] == 10
    &&& bytes[i + 2] == 13
    &&& bytes[i + 3] == 10
}

/// Whether the head of `bytes` ends at position `end`: behind the first
/// empty line.
pub open spec fn head_ends_at(bytes: Seq<u8>, end: int) -> bool {
    &&& blank_line_at(bytes, end - 4)
    &&& forall|j: int| 0 <= j < end - 4 ==> !blank_line_at(bytes, j)
}

/// Where the head of `buffer` ends, if it holds the empty line that ends it.
pub fn find_head_end(buffer: &Vec<u8>) -> (end: Option<usize>)
    ensures
        match end {
            Some(e) => head_ends_at(buffer@, e as int),
            None => forall|j: int| !blank_line_at(buffer@, j),
        },
{
    let n = buffer.len();
    if n < 4 {
        return None;
    }
    let last = n - 4;
    let mut i: usize = 0;
    loop
        invariant
            i <= last,
            last == n - 4,
            n == buffer.len(),
            forall|j: int| 0 <= j < i ==> !blank_line_at(buffer@, j),
        decreases last - i,
    {
        if buffer[i] == 13 && buffer[i + 1] == 10 && buffer[i + 2] == 13 && buffer[i + 3] == 10 {
            return Some(i + 4);
        }
        if i == last {
            return None;
        }
        i += 1;
    }
}

/// The text that bytes stand for when every run of bytes that is no UTF-8 is
/// read as the replacement character.
pub uninterp spec fn lossy_text(bytes: Seq<u8>) -> Seq<char>;

/// `String::from_utf8_lossy` of the standard library: the result is the
/// text that `bytes` stand for, which depends on `bytes` alone.
#[verifier::external_body]
fn decode_lossy(bytes: &Vec<u8>) -> (text: String)
    ensures
        text@ == lossy_text(bytes@),
{
    String::from_utf8_lossy(bytes).into_owned()
}

/// The bytes of `buffer` from position `from` up to, not including, `to`.
pub fn bytes_between(buffer: &Vec<u8>, from: usize, to: usize) -> (part: Vec<u8>)
    requires
        from <= to <= buffer.len(),
    ensures
        part@ == buffer@.subrange(from as int, to as int),
{
    let mut part: Vec<u8> = Vec::new();
    let mut i: usize = from;
    while i < to
        invariant
            from <= i <= to <= buffer.len(),
            part@ == buffer@.subrange(from as int, i as int),
        decreases to - i,
    {
        part.push(buffer[i]);
        i += 1;
        assert(buffer@.subrange(from as int, i as int) =~= buffer@.subrange(
            from as int,
            i - 1,
        ).push(buffer@[i - 1]));
    }
    part
}

/// What the reader of a connection is to do next.
#[derive(Clone, Copy, Debug, PartialEq, Eq, Structural)]
pub enum Want {
    /// Read another chunk and feed it.
    More,
    /// Read no more: the request is there, or the stream is at its end.
    Nothing,
}

/// The bytes of one request read so far.
pub struct Intake {
    buffer: Vec<u8>,
    head_end: Option<usize>,
    length: usize,
}

impl Intake {
    /// The bytes read so far.
    pub closed spec fn bytes(&self) -> Seq<u8> {
        self.buffer@
    }

    /// Where the head ends, once the empty line behind it has been read.
    pub closed spec fn head_end(&self) -> Option<usize> {
        self.head_end
    }

    /// The length of the body that the head announces; zero before the head
    /// is read.
    pub closed spec fn length(&self) -> usize {
        self.length
    }

    /// The invariant: the end of the head and the length of the body are
    /// those of the bytes read so far.
    pub open spec fn wf(&self) -> bool {
        match self.head_end() {
            Some(e) => {
                &&& head_ends_at(self.bytes(), e as int)
                &&& self.length() == announced_length(lossy_text(self.bytes().take(e as int)))
            },
            None => {
                &&& forall|j: int| !blank_line_at(self.bytes(), j)
                &&& self.length() == 0
            },
        }
    }

    /// Whether the head and as many bytes of the body as the head announces
    /// have been read.
    pub open spec fn complete(&self) -> bool {
        match self.head_end() {
            Some(e) => self.bytes().len() >= e + self.length(),
            None => false,
        }
    }

    /// Nothing read yet.
    pub fn new() -> (intake: Intake)
        ensures
            intake.wf(),
            intake.bytes() == Seq::<u8>::empty(),
            intake.head_end() is None,
    {
        Intake { buffer: Vec::new(), head_end: None, length: 0 }
    }

    /// Takes the chunk that was read, and says whether to read on: as long
    /// as the head or a part of the announced body is missing, unless the
    /// chunk is empty, which is the end of the stream.
    pub fn feed(&mut self, chunk: &Vec<u8>) -> (want: Want)
        requires
            old(self).wf(),
        ensures
            final(self).wf(),
            final(self).bytes() == old(self).bytes() + chunk@,
            want == (if chunk@.len() == 0 || final(self).complete() {
                Want::Nothing
            } else {
                Want::More
            }),
    {
        if chunk.len() == 0 {
            assert(self.bytes() + chunk@ =~= self.bytes());
            return Want::Nothing;
        }
        let ghost before = self.buffer@;
        let mut i: usize = 0;
        while i < chunk.len()
            invariant
                i <= chunk.len(),
                self.buffer@ == before + chunk@.take(i as int),
                self.head_end == old(self).head_end,
                self.length == old(self).length,
            decreases chunk.len() - i,
        {
            self.buffer.push(chunk[i]);
            i += 1;
            assert(before + chunk@.take(i as int) =~= (before + chunk@.take(i - 1)).push(
                chunk@[i - 1],
            ));
        }
        assert(chunk@.take(chunk.len() as int) =~= chunk@);
        match self.head_end {
            Some(e) => {
                assert(self.buffer@.take(e as int) =~= before.take(e as int));
                assert forall|j: int| 0 <= j < e - 4 implies !blank_line_at(self.buffer@, j) by {
                    assert(!blank_line_at(before, j));
                }
                assert(blank_line_at(before, e - 4));
            },
            None => {
                match find_head_end(&self.buffer) {
                    Some(e) => {
                        let head = decode_lossy(&bytes_between(&self.buffer, 0, e));
                        assert(self.buffer@.subrange(0, e as int) =~= self.buffer@.take(e as int));
                        self.length = content_length(head.as_str());
                        self.head_end = Some(e);
                    },
                    None => {},
                }
            },
        }
        match self.head_end {
            Some(e) => {
                let have = self.buffer.len();
                if have >= e && have - e >= self.length {
                    Want::Nothing
                } else {
                    Want::More
                }
            },
            None => Want::More,
        }
    }

    /// The head as text, the empty line at its end included; the empty text
    /// if the head has not been read to its end.
    pub fn head(&self) -> (head: String)
        requires
            self.wf(),
        ensures
            head@ == (match self.head_end() {
                Some(e) => lossy_text(self.bytes().take(e as int)),
                None => Seq::<char>::empty(),
            }),
    {
        match self.head_end {
            Some(e) => {
                assert(self.buffer@.subrange(0, e as int) =~= self.buffer@.take(e as int));
                decode_lossy(&bytes_between(&self.buffer, 0, e))
            },
            None => String::new(),
        }
    }

    /// What was read behind the head, as text.
    pub fn body(&self) -> (body: String)
        requires
            self.wf(),
        ensures
            body@ == lossy_text(
                self.bytes().skip(
                    match self.head_end() {
                        Some(e) => e as int,
                        None => 0,
                    },
                ),
            ),
    {
        let from = match self.head_end {
            Some(e) => e,
            None => 0,
        };
        assert(self.buffer@.subrange(from as int, self.buffer@.len() as int) =~= self.buffer@.skip(
            from as int,
        ));
        decode_lossy(&bytes_between(&self.buffer, from, self.buffer.len()))
    }
}

} // verus!
