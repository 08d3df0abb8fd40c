//! Counts of what the uploads held.

use crate::dict::Dict;
use crate::text::{decimal, push_decimal, push_str, string_of};
use vstd::prelude::*;

verus! {

/// How many exceptions were found, in how many files, and in which file how
/// many.
pub struct Stats {
    pub total_exceptions: u64,
    pub file_count: u64,
    pub per_file: Dict<u64>,
}

/// A text as the standard library writes it for inspection: in quotation
/// marks, with what cannot stand there as it is written as an escape.
pub uninterp spec fn quoted(text: Seq<char>) -> Seq<char>;

/// The `Debug` form that the standard library gives to a `str`: the result
/// is the quoted form of `text`, which depends on `text` alone.
#[verifier::external_body]
fn debug_form(text: &str) -> (shown: String)
    ensures
        shown@ == quoted(text@),
{
    format!("{:?}", text)
}

/// The entries of a table as they are listed: each key as it was quoted,
/// a colon, a space and the number, with a comma and a space between two
/// entries.
pub open spec fn listed(shown: Seq<Seq<char>>, values: Seq<u64>) -> Seq<char>
    decreases shown.len(),
{
    if shown.len() == 0 || values.len() != shown.len() {
        Seq::empty()
    } else if shown.len() == 1 {
        shown[0] + ": "@ + decimal(values[0] as nat)
    } else {
        listed(shown.drop_last(), values.drop_last()) + ", "@ + shown.last() + ": "@ + decimal(
            values.last() as nat,
        )
    }
}

/// Appends one entry of a table to `out`: a comma and a space unless it is
/// the first, the key as it was quoted, a colon, a space and the number.
pub fn push_entry(out: &mut Vec<char>, first: bool, shown: &str, value: u64)
    ensures
        final(out)@ == old(out)@ + (if first {
            Seq::<char>::empty()
        } else {
            ", "@
        }) + shown@ + ": "@ + decimal(value as nat),
{
    if !first {
        push_str(out, ", ");
    } else {
        assert(out@ + Seq::<char>::empty() =~= out@);
    }
    push_str(out, shown);
    push_str(out, ": ");
    push_decimal(out, value);
}

impl Stats {
    /// The invariant: the table is well formed, and no file has more
    /// exceptions than all files together.
    pub open spec fn wf(&self) -> bool {
        &&& self.per_file.wf()
        &&& self.per_file.keys().len() == self.per_file.values().len()
        &&& forall|i: int|
            0 <= i < self.per_file.values().len() ==> #[trigger] self.per_file.values()[i]
                <= self.total_exceptions
    }

    /// The exceptions counted for `file`; zero if it was never added.
    pub open spec fn exceptions_of(&self, file: Seq<char>) -> u64 {
        if self.per_file@.contains_key(file) {
            self.per_file@[file]
        } else {
            0
        }
    }

    /// Nothing counted yet.
    pub fn new() -> (stats: Self)
        ensures
            stats.wf(),
            stats.total_exceptions == 0,
            stats.file_count == 0,
            stats.per_file@ == Map::<Seq<char>, u64>::empty(),
    {
        Stats { total_exceptions: 0, file_count: 0, per_file: Dict::new() }
    }

    /// Counts one more file, `filename`, with `exceptions` exceptions: they
    /// are added to the total and to what was counted for the file before.
    pub fn add_file(&mut self, filename: &str, exceptions: u64)
        requires
            old(self).wf(),
            old(self).total_exceptions + exceptions <= u64::MAX,
            old(self).file_count < u64::MAX,
        ensures
            final(self).wf(),
            final(self).total_exceptions == old(self).total_exceptions + exceptions,
            final(self).file_count == old(self).file_count + 1,
            final(self).per_file@ == old(self).per_file@.insert(
                filename@,
                (old(self).exceptions_of(filename@) + exceptions) as u64,
            ),
    {
        let before = match self.per_file.position(filename) {
            Some(i) => {
                assert(self.per_file.keys().contains(filename@));
                assert(self.per_file.keys().index_of(filename@) == i);
                *self.per_file.value_at(i)
            },
            None => 0,
        };
        assert(before == old(self).exceptions_of(filename@));
        self.total_exceptions += exceptions;
        self.file_count += 1;
        self.per_file.insert(filename.to_owned(), before + exceptions);
    }

    /// The text of the counts: the total, the number of files, and the
    /// table of the files in the order in which they first came.
    pub open spec fn text(&self, shown: Seq<Seq<char>>) -> Seq<char> {
        "Total exceptions: "@ + decimal(self.total_exceptions as nat) + "\nFiles processed: "@
            + decimal(self.file_count as nat) + "\nPer file: {"@ + listed(
            shown,
            self.per_file.values(),
        ) + "}"@
    }

    /// The counts as a text of three lines.
    pub fn as_string(&self) -> (text: String)
        requires
            self.wf(),
        ensures
            text@ == self.text(self.per_file.keys().map_values(|k: Seq<char>| quoted(k))),
    {
        let mut out: Vec<char> = Vec::new();
        push_str(&mut out, "Total exceptions: ");
        push_decimal(&mut out, self.total_exceptions);
        push_str(&mut out, "\nFiles processed: ");
        push_decimal(&mut out, self.file_count);
        push_str(&mut out, "\nPer file: {");
        let ghost head = out@;
        let ghost shown = self.per_file.keys().map_values(|k: Seq<char>| quoted(k));
        let ghost values = self.per_file.values();
        let n = self.per_file.len();
        let mut i: usize = 0;
        assert(out@ =~= head + listed(shown.take(0), values.take(0)));
        while i < n
            invariant
                i <= n,
                n == self.per_file.keys().len(),
                n == self.per_file.values().len(),
                shown == self.per_file.keys().map_values(|k: Seq<char>| quoted(k)),
                values == self.per_file.values(),
                out@ == head + listed(shown.take(i as int), values.take(i as int)),
            decreases n - i,
        {
            let key = debug_form(self.per_file.key_at(i).as_str());
            let value = *self.per_file.value_at(i);
            proof {
                assert(shown.take(i + 1).drop_last() =~= shown.take(i as int));
                assert(values.take(i + 1).drop_last() =~= values.take(i as int));
                assert(shown.take(i + 1).last() == key@);
                assert(values.take(i + 1).last() == value);
            }
            let ghost before = out@;
            push_entry(&mut out, i == 0, key.as_str(), value);
            proof {
                if i == 0 {
                    assert(listed(shown.take(0), values.take(0)) =~= Seq::<char>::empty());
                    assert(out@ =~= head + listed(shown.take(1), values.take(1)));
                } else {
                    assert(out@ =~= head + listed(shown.take(i + 1), values.take(i + 1)));
                }
            }
            i += 1;
        }
        assert(shown.take(n as int) =~= shown);
        assert(values.take(n as int) =~= values);
        push_str(&mut out, "}");
        string_of(&out)
    }
}

} // verus!
