//! Parse errors with a row, a column and a snippet of the input.

use vstd::prelude::*;
use crate::text::{concat, string_of_range};

verus! {

/// The number of newlines in `s`.
pub open spec fn count_newlines(s: Seq<char>) -> nat
    decreases s.len(),
{
    if s.len() == 0 {
        0
    } else {
        count_newlines(s.drop_last()) + if s.last() == '\n' { 1nat } else { 0nat }
    }
}

/// The index just after the last newline of `s`, or 0 where there is none.
pub open spec fn line_start(s: Seq<char>) -> int
    decreases s.len(),
{
    if s.len() == 0 {
        0
    } else if s.last() == '\n' {
        s.len() as int
    } else {
        line_start(s.drop_last())
    }
}

/// The 1-based row of the position `off` of `src`: one more than the number
/// of lines completed before it.
pub open spec fn row_at(src: Seq<char>, off: int) -> int {
    1 + count_newlines(src.take(off)) as int
}

/// The column of the position `off` of `src`: the number of characters
/// between the start of its line and it.
pub open spec fn column_at(src: Seq<char>, off: int) -> int {
    off - line_start(src.take(off))
}

/// What std's `Debug` formatting writes for a string: the string quoted,
/// with escapes for quotes, backslashes and characters that do not print.
pub uninterp spec fn debug_of(s: Seq<char>) -> Seq<char>;

/// Relies on std's `Debug` impl for `str`: the quoted, escaped rendering of
/// `s`, a function of its characters alone.
#[verifier::external_body]
fn debug_quoted(s: &str) -> (r: String)
    ensures
        r@ == debug_of(s@),
{
    format!("{:?}", s)
}

/// The snippet shown for the input that remains at a failure: at most 40
/// characters of it, rendered with visible escapes, and `...` where it was cut.
pub open spec fn snippet_of(rest: Seq<char>) -> Seq<char> {
    if rest.len() > 40 {
        debug_of(rest.take(40)) + "..."@
    } else {
        debug_of(rest)
    }
}

/// An error found when parsing template source.
#[derive(Debug, Clone, PartialEq, Eq)]
pub struct ParseError {
    pub row: usize,
    pub column: usize,
    pub snippet: String,
}

impl ParseError {
    pub open spec fn row_view(&self) -> int {
        self.row as int
    }

    pub open spec fn column_view(&self) -> int {
        self.column as int
    }

    pub open spec fn snippet_view(&self) -> Seq<char> {
        self.snippet@
    }

    /// The error at the position `off` of `src`.
    pub open spec fn is_at(&self, src: Seq<char>, off: int) -> bool {
        &&& 0 <= off <= src.len()
        &&& self.row == row_at(src, off)
        &&& self.column == column_at(src, off)
        &&& self.snippet@ == snippet_of(src.skip(off))
    }

    /// The error is at some position of `src`.
    pub open spec fn is_in(&self, src: Seq<char>) -> bool {
        exists|off: int| self.is_at(src, off)
    }

    /// The line number in the source where the error was found.
    pub fn line(&self) -> (r: usize)
        ensures
            r == self.row_view(),
    {
        self.row
    }

    /// The column number in the source where the error was found.
    pub fn column(&self) -> (r: usize)
        ensures
            r == self.column_view(),
    {
        self.column
    }

    /// The input that remained where the error was found, bounded.
    pub fn snippet(&self) -> (r: &str)
        ensures
            r@ == self.snippet_view(),
    {
        self.snippet.as_str()
    }

    /// The error at the position `off` of `src`.
    pub fn at(src: &[char], off: usize) -> (r: ParseError)
        requires
            off <= src@.len(),
            src@.len() < usize::MAX,
        ensures
            r.is_at(src@, off as int),
    {
        let mut row: usize = 1;
        let mut start: usize = 0;
        let mut i: usize = 0;
        while i < off
            invariant
                i <= off <= src@.len() < usize::MAX,
                row == 1 + count_newlines(src@.take(i as int)),
                row <= i + 1,
                start == line_start(src@.take(i as int)),
                start <= i,
            decreases off - i,
        {
            assert(src@.take(i + 1).drop_last() =~= src@.take(i as int));
            if src[i] == '\n' {
                row = row + 1;
                start = i + 1;
            }
            i = i + 1;
        }
        let end = src.len();
        let snippet = if end - off > 40 {
            let cut = string_of_range(src, off, off + 40);
            let q = debug_quoted(cut.as_str());
            assert(src@.subrange(off as int, off + 40) =~= src@.skip(off as int).take(40));
            concat(q.as_str(), "...")
        } else {
            let rest = string_of_range(src, off, end);
            assert(src@.subrange(off as int, end as int) =~= src@.skip(off as int));
            debug_quoted(rest.as_str())
        };
        ParseError { row, column: off - start, snippet }
    }
}

} // verus!
