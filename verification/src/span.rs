//! Source positions.

use crate::text::{byte_offset, column_at, line_at, utf8_offset};
use vstd::prelude::*;

verus! {

/// A region of the source text: the half-open range of offsets
/// `start..end`, together with the zero-based line and column of `start`.
/// All four count characters, not bytes; `byte_range` gives the range in
/// bytes of the UTF-8 encoding.
#[derive(Clone, Copy, Debug, PartialEq, Eq, Structural)]
pub struct Span {
    pub start: usize,
    pub end: usize,
    pub line: usize,
    pub column: usize,
}

impl Span {
    /// The span lies inside `src`, and its line and column are those of
    /// its start offset.
    pub open spec fn within(self, src: Seq<char>) -> bool {
        &&& self.start <= self.end <= src.len()
        &&& self.line == line_at(src, self.start as int)
        &&& self.column == column_at(src, self.start as int)
    }

    /// The text that the span covers.
    pub open spec fn text(self, src: Seq<char>) -> Seq<char> {
        src.subrange(self.start as int, self.end as int)
    }
}

impl Span {
    /// The range in bytes that the span covers in the UTF-8 encoding of
    /// `src`, the range by which a string that holds the text is sliced;
    /// nothing where it does not fit the machine's word.
    pub fn byte_range(&self, src: &Vec<char>) -> (r: Option<(usize, usize)>)
        requires
            self.start <= self.end <= src.len(),
        ensures
            match r {
                Some(range) => range.0 == utf8_offset(src@, self.start as int) && range.1
                    == utf8_offset(src@, self.end as int) && range.0 <= range.1,
                None => utf8_offset(src@, self.end as int) > usize::MAX,
            },
    {
        proof {
            crate::text::lemma_utf8_offset_grows(src@, self.start as int, self.end as int);
        }
        match byte_offset(src, self.end) {
            None => None,
            Some(end) => match byte_offset(src, self.start) {
                None => None,
                Some(start) => Some((start, end)),
            },
        }
    }
}

} // verus!
