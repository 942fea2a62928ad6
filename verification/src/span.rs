//! Half-open byte-offset intervals into a source file's text.

use vstd::prelude::*;

verus! {

/// A half-open interval `[begin, end)` of byte offsets into a source
/// file's text. A zero-width span (`begin == end`) is valid and marks a
/// point location, such as the end of the input.
#[derive(Copy, Clone, Debug, PartialEq, Eq, Structural)]
pub struct Span {
    pub begin: usize,
    pub end: usize,
}

impl Span {
    /// A span never ends before it begins.
    pub open spec fn wf(self) -> bool {
        self.begin <= self.end
    }

    /// Builds the span covering `range`.
    pub fn new(range: core::ops::Range<usize>) -> (s: Span)
        requires
            range.start <= range.end,
        ensures
            s == (Span { begin: range.start, end: range.end }),
            s.wf(),
    {
        Span { begin: range.start, end: range.end }
    }

    /// Builds the zero-width span at offset `point`.
    pub fn point(point: usize) -> (s: Span)
        ensures
            s == (Span { begin: point, end: point }),
            s.wf(),
    {
        Span { begin: point, end: point }
    }

    /// The offset of the first byte covered by the span.
    pub fn begin(&self) -> (b: usize)
        ensures
            b == self.begin,
    {
        self.begin
    }

    /// The offset of the first byte past the span.
    pub fn end(&self) -> (e: usize)
        ensures
            e == self.end,
    {
        self.end
    }
}

} // verus!
