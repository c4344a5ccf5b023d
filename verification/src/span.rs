use vstd::prelude::*;

use core::ops::Range;

verus! {

/// A half-open range of character offsets into the source text.
///
/// The reserved sentinel value returned by [`Span::eof`] stands for
/// "end of input" and carries no valid range.
#[derive(Clone, Copy, PartialEq, Eq, Structural, Debug)]
pub struct Span {
    pub start: usize,
    pub end: usize,
}

impl Span {
    /// The sentinel span that marks "end of input".
    pub open spec fn spec_eof() -> Span {
        Span { start: 0, end: 0 }
    }

    /// True when this span is the end-of-input sentinel.
    pub open spec fn is_eof(self) -> bool {
        self == Span::spec_eof()
    }

    /// True when this span names a region inside a source text of
    /// `len` characters.
    pub open spec fn valid_for(self, len: nat) -> bool {
        self.start <= self.end <= len
    }

    /// The end-of-input sentinel.
    pub fn eof() -> (s: Span)
        ensures
            s == Span::spec_eof(),
    {
        Span { start: 0, end: 0 }
    }

    pub fn new(range: Range<usize>) -> (s: Span)
        ensures
            s.start == range.start,
            s.end == range.end,
    {
        Span { start: range.start, end: range.end }
    }

    /// The offsets this span covers, or `None` for the sentinel.
    pub fn range(&self) -> (r: Option<Range<usize>>)
        ensures
            self.is_eof() <==> r is None,
            r matches Some(range) ==> range.start == self.start && range.end == self.end,
    {
        if self.start == 0 && self.end == 0 {
            None
        } else {
            Some(self.start..self.end)
        }
    }

    /// Concatenation: a span from the start of `self` to the end of `rhs`,
    /// covering both when they are adjacent.
    pub fn join(self, rhs: Span) -> (s: Span)
        ensures
            s == self.spec_join(rhs),
    {
        Span { start: self.start, end: rhs.end }
    }

    pub open spec fn spec_join(self, rhs: Span) -> Span {
        Span { start: self.start, end: rhs.end }
    }
}

/// Anything that remembers where in the source text it came from.
pub trait Spanned {
    spec fn spec_span(&self) -> Span;

    fn span(&self) -> (s: Span)
        ensures
            s == self.spec_span(),
    ;
}

/// A value paired with the span of the source text that produced it.
#[derive(Debug)]
pub struct WithSpan<T> {
    pub value: T,
    pub span: Span,
}

impl<T> WithSpan<T> {
    pub fn new(value: T, span: Span) -> (w: WithSpan<T>)
        ensures
            w.value == value,
            w.span == span,
    {
        WithSpan { value, span }
    }
}

impl<T> Spanned for WithSpan<T> {
    open spec fn spec_span(&self) -> Span {
        self.span
    }

    fn span(&self) -> Span {
        self.span
    }
}

} // verus!
