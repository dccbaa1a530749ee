//! Source positions: byte spans, located values and diagnostic locations.
use vstd::prelude::*;

verus! {

/// A half-open range `start..end` of byte offsets into a source text.
#[derive(Debug, Clone, Copy, PartialEq, Eq)]
pub struct Span(pub usize, pub usize);

impl Span {
    pub fn new(start: usize, end: usize) -> (res: Span)
        ensures
            res.0 == start,
            res.1 == end,
    {
        Span(start, end)
    }

    pub fn start(&self) -> (res: usize)
        ensures
            res == self.0,
    {
        self.0
    }

    pub fn end(&self) -> (res: usize)
        ensures
            res == self.1,
    {
        self.1
    }

    /// The smallest span that covers both.
    pub fn merge(&self, other: &Span) -> (res: Span)
        ensures
            res.0 == if self.0 <= other.0 { self.0 } else { other.0 },
            res.1 == if self.1 >= other.1 { self.1 } else { other.1 },
    {
        let start = if self.0 <= other.0 { self.0 } else { other.0 };
        let end = if self.1 >= other.1 { self.1 } else { other.1 };
        Span(start, end)
    }
}

/// A value together with the span of source text it came from.
#[derive(Debug, Clone, PartialEq)]
pub struct Spanned<T> {
    pub node: T,
    pub span: Span,
}

impl<T> Spanned<T> {
    pub fn new(node: T, span: Span) -> (res: Spanned<T>)
        ensures
            res.node == node,
            res.span == span,
    {
        Spanned { node, span }
    }
}

/// Where a diagnostic points: an optional file, the span, and a 1-based line and column.
#[derive(Debug, Clone, PartialEq)]
pub struct SourceLocation {
    pub file: Option<String>,
    pub span: Span,
    pub line: usize,
    pub column: usize,
}

impl SourceLocation {
    pub fn new(file: Option<String>, span: Span, line: usize, column: usize) -> (res: SourceLocation)
        ensures
            res.file == file,
            res.span == span,
            res.line == line,
            res.column == column,
    {
        SourceLocation { file, span, line, column }
    }
}

} // verus!
