//! Source positions and spans.
use vstd::prelude::*;

verus! {

/// A position in template source: 1-based line and column (in characters)
/// and the 0-based UTF-8 byte offset.
#[derive(Debug, Clone, Copy, PartialEq, Eq, Structural)]
pub struct SourcePos {
    line: usize,
    column: usize,
    byte: usize,
}

/// The mathematical model of a [`SourcePos`].
pub struct SpecPos {
    pub line: int,
    pub column: int,
    pub byte: int,
}

impl View for SourcePos {
    type V = SpecPos;

    closed spec fn view(&self) -> SpecPos {
        SpecPos { line: self.line as int, column: self.column as int, byte: self.byte as int }
    }
}

impl SourcePos {
    pub fn new_unchecked(line: usize, column: usize, byte: usize) -> (r: Self)
        ensures
            r@ == (SpecPos { line: line as int, column: column as int, byte: byte as int }),
    {
        Self { line, column, byte }
    }

    pub fn line(self) -> (r: usize)
        ensures
            r == self@.line,
    {
        self.line
    }

    pub fn column(self) -> (r: usize)
        ensures
            r == self@.column,
    {
        self.column
    }

    pub fn byte(self) -> (r: usize)
        ensures
            r == self@.byte,
    {
        self.byte
    }
}

/// A source range. Its end never lies before its start in bytes.
#[derive(Debug, Clone, Copy, PartialEq, Eq, Structural)]
pub struct SourceSpan {
    start: SourcePos,
    end: SourcePos,
}

/// The mathematical model of a [`SourceSpan`].
pub struct SpecSpan {
    pub start: SpecPos,
    pub end: SpecPos,
}

impl View for SourceSpan {
    type V = SpecSpan;

    closed spec fn view(&self) -> SpecSpan {
        SpecSpan { start: self.start@, end: self.end@ }
    }
}

/// Why two positions do not make a span.
#[derive(Debug, Clone, Copy, PartialEq, Eq, Structural)]
pub enum SpanError {
    EndBeforeStart { start: SourcePos, end: SourcePos },
    InconsistentZeroLengthSpan { start: SourcePos, end: SourcePos },
}

/// `end` lies before `start`, by byte or by line and column.
pub open spec fn end_before_start(start: SpecPos, end: SpecPos) -> bool {
    ||| end.byte < start.byte
    ||| end.line < start.line
    ||| (end.line == start.line && end.column < start.column)
}

/// A zero-length span whose line or column changes.
pub open spec fn inconsistent_zero_length(start: SpecPos, end: SpecPos) -> bool {
    end.byte == start.byte && (end.line != start.line || end.column != start.column)
}

impl SourceSpan {
    #[verifier::type_invariant]
    spec fn wf(self) -> bool {
        self.start.byte <= self.end.byte
    }

    /// Checks that `start` and `end` make a forward span.
    pub fn try_new(start: SourcePos, end: SourcePos) -> (r: Result<Self, SpanError>)
        ensures
            end_before_start(start@, end@) ==> r == Err::<Self, SpanError>(
                SpanError::EndBeforeStart { start, end },
            ),
            !end_before_start(start@, end@) && inconsistent_zero_length(start@, end@) ==> r
                == Err::<Self, SpanError>(SpanError::InconsistentZeroLengthSpan { start, end }),
            !end_before_start(start@, end@) && !inconsistent_zero_length(start@, end@) ==> (
            r is Ok && r->Ok_0@ == (SpecSpan { start: start@, end: end@ })),
    {
        if end.byte < start.byte {
            return Err(SpanError::EndBeforeStart { start, end });
        }
        if end.line < start.line || (end.line == start.line && end.column < start.column) {
            return Err(SpanError::EndBeforeStart { start, end });
        }
        if end.byte == start.byte && (end.line != start.line || end.column != start.column) {
            return Err(SpanError::InconsistentZeroLengthSpan { start, end });
        }
        Ok(Self { start, end })
    }

    pub fn new_unchecked(start: SourcePos, end: SourcePos) -> (r: Self)
        requires
            start@.byte <= end@.byte,
        ensures
            r@ == (SpecSpan { start: start@, end: end@ }),
    {
        Self { start, end }
    }

    pub fn start(self) -> (r: SourcePos)
        ensures
            r@ == self@.start,
    {
        self.start
    }

    pub fn end(self) -> (r: SourcePos)
        ensures
            r@ == self@.end,
    {
        self.end
    }

    /// Number of bytes the span covers.
    pub fn len_bytes(self) -> (r: usize)
        ensures
            self@.start.byte <= self@.end.byte,
            r == self@.end.byte - self@.start.byte,
    {
        proof {
            use_type_invariant(&self);
        }
        self.end.byte - self.start.byte
    }
}

} // verus!
