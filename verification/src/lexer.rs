use vstd::prelude::*;

verus! {

/// A section of the source code: the position of its first character and its length.
#[derive(Clone, Copy, Debug, PartialEq, Eq, Structural)]
pub struct Span {
    /// The position of the first character of this span in the source code.
    pub start: usize,
    /// The number of characters this span covers.
    pub length: usize,
}

/// Where a span ends: its start plus its length, or the largest `usize` if that is beyond it.
pub open spec fn span_end(span: Span) -> int {
    if span.start + span.length > usize::MAX {
        usize::MAX as int
    } else {
        span.start + span.length
    }
}

/// The span from the start of `first` to the end of `last`; empty when `last` ends before
/// `first` starts.
pub open spec fn spanning(first: Span, last: Span) -> Span {
    Span {
        start: first.start,
        length: if span_end(last) >= first.start {
            (span_end(last) - first.start) as usize
        } else {
            0
        },
    }
}

impl Span {
    /// A span for code that the compiler inserted itself, which has no position in the source.
    pub fn unknown() -> (span: Span)
        ensures
            span.start == 0,
            span.length == 0,
    {
        Span { start: 0, length: 0 }
    }

    /// The span from the start of this span to the end of `other`, as `spanning` says.
    pub fn to(&self, other: &Span) -> (res: Span)
        ensures
            res == spanning(*self, *other),
    {
        let end = other.start.saturating_add(other.length);
        Span { start: self.start, length: end.saturating_sub(self.start) }
    }

    /// Returns whether the given position in the source code lies within this span.
    pub fn contains(&self, position: usize) -> (res: bool)
        ensures
            res == (self.start <= position && position < self.start + self.length),
    {
        self.start <= position && position - self.start < self.length
    }
}

/// The kinds of token that the parser distinguishes.
#[derive(Clone, Copy, Debug, PartialEq, Eq, Structural)]
pub enum TokenType {
    Asterisk,
    Caret,
    Colon,
    Comma,
    Dot,
    DoubleEquals,
    Equal,
    ForwardSlash,
    GreaterThan,
    Identifier,
    KeywordAction,
    KeywordAs,
    KeywordDefault,
    KeywordEither,
    KeywordForEach,
    KeywordGroup,
    KeywordIf,
    KeywordIn,
    KeywordNew,
    KeywordOneOf,
    KeywordOtherwise,
    KeywordRepresent,
    KeywordRuntime,
    LeftAngleBracket,
    LeftBrace,
    LeftBracket,
    LeftParenthesis,
    LessThan,
    Minus,
    Number,
    Plus,
    RightAngleBracket,
    RightBrace,
    RightBracket,
    RightParenthesis,
    String,
    TagOpening,
}

/// A token of Cabin source code: its kind, its text and where it stands.
#[derive(Debug)]
pub struct Token {
    pub token_type: TokenType,
    pub value: String,
    pub span: Span,
}

} // verus!
