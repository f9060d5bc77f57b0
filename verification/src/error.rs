//! The errors that tokenizing, parsing and running a program can end in.

use miette::SourceSpan;
use vstd::prelude::*;

verus! {

#[verifier::external_type_specification]
#[verifier::external_body]
pub struct ExSourceSpan(SourceSpan);

/// What a span holds: the offset at which it starts, and its length.
pub uninterp spec fn span_extent(span: SourceSpan) -> (usize, usize);

/// Everything that can go wrong between source text and a finished run.
#[derive(Debug)]
pub enum VMError {
    ParseError { src: String, message: String, span: SourceSpan },
    TokenizationError { src: String, message: String, span: SourceSpan },
    ExecutionError { message: String, line: usize, position: usize },
    TypeError { message: String },
    IndexError { index: i32, len: usize },
    NotAnArray,
    UndefinedVariable { name: String },
    StackUnderflow,
    DivisionByZero,
    NoScopeToEnd,
    StackOverflow,
    InvalidJump { target: usize, max: usize },
}

/// The mathematical content of a [`VMError`]: texts are character
/// sequences, and a span is where it starts and how long it is.
pub enum ErrorView {
    ParseError { src: Seq<char>, message: Seq<char>, start: usize, len: usize },
    TokenizationError { src: Seq<char>, message: Seq<char>, start: usize, len: usize },
    ExecutionError { message: Seq<char>, line: usize, position: usize },
    TypeError { message: Seq<char> },
    IndexError { index: i32, len: usize },
    NotAnArray,
    UndefinedVariable { name: Seq<char> },
    StackUnderflow,
    DivisionByZero,
    NoScopeToEnd,
    StackOverflow,
    InvalidJump { target: usize, max: usize },
}

impl View for VMError {
    type V = ErrorView;

    open spec fn view(&self) -> ErrorView {
        match *self {
            VMError::ParseError { src, message, span } => ErrorView::ParseError {
                src: src@,
                message: message@,
                start: span_extent(span).0,
                len: span_extent(span).1,
            },
            VMError::TokenizationError { src, message, span } => ErrorView::TokenizationError {
                src: src@,
                message: message@,
                start: span_extent(span).0,
                len: span_extent(span).1,
            },
            VMError::ExecutionError { message, line, position } => ErrorView::ExecutionError {
                message: message@,
                line,
                position,
            },
            VMError::TypeError { message } => ErrorView::TypeError { message: message@ },
            VMError::IndexError { index, len } => ErrorView::IndexError { index, len },
            VMError::NotAnArray => ErrorView::NotAnArray,
            VMError::UndefinedVariable { name } => ErrorView::UndefinedVariable { name: name@ },
            VMError::StackUnderflow => ErrorView::StackUnderflow,
            VMError::DivisionByZero => ErrorView::DivisionByZero,
            VMError::NoScopeToEnd => ErrorView::NoScopeToEnd,
            VMError::StackOverflow => ErrorView::StackOverflow,
            VMError::InvalidJump { target, max } => ErrorView::InvalidJump { target, max },
        }
    }
}

/// Calls `miette`'s `SourceSpan::from` on the pair `(offset, len)`; the result
/// is the span that starts at `offset` and has the length `len`.
#[verifier::external_body]
fn make_span(offset: usize, len: usize) -> (span: SourceSpan)
    ensures
        span_extent(span) == (offset, len),
{
    SourceSpan::from((offset, len))
}

impl VMError {
    /// A tokenization error at `len` characters of `src` from `pos` on.
    pub fn tokenization_error(src: String, message: String, pos: usize, len: usize) -> (e: Self)
        ensures
            e@ == (ErrorView::TokenizationError {
                src: src@,
                message: message@,
                start: pos,
                len,
            }),
    {
        VMError::TokenizationError { src, message, span: make_span(pos, len) }
    }

    /// A parse error at `len` characters of `src` from `pos` on.
    pub fn parse_error(src: String, message: String, pos: usize, len: usize) -> (e: Self)
        ensures
            e@ == (ErrorView::ParseError { src: src@, message: message@, start: pos, len }),
    {
        VMError::ParseError { src, message, span: make_span(pos, len) }
    }
}

} // verus!
