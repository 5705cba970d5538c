//! Crate-wide parse errors.
//!
//! Every fallible wire parser returns [`ParseError`]. Variants carry
//! enough context to identify what went wrong without echoing the whole
//! input.

use vstd::prelude::*;

use crate::codes::UnknownCode;

verus! {

/// Why a wire parser refused its input.
#[derive(Debug, Clone, PartialEq, Eq)]
#[non_exhaustive]
pub enum ParseError {
    EmptyInput,
    IndentJump { from: usize, to: usize, line: usize },
    MalformedLine { line: usize, message: &'static str },
    InvalidRef { raw: String },
    InvalidPosition { raw: String },
    MissingField { field: &'static str },
    UnknownCode(UnknownCode),
    InvalidEnvelope { detail: &'static str },
    InvalidToken { raw: String },
    InvalidAttribute { raw: String },
    InvalidRequest { detail: &'static str },
    UnterminatedQuote { raw: String },
    ApplyMissingRef(u32),
    ApplyDuplicateRef(u32),
    ApplyMissingParent(u32),
}

/// A [`ParseError`] with every text as characters and every count as a
/// natural number.
pub enum ParseErrorView {
    EmptyInput,
    IndentJump { from: nat, to: nat, line: nat },
    MalformedLine { line: nat, message: Seq<char> },
    InvalidRef { raw: Seq<char> },
    InvalidPosition { raw: Seq<char> },
    MissingField { field: Seq<char> },
    UnknownCode { kind: Seq<char>, value: Seq<char> },
    InvalidEnvelope { detail: Seq<char> },
    InvalidToken { raw: Seq<char> },
    InvalidAttribute { raw: Seq<char> },
    InvalidRequest { detail: Seq<char> },
    UnterminatedQuote { raw: Seq<char> },
    ApplyMissingRef(u32),
    ApplyDuplicateRef(u32),
    ApplyMissingParent(u32),
}

impl View for ParseError {
    type V = ParseErrorView;

    open spec fn view(&self) -> ParseErrorView {
        match self {
            ParseError::EmptyInput => ParseErrorView::EmptyInput,
            ParseError::IndentJump { from, to, line } => ParseErrorView::IndentJump {
                from: *from as nat,
                to: *to as nat,
                line: *line as nat,
            },
            ParseError::MalformedLine { line, message } => ParseErrorView::MalformedLine {
                line: *line as nat,
                message: message@,
            },
            ParseError::InvalidRef { raw } => ParseErrorView::InvalidRef { raw: raw@ },
            ParseError::InvalidPosition { raw } => ParseErrorView::InvalidPosition { raw: raw@ },
            ParseError::MissingField { field } => ParseErrorView::MissingField { field: field@ },
            ParseError::UnknownCode(u) => ParseErrorView::UnknownCode {
                kind: u.kind@,
                value: u.value@,
            },
            ParseError::InvalidEnvelope { detail } => ParseErrorView::InvalidEnvelope {
                detail: detail@,
            },
            ParseError::InvalidToken { raw } => ParseErrorView::InvalidToken { raw: raw@ },
            ParseError::InvalidAttribute { raw } => ParseErrorView::InvalidAttribute { raw: raw@ },
            ParseError::InvalidRequest { detail } => ParseErrorView::InvalidRequest {
                detail: detail@,
            },
            ParseError::UnterminatedQuote { raw } => ParseErrorView::UnterminatedQuote { raw: raw@ },
            ParseError::ApplyMissingRef(r) => ParseErrorView::ApplyMissingRef(*r),
            ParseError::ApplyDuplicateRef(r) => ParseErrorView::ApplyDuplicateRef(*r),
            ParseError::ApplyMissingParent(r) => ParseErrorView::ApplyMissingParent(*r),
        }
    }
}

} // verus!
