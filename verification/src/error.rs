//! Syntax errors reported by the parser.
use vstd::prelude::*;

verus! {

/// The kinds of syntax error.
#[derive(Clone, Copy, Debug, PartialEq, Eq, Structural)]
pub enum SyntaxErrorKind {
    ExpectedIdentifier,
    ExpectedSimpleIdentifier,
    BlockNotOpen,
    TagNameMismatch,
    RawBlockOpenNotTerminated,
    TokenEndRawBlock,
    RawBlockNotTerminated,
    RawCommentNotTerminated,
    RawStatementNotTerminated,
    CommentNotTerminated,
    TokenJsonLiteral,
    ExpectedPath,
    TokenParameter,
    SubExprNotOpen,
    TokenHashKeyValue,
    PartialPosition,
    TokenError,
    ElseNotAllowed,
    SubExprTargetNotAllowed,
    TokenCallTarget,
    SubExpressionNotTerminated,
    MixedPartialConditional,
    ComponentType,
    UnexpectedPathExplicitThis,
    UnexpectedPathParent,
    UnexpectedPathLocal,
    ExpectedPathDelimiter,
    UnexpectedPathDelimiter,
    UnexpectedPathParentWithLocal,
    UnexpectedPathParentWithExplicit,
    EmptyPath,
    TokenParameterPath,
    LiteralNewline,
    TokenDoubleQuoteLiteral,
    TokenSingleQuoteLiteral,
    TokenArrayLiteral,
    TokenRawLiteral,
    TokenLink,
    LinkNotTerminated,
}

/// Where a syntax error was found: the file name, the line (from zero),
/// the byte offset and any notes for the reader.
#[derive(Debug)]
pub struct ErrorInfo {
    pub file_name: String,
    pub line: usize,
    pub byte: usize,
    pub notes: Vec<String>,
}

/// A syntax error: its kind and where it was found.
#[derive(Debug)]
pub struct SyntaxError {
    pub kind: SyntaxErrorKind,
    pub info: ErrorInfo,
}

/// Result of parsing.
pub type SyntaxResult<T> = Result<T, SyntaxError>;

/// Abstract view of a syntax error: kind, line, byte and notes.
pub struct ErrorV {
    pub kind: SyntaxErrorKind,
    pub line: usize,
    pub byte: usize,
    pub notes: Seq<Seq<char>>,
}

impl SyntaxError {
    /// The abstract view of this error (the file name is stated apart).
    pub open spec fn view(&self) -> ErrorV {
        ErrorV {
            kind: self.kind,
            line: self.info.line,
            byte: self.info.byte,
            notes: self.info.notes@.map_values(|n: String| n@),
        }
    }
}

/// An error of the given kind at the given position, without notes.
pub open spec fn err_at(kind: SyntaxErrorKind, line: usize, byte: usize) -> ErrorV {
    ErrorV { kind, line, byte, notes: Seq::empty() }
}

} // verus!
