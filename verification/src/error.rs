//! Error types shared by the KelpyShark front end.
use vstd::prelude::*;
use crate::text::{decimal, push_decimal};

verus! {

/// A position in the source code: 1-based line and column.
#[derive(Debug, Clone, Copy, PartialEq, Eq, Structural)]
pub struct SourceLocation {
    pub line: usize,
    pub column: usize,
}

/// The text `line L, column C` of a location.
pub open spec fn location_text(loc: SourceLocation) -> Seq<char> {
    "line "@ + decimal(loc.line as nat) + ", column "@ + decimal(loc.column as nat)
}

impl SourceLocation {
    /// Renders the location as `line L, column C`.
    pub fn to_display_string(&self) -> (res: String)
        ensures
            res@ == location_text(*self),
    {
        let mut s = String::from_str("line ");
        push_decimal(&mut s, self.line);
        s.append(", column ");
        push_decimal(&mut s, self.column);
        s
    }
}

/// All error kinds the KelpyShark front end can produce.
#[derive(Debug, Clone)]
pub enum KelpyError {
    /// The lexer met an unexpected character or a malformed token.
    LexerError { message: String, location: SourceLocation },
    /// The parser met an unexpected token.
    ParseError { message: String, location: SourceLocation },
    /// Semantic analysis found a logical error.
    SemanticError { message: String, location: Option<SourceLocation> },
    /// Code generation failed.
    CodegenError { message: String },
    /// A runtime error during interpretation.
    RuntimeError { message: String },
}

/// The abstract value of an error: its kind, message and location.
pub enum ErrorView {
    Lexer { message: Seq<char>, location: SourceLocation },
    Parse { message: Seq<char>, location: SourceLocation },
    Semantic { message: Seq<char>, location: Option<SourceLocation> },
    Codegen { message: Seq<char> },
    Runtime { message: Seq<char> },
}

impl View for KelpyError {
    type V = ErrorView;

    open spec fn view(&self) -> ErrorView {
        match self {
            KelpyError::LexerError { message, location } => ErrorView::Lexer { message: message@, location: *location },
            KelpyError::ParseError { message, location } => ErrorView::Parse { message: message@, location: *location },
            KelpyError::SemanticError { message, location } => ErrorView::Semantic { message: message@, location: *location },
            KelpyError::CodegenError { message } => ErrorView::Codegen { message: message@ },
            KelpyError::RuntimeError { message } => ErrorView::Runtime { message: message@ },
        }
    }
}

/// The one-line rendering of an error.
pub open spec fn error_text(e: ErrorView) -> Seq<char> {
    match e {
        ErrorView::Lexer { message, location } => "[Lexer Error at "@ + location_text(location) + "] "@ + message,
        ErrorView::Parse { message, location } => "[Parse Error at "@ + location_text(location) + "] "@ + message,
        ErrorView::Semantic { message, location: Some(loc) } => "[Semantic Error at "@ + location_text(loc) + "] "@ + message,
        ErrorView::Semantic { message, location: None } => "[Semantic Error] "@ + message,
        ErrorView::Codegen { message } => "[Codegen Error] "@ + message,
        ErrorView::Runtime { message } => "[Runtime Error] "@ + message,
    }
}

impl KelpyError {
    /// Renders the error as one line, e.g. `[Lexer Error at line 1, column 5] ...`.
    pub fn to_display_string(&self) -> (res: String)
        ensures
            res@ == error_text(self@),
    {
        match self {
            KelpyError::LexerError { message, location } => {
                let mut s = String::from_str("[Lexer Error at ");
                let l = location.to_display_string();
                s.append(l.as_str());
                s.append("] ");
                s.append(message.as_str());
                s
            }
            KelpyError::ParseError { message, location } => {
                let mut s = String::from_str("[Parse Error at ");
                let l = location.to_display_string();
                s.append(l.as_str());
                s.append("] ");
                s.append(message.as_str());
                s
            }
            KelpyError::SemanticError { message, location } => {
                match location {
                    Some(loc) => {
                        let mut s = String::from_str("[Semantic Error at ");
                        let l = loc.to_display_string();
                        s.append(l.as_str());
                        s.append("] ");
                        s.append(message.as_str());
                        s
                    }
                    None => {
                        let mut s = String::from_str("[Semantic Error] ");
                        s.append(message.as_str());
                        s
                    }
                }
            }
            KelpyError::CodegenError { message } => {
                let mut s = String::from_str("[Codegen Error] ");
                s.append(message.as_str());
                s
            }
            KelpyError::RuntimeError { message } => {
                let mut s = String::from_str("[Runtime Error] ");
                s.append(message.as_str());
                s
            }
        }
    }
}

/// The result type of the front end's fallible operations.
pub type KelpyResult<T> = Result<T, KelpyError>;

} // verus!
