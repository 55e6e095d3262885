//! Structured compilation errors.
//!
//! Every production and every lowering helper either succeeds or fails with
//! one of these; failures unwind to the top-level compile call without
//! partial recovery.

use crate::token::{Span, TokenKind};
use vstd::prelude::*;

verus! {

/// A structured parse or lowering failure.
#[derive(Debug, Clone)]
pub enum CompileError {
    /// The token stream ended where the grammar required one more token.
    UnexpectedEof,
    /// The grammar required one shape of token and found another.
    ParseMismatch { expected: String, found: TokenKind, span: Span },
    /// A type position held a keyword outside the closed set of type names.
    UnknownType { keyword: String },
    /// A name was in neither the local nor the global environment.
    UndefinedVariable { name: String, span: Span },
    /// A syntactically valid construct whose lowering does not exist
    /// (char literals, float literals, unknown operator spellings).
    Unimplemented { feature: String, span: Span },
    /// The `literal` keyword was followed by a non-literal token.
    MalformedLiteral { span: Span },
    /// No user-defined `main` function was present at module close.
    MissingEntryPoint,
}

} // verus!
