//! Tokens and the cursor over the token stream.
//!
//! Tokens are consumed, never produced: the lexer is an external collaborator
//! and hands the compiler a finished sequence.  The cursor is a positional
//! view with peek, advance and rewind-by-one.

use crate::diag::CompileError;
use vstd::prelude::*;
use vstd::string::StrSliceExecFns;
use vstd::string::StringExecFns;

verus! {

/// A byte range in the source text, attached to tokens and diagnostics.
#[derive(Debug, Clone, Copy, PartialEq, Eq, Structural)]
pub struct Span {
    pub lo: usize,
    pub hi: usize,
}

/// The payload of a literal token.
#[derive(Debug, Clone, PartialEq, Eq)]
pub enum Lit {
    Str(String),
    /// Reserved: no lowering for char literals exists.
    Char(char),
    Int(i128),
    /// Reserved: no lowering for float literals exists, so only the kind of
    /// the token is recorded.
    Float,
    Bool(bool),
}

/// The kind of a lexical token.
#[derive(Debug, Clone, PartialEq, Eq)]
pub enum TokenKind {
    Ident(String),
    Literal(Lit),
    /// One punctuation character; the flag means the character is lexically
    /// adjacent to the next token, which is how multi-character operators
    /// such as `>=` are reassembled.
    Particle(char, bool),
}

/// One lexical token: a kind and its source span.
#[derive(Debug, Clone, PartialEq, Eq)]
pub struct Token {
    pub kind: TokenKind,
    pub span: Span,
}

/// String equality over the character views.
pub fn str_eq(a: &str, b: &str) -> (r: bool)
    ensures
        r == (a@ == b@),
{
    let la = a.unicode_len();
    let lb = b.unicode_len();
    if la != lb {
        return false;
    }
    let mut i: usize = 0;
    while i < la
        invariant
            la == a@.len(),
            la == b@.len(),
            i <= la,
            forall|j: int| 0 <= j < i ==> a@[j] == b@[j],
        decreases la - i,
    {
        if a.get_char(i) != b.get_char(i) {
            return false;
        }
        i = i + 1;
    }
    proof {
        assert(a@ =~= b@);
    }
    true
}

/// A positional view over the token stream.
///
/// `index` points at the token `this` returns; it may equal the stream
/// length, in which case `this` fails with `UnexpectedEof`.
pub struct Cursor {
    pub tokens: Vec<Token>,
    pub index: usize,
}

impl Cursor {
    /// The cursor points into (or just past) its stream.
    pub open spec fn wf(self) -> bool {
        self.index <= self.tokens@.len()
    }

    /// How many tokens are left to consume; the termination measure of the
    /// recursive descent.
    pub open spec fn remaining(self) -> int {
        self.tokens@.len() - self.index
    }

    pub fn new(tokens: Vec<Token>) -> (r: Cursor)
        ensures
            r.wf(),
            r.tokens == tokens,
            r.index == 0,
    {
        Cursor { tokens, index: 0 }
    }

    /// Peek at the current token without consuming it; fails past the end.
    pub fn this(&self) -> (r: Result<&Token, CompileError>)
        ensures
            r is Ok <==> self.index < self.tokens@.len(),
            r is Ok ==> *r->Ok_0 == self.tokens@[self.index as int],
            r is Err ==> r->Err_0 is UnexpectedEof,
    {
        if self.index < self.tokens.len() {
            Ok(&self.tokens[self.index])
        } else {
            Err(CompileError::UnexpectedEof)
        }
    }

    /// Advance past the current token.
    pub fn next(&mut self)
        requires
            old(self).index < old(self).tokens@.len(),
        ensures
            final(self).tokens == old(self).tokens,
            final(self).index == old(self).index + 1,
    {
        proof {
            assert(self.tokens.len() == self.tokens@.len());
        }
        self.index = self.index + 1;
    }

    /// Step back by one token; legal only after an advance.
    pub fn rewind(&mut self)
        requires
            old(self).index >= 1,
        ensures
            final(self).tokens == old(self).tokens,
            final(self).index == old(self).index - 1,
    {
        self.index = self.index - 1;
    }

    /// Consume one identifier token whose text must be `expected`; any other
    /// token is a `ParseMismatch`.
    pub fn expect_ident(&mut self, expected: &str) -> (r: Result<(), CompileError>)
        requires
            old(self).wf(),
        ensures
            final(self).wf(),
            final(self).tokens == old(self).tokens,
            r is Ok <==> ident_at(old(self).tokens@, old(self).index as int) == Some(expected@),
            r is Ok ==> final(self).index == old(self).index + 1,
            r is Err ==> final(self).index == old(self).index,
            r is Err ==> (r->Err_0 is UnexpectedEof
                <==> old(self).index >= old(self).tokens@.len()),
            r is Err ==> (r->Err_0 is ParseMismatch || r->Err_0 is UnexpectedEof),
    {
        let tok = match self.this() {
            Ok(t) => t,
            Err(e) => {
                return Err(e);
            },
        };
        match &tok.kind {
            TokenKind::Ident(ident) => {
                if str_eq(ident.as_str(), expected) {
                    self.next();
                    Ok(())
                } else {
                    Err(CompileError::ParseMismatch {
                        expected: String::from_str(expected),
                        found: tok.kind.clone(),
                        span: tok.span,
                    })
                }
            },
            _ => Err(CompileError::ParseMismatch {
                expected: String::from_str(expected),
                found: tok.kind.clone(),
                span: tok.span,
            }),
        }
    }

    /// Consume one identifier token and return its text; `expected` only
    /// labels the diagnostic on failure.
    pub fn ident_next(&mut self, expected: &str) -> (r: Result<String, CompileError>)
        requires
            old(self).wf(),
        ensures
            final(self).wf(),
            final(self).tokens == old(self).tokens,
            r is Ok <==> ident_at(old(self).tokens@, old(self).index as int) is Some,
            r is Ok ==> Some(r->Ok_0@) == ident_at(old(self).tokens@, old(self).index as int)
                && final(self).index == old(self).index + 1,
            r is Err ==> final(self).index == old(self).index,
            r is Err ==> (r->Err_0 is UnexpectedEof
                <==> old(self).index >= old(self).tokens@.len()),
            r is Err ==> (r->Err_0 is ParseMismatch || r->Err_0 is UnexpectedEof),
    {
        let tok = match self.this() {
            Ok(t) => t,
            Err(e) => {
                return Err(e);
            },
        };
        match &tok.kind {
            TokenKind::Ident(ident) => {
                let text = ident.clone();
                self.next();
                Ok(text)
            },
            _ => Err(CompileError::ParseMismatch {
                expected: String::from_str(expected),
                found: tok.kind.clone(),
                span: tok.span,
            }),
        }
    }
}

/// The module-level string constants that compiling the token range
/// `[i, j)` creates: one unnamed null-terminated constant per string-literal
/// token, in stream order.  (A string token can only stand as a `literal`
/// payload inside that range; every other token creates no constant.)
pub open spec fn strs_in(toks: Seq<Token>, i: int, j: int) -> Seq<crate::ir::GlobalV>
    decreases j - i,
{
    if i < j && 0 <= i < toks.len() {
        let rest = strs_in(toks, i + 1, j);
        match toks[i].kind {
            TokenKind::Literal(l) => match l {
                Lit::Str(s) => seq![crate::ir::GlobalV { name: ""@, text: s@ }] + rest,
                _ => rest,
            },
            _ => rest,
        }
    } else {
        Seq::empty()
    }
}

/// Compiling adjacent ranges creates the concatenation of their constants.
pub proof fn lemma_strs_in_concat(toks: Seq<Token>, i: int, j: int, k: int)
    requires
        0 <= i <= j <= k,
    ensures
        strs_in(toks, i, k) =~= strs_in(toks, i, j) + strs_in(toks, j, k),
    decreases j - i,
{
    if i < j && i < toks.len() {
        lemma_strs_in_concat(toks, i + 1, j, k);
    }
}

/// The constants a single token creates: one for a string literal, none
/// otherwise.
pub proof fn lemma_strs_in_one(toks: Seq<Token>, i: int)
    requires
        0 <= i < toks.len(),
    ensures
        strs_in(toks, i, i + 1) =~= match toks[i].kind {
            TokenKind::Literal(l) => match l {
                Lit::Str(s) => seq![crate::ir::GlobalV { name: ""@, text: s@ }],
                _ => Seq::empty(),
            },
            _ => Seq::empty(),
        },
{
    assert(strs_in(toks, i + 1, i + 1) =~= Seq::<crate::ir::GlobalV>::empty());
}

/// The text of the identifier token at position `i`, if there is one.
pub open spec fn ident_at(toks: Seq<Token>, i: int) -> Option<Seq<char>> {
    if 0 <= i < toks.len() {
        match toks[i].kind {
            TokenKind::Ident(s) => Some(s@),
            _ => None,
        }
    } else {
        None
    }
}

} // verus!
