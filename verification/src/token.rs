use vstd::prelude::*;

verus! {

/// Where the lexer's cursor stood in the source text, as a 1-indexed line and
/// column pair. A token records the position *after* its text was consumed,
/// not the position where it began.
#[derive(Clone, Copy, PartialEq, Eq, Structural, Debug)]
pub struct Location {
    pub line: usize,
    pub column: usize,
}

/// The classification of one lexical unit. `Unknown` marks a character the
/// lexer cannot classify; it is terminal. `Comment` is part of the closed tag
/// set but is never emitted: comments are discarded, not materialized.
#[derive(Clone, Copy, PartialEq, Eq, Structural, Debug)]
pub enum TokenKind {
    Unknown,
    Eof,
    Ident,
    Integer,
    Float,
    String,
    Symbol,
    Keyword,
    Operator,
    Comment,
}

/// One lexical unit: its kind, the exact substring of source text that
/// produced it (empty for end of input), and the cursor position after it
/// was consumed.
#[derive(PartialEq, Eq, Debug)]
pub struct Token {
    pub kind: TokenKind,
    pub lit: String,
    pub loc: Location,
}

/// The mathematical value of a token: the literal as a character sequence and
/// the recorded position as unbounded integers.
pub struct TokenModel {
    pub kind: TokenKind,
    pub lit: Seq<char>,
    pub line: int,
    pub col: int,
}

impl View for Token {
    type V = TokenModel;

    open spec fn view(&self) -> TokenModel {
        TokenModel {
            kind: self.kind,
            lit: self.lit@,
            line: self.loc.line as int,
            col: self.loc.column as int,
        }
    }
}

impl Clone for Token {
    fn clone(&self) -> (r: Token)
        ensures
            r == *self,
    {
        Token { kind: self.kind, lit: self.lit.clone(), loc: self.loc }
    }
}

} // verus!
