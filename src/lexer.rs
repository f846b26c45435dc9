use vstd::prelude::*;

verus! {

/// The kind of a token, as the lexer tags it.
#[derive(Clone, Copy, Debug, PartialEq, Eq, Structural)]
pub enum TokenType {
    Int,
    Float,
    Str,
    Char,
    Bool,
    Identifier,
    Keyword,
    Symbol,
    Operator,
    Whitespace,
    EOL,
    EOF,
}

/// Where a token starts in the source: line and column.
#[derive(Clone, Copy, Debug, PartialEq, Eq, Structural)]
pub struct TokenPosition {
    pub line: usize,
    pub col: usize,
}

impl TokenPosition {
    pub fn new(line: usize, col: usize) -> (r: Self)
        ensures
            r.line == line,
            r.col == col,
    {
        TokenPosition { line, col }
    }
}

/// One lexed token: its kind, its text and where it starts.
#[derive(Clone, Debug)]
pub struct Token {
    pub token_type: TokenType,
    pub content: String,
    pub position: TokenPosition,
}

impl Token {
    pub fn new(token_type: TokenType, content: String, position: TokenPosition) -> (r: Self)
        ensures
            r.token_type == token_type,
            r.content == content,
            r.position == position,
    {
        Token { token_type, content, position }
    }
}

} // verus!
