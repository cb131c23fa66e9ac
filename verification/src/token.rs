//! Tokens produced by the qws lexer.
//!
//! A token is a classified lexeme: a kind, an optional textual payload
//! (identifiers, strings, numbers, booleans and raw blocks carry one;
//! pure symbols do not), and the line/column position of the cursor
//! just after the token was consumed.

use vstd::prelude::*;

use crate::model::TokenModel;

verus! {

/// The closed set of lexeme categories.
#[derive(Clone, Copy, Debug, PartialEq, Eq, Structural)]
pub enum Tokens {
    Identifier,
    String,
    Int,
    Float,
    Boolean,
    Script,
    Css,
    Equal,
    Comma,
    OpenCurly,
    CloseCurly,
    OpenBracket,
    CloseBracket,
}

/// One lexeme of the source text.
///
/// `line` and `col` record the cursor position at the point scanning of
/// this token completed (position-at-end semantics).
#[derive(Clone, Debug)]
pub struct Token {
    pub kind: Tokens,
    pub value: Option<String>,
    pub line: usize,
    pub col: usize,
}

impl View for Token {
    type V = TokenModel;

    open spec fn view(&self) -> TokenModel {
        TokenModel {
            kind: self.kind,
            value: match self.value {
                Some(v) => Some(v@),
                None => None,
            },
            line: self.line as int,
            col: self.col as int,
        }
    }
}

/// The token sequence a `Vec<Token>` stands for, in the model's terms.
pub open spec fn tokens_view(ts: Seq<Token>) -> Seq<TokenModel> {
    ts.map_values(|t: Token| t@)
}

pub proof fn lemma_tokens_view_push(ts: Seq<Token>, t: Token)
    ensures
        tokens_view(ts.push(t)) == tokens_view(ts).push(t@),
{
    assert(tokens_view(ts.push(t)) =~= tokens_view(ts).push(t@));
}

impl Token {
    pub fn new(kind: Tokens, value: Option<String>, line: usize, col: usize) -> (r: Token)
        ensures
            r.kind == kind,
            r.value == value,
            r.line == line,
            r.col == col,
    {
        Token { kind, value, line, col }
    }
}

} // verus!
