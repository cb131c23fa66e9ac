//! Lexer for qws, a small markup language describing desktop-bar widgets.
//!
//! The lexer turns a source text into an ordered sequence of tokens —
//! identifiers, string/number/boolean literals, symbols, and two kinds of
//! keyword-introduced brace-balanced raw blocks (`Script`, `Css`) — or
//! reports the first lexical error with its source position.  The module
//! `model` states, as one spec function over the character sequence, what
//! result every input denotes; the executable lexer is proved to return
//! exactly that, and `laws` proves that scanning is lossless.

use vstd::prelude::*;

pub mod laws;
pub mod lexer;
pub mod model;
pub mod token;

pub use lexer::Lexer;
pub use lexer::LexerErr;
pub use lexer::LexerResult;
pub use token::Token;
pub use token::Tokens;

use crate::model::spec_lex;
use crate::model::ErrModel;
use crate::model::TokenModel;
use crate::token::tokens_view;

verus! {

/// Lex a whole source text: the token sequence in source order, or the
/// first lexical error.  The result is exactly what the model
/// (`model::spec_lex`) denotes for the text.
pub fn lex(code: &String) -> (r: LexerResult<Vec<Token>>)
    requires
        code@.len() < usize::MAX,
    ensures
        ({
            let outcome = spec_lex(code@);
            match r {
                Ok(toks) => outcome == Ok::<Seq<TokenModel>, ErrModel>(tokens_view(toks@)),
                Err(e) => outcome == Err::<Seq<TokenModel>, ErrModel>(e@),
            }
        }),
{
    let mut lexer = Lexer::new(code);
    lexer.lex()
}

} // verus!
