//! Mathematical model of qws lexical analysis.
//!
//! `spec_lex` defines, over a `Seq<char>`, exactly which token sequence or
//! lexical error a source text denotes.  The executable `Lexer` is proved
//! to return precisely this function's result.
//!
//! Position model: lines and columns both start at 1; consuming any
//! character advances the column by one, except a newline, which advances
//! the line and resets the column to 1.  Every sub-scanner tracks position
//! this way for every character it consumes.  A token records the position
//! at which its scan completed (position-at-end semantics).

use vstd::prelude::*;

use crate::token::Tokens;

verus! {

// ---------------------------------------------------------------------------
// Model data
// ---------------------------------------------------------------------------

/// A token, abstractly: its kind, payload text and recorded position.
pub ghost struct TokenModel {
    pub kind: Tokens,
    pub value: Option<Seq<char>>,
    pub line: int,
    pub col: int,
}

/// A lexical error, abstractly: message, offending character (absent only
/// for end-of-input failures) and the position at which it was raised.
pub ghost struct ErrModel {
    pub message: Seq<char>,
    pub ch: Option<char>,
    pub line: int,
    pub col: int,
}

// ---------------------------------------------------------------------------
// Character classes
// ---------------------------------------------------------------------------

/// Decimal digit: the only characters the number scanner accepts besides `.`.
pub open spec fn is_digit_char(c: char) -> bool {
    48 <= c as int && c as int <= 57
}

/// Characters an identifier consists of: ASCII letters, digits, underscore.
pub open spec fn is_ident_char(c: char) -> bool {
    ||| is_digit_char(c)
    ||| 65 <= c as int && c as int <= 90
    ||| 97 <= c as int && c as int <= 122
    ||| c == '_'
}

/// Insignificant whitespace other than newline: the Unicode White_Space
/// characters, newline aside, which the dispatcher handles first.
pub open spec fn is_space_char(c: char) -> bool {
    ||| c == ' '
    ||| c == '\t'
    ||| c == '\r'
    ||| c == '\u{b}'
    ||| c == '\u{c}'
    ||| c == '\u{85}'
    ||| c == '\u{a0}'
    ||| c == '\u{1680}'
    ||| 0x2000 <= c as int && c as int <= 0x200a
    ||| c == '\u{2028}'
    ||| c == '\u{2029}'
    ||| c == '\u{202f}'
    ||| c == '\u{205f}'
    ||| c == '\u{3000}'
}

// ---------------------------------------------------------------------------
// Line and column of a scan position
// ---------------------------------------------------------------------------

/// Line of the cursor standing just before index `i`: 1 plus the number of
/// newlines among the consumed prefix.
pub open spec fn line_at(s: Seq<char>, i: int) -> int
    decreases i,
{
    if i <= 0 {
        1
    } else {
        line_at(s, i - 1) + if s[i - 1] == '\n' { 1int } else { 0int }
    }
}

/// Column of the cursor standing just before index `i`: characters since
/// the last newline, counting from 1.
pub open spec fn col_at(s: Seq<char>, i: int) -> int
    decreases i,
{
    if i <= 0 {
        1
    } else if s[i - 1] == '\n' {
        1
    } else {
        col_at(s, i - 1) + 1
    }
}

pub proof fn lemma_pos_bounds(s: Seq<char>, i: int)
    requires
        0 <= i,
    ensures
        1 <= line_at(s, i) <= i + 1,
        1 <= col_at(s, i) <= i + 1,
    decreases i,
{
    if i > 0 {
        lemma_pos_bounds(s, i - 1);
    }
}

// ---------------------------------------------------------------------------
// Lookahead
// ---------------------------------------------------------------------------

/// Non-consuming lookahead: the characters directly after position `i`
/// match `expected` in order.  A lookahead that would run past the end of
/// the input is a non-match.
pub open spec fn peek_matches(s: Seq<char>, i: int, expected: Seq<char>) -> bool {
    &&& i + 1 + expected.len() <= s.len()
    &&& forall|k: int| 0 <= k < expected.len() ==> s[i + 1 + k] == expected[k]
}

// ---------------------------------------------------------------------------
// Sub-scanner extents
// ---------------------------------------------------------------------------

/// First position at or after `i` holding a newline, or the end of input:
/// where a comment stops (the newline itself is not part of the comment).
pub open spec fn comment_end(s: Seq<char>, i: int) -> int
    decreases s.len() - i,
{
    if i < 0 || i >= s.len() {
        s.len() as int
    } else if s[i] == '\n' {
        i
    } else {
        comment_end(s, i + 1)
    }
}

pub proof fn lemma_comment_end(s: Seq<char>, i: int)
    requires
        0 <= i <= s.len(),
    ensures
        i <= comment_end(s, i) <= s.len(),
    decreases s.len() - i,
{
    if i < s.len() && s[i] != '\n' {
        lemma_comment_end(s, i + 1);
    }
}

/// First position at or after `i` holding a double quote, or the end of
/// input: where a string literal's payload stops.
pub open spec fn string_close(s: Seq<char>, i: int) -> int
    decreases s.len() - i,
{
    if i < 0 || i >= s.len() {
        s.len() as int
    } else if s[i] == '"' {
        i
    } else {
        string_close(s, i + 1)
    }
}

pub proof fn lemma_string_close(s: Seq<char>, i: int)
    requires
        0 <= i <= s.len(),
    ensures
        i <= string_close(s, i) <= s.len(),
    decreases s.len() - i,
{
    if i < s.len() && s[i] != '"' {
        lemma_string_close(s, i + 1);
    }
}

/// Position just after a string token that starts at `i` (at the opening
/// quote): past the closing quote, or the end of input if there is none.
pub open spec fn string_end(s: Seq<char>, i: int) -> int {
    let close = string_close(s, i + 1);
    if close < s.len() {
        close + 1
    } else {
        close
    }
}

/// Position just after a number token that starts at `i`: digits, with at
/// most one `.` consumed along the way.
pub open spec fn number_end(s: Seq<char>, i: int, seen_dot: bool) -> int
    decreases s.len() - i,
{
    if i < 0 || i >= s.len() {
        s.len() as int
    } else if is_digit_char(s[i]) {
        number_end(s, i + 1, seen_dot)
    } else if s[i] == '.' && !seen_dot {
        number_end(s, i + 1, true)
    } else {
        i
    }
}

pub proof fn lemma_number_end(s: Seq<char>, i: int, seen_dot: bool)
    requires
        0 <= i <= s.len(),
    ensures
        i <= number_end(s, i, seen_dot) <= s.len(),
    decreases s.len() - i,
{
    if i < s.len() {
        if is_digit_char(s[i]) {
            lemma_number_end(s, i + 1, seen_dot);
        } else if s[i] == '.' && !seen_dot {
            lemma_number_end(s, i + 1, true);
        }
    }
}

/// Position just after an identifier that starts at `i`.
pub open spec fn ident_end(s: Seq<char>, i: int) -> int
    decreases s.len() - i,
{
    if i < 0 || i >= s.len() {
        s.len() as int
    } else if is_ident_char(s[i]) {
        ident_end(s, i + 1)
    } else {
        i
    }
}

pub proof fn lemma_ident_end(s: Seq<char>, i: int)
    requires
        0 <= i <= s.len(),
    ensures
        i <= ident_end(s, i) <= s.len(),
    decreases s.len() - i,
{
    if i < s.len() && is_ident_char(s[i]) {
        lemma_ident_end(s, i + 1);
    }
}

/// First position at or after `i` holding an opening brace, or the end of
/// input: where a raw block's captured text begins.
pub open spec fn raw_open(s: Seq<char>, i: int) -> int
    decreases s.len() - i,
{
    if i < 0 || i >= s.len() {
        s.len() as int
    } else if s[i] == '{' {
        i
    } else {
        raw_open(s, i + 1)
    }
}

pub proof fn lemma_raw_open(s: Seq<char>, i: int)
    requires
        0 <= i <= s.len(),
    ensures
        i <= raw_open(s, i) <= s.len(),
    decreases s.len() - i,
{
    if i < s.len() && s[i] != '{' {
        lemma_raw_open(s, i + 1);
    }
}

/// Position just after the brace that brings the nesting depth back to
/// zero, scanning from `i` with `depth` braces currently open; the end of
/// input if the block never closes.
pub open spec fn raw_close(s: Seq<char>, i: int, depth: int) -> int
    decreases s.len() - i,
{
    if i < 0 || i >= s.len() {
        s.len() as int
    } else if s[i] == '{' {
        raw_close(s, i + 1, depth + 1)
    } else if s[i] == '}' && depth <= 1 {
        i + 1
    } else if s[i] == '}' {
        raw_close(s, i + 1, depth - 1)
    } else {
        raw_close(s, i + 1, depth)
    }
}

pub proof fn lemma_raw_close(s: Seq<char>, i: int, depth: int)
    requires
        0 <= i <= s.len(),
    ensures
        i <= raw_close(s, i, depth) <= s.len(),
    decreases s.len() - i,
{
    if i < s.len() {
        if s[i] == '{' {
            lemma_raw_close(s, i + 1, depth + 1);
        } else if s[i] == '}' && depth <= 1 {
        } else if s[i] == '}' {
            lemma_raw_close(s, i + 1, depth - 1);
        } else {
            lemma_raw_close(s, i + 1, depth);
        }
    }
}

/// A raw block whose keyword starts at `i` consumes at least one
/// character: the dispatcher only triggers it on a keyword character,
/// never on `{` itself.
pub proof fn lemma_raw_progress(s: Seq<char>, i: int)
    requires
        0 <= i < s.len(),
        s[i] != '{',
    ensures
        i < raw_end(s, i) <= s.len(),
{
    lemma_raw_open(s, i + 1);
    let open = raw_open(s, i);
    if open < s.len() {
        lemma_raw_close(s, open + 1, 1);
    }
}

/// Position just after a raw block whose keyword starts at `i`: characters
/// up to the first `{` are discarded, then braces are matched.
pub open spec fn raw_end(s: Seq<char>, i: int) -> int {
    let open = raw_open(s, i);
    if open < s.len() {
        raw_close(s, open + 1, 1)
    } else {
        s.len() as int
    }
}

// ---------------------------------------------------------------------------
// Token builders
// ---------------------------------------------------------------------------

/// String token scanned from the opening quote at `i`: the payload is the
/// text between the quotes; an unterminated string truncates at the end of
/// input (leniency chosen deliberately, and tested).
pub open spec fn string_token(s: Seq<char>, i: int) -> TokenModel {
    let close = string_close(s, i + 1);
    let end = string_end(s, i);
    TokenModel {
        kind: Tokens::String,
        value: Some(s.subrange(i + 1, close)),
        line: line_at(s, end),
        col: col_at(s, end),
    }
}

/// Number token scanned from the digit at `i`: Float exactly when a `.`
/// was consumed, Int otherwise.
pub open spec fn number_token(s: Seq<char>, i: int) -> TokenModel {
    let end = number_end(s, i, false);
    let text = s.subrange(i, end);
    TokenModel {
        kind: if text.contains('.') {
            Tokens::Float
        } else {
            Tokens::Int
        },
        value: Some(text),
        line: line_at(s, end),
        col: col_at(s, end),
    }
}

pub open spec fn true_chars() -> Seq<char> {
    seq!['t', 'r', 'u', 'e']
}

pub open spec fn false_chars() -> Seq<char> {
    seq!['f', 'a', 'l', 's', 'e']
}

/// Identifier token scanned from the identifier character at `i`; the
/// exact texts `true` and `false` are reclassified as Boolean.
pub open spec fn ident_token(s: Seq<char>, i: int) -> TokenModel {
    let end = ident_end(s, i);
    let text = s.subrange(i, end);
    TokenModel {
        kind: if text == true_chars() || text == false_chars() {
            Tokens::Boolean
        } else {
            Tokens::Identifier
        },
        value: Some(text),
        line: line_at(s, end),
        col: col_at(s, end),
    }
}

/// Raw-block token (Script or Css) whose keyword starts at `i`: the
/// payload is the brace-balanced span including both delimiting braces;
/// an unterminated block truncates at the end of input.
pub open spec fn raw_token(s: Seq<char>, i: int, kind: Tokens) -> TokenModel {
    let open = raw_open(s, i);
    let end = raw_end(s, i);
    TokenModel {
        kind: kind,
        value: Some(s.subrange(open, end)),
        line: line_at(s, end),
        col: col_at(s, end),
    }
}

/// The token kind a symbol character maps to, if any.
pub open spec fn symbol_kind(c: char) -> Option<Tokens> {
    if c == '=' {
        Some(Tokens::Equal)
    } else if c == ',' {
        Some(Tokens::Comma)
    } else if c == '{' {
        Some(Tokens::OpenCurly)
    } else if c == '}' {
        Some(Tokens::CloseCurly)
    } else if c == '[' {
        Some(Tokens::OpenBracket)
    } else if c == ']' {
        Some(Tokens::CloseBracket)
    } else {
        None
    }
}

/// Symbol token for the recognized symbol character at `i`; carries no
/// payload.
pub open spec fn symbol_token(s: Seq<char>, i: int) -> TokenModel {
    TokenModel {
        kind: symbol_kind(s[i]).unwrap(),
        value: None,
        line: line_at(s, i + 1),
        col: col_at(s, i + 1),
    }
}

/// The error raised on an unrecognized symbol character at `i`, positioned
/// before the offending character.
pub open spec fn unrecognized_err(s: Seq<char>, i: int) -> ErrModel {
    ErrModel {
        message: "Unrecognized symbol"@,
        ch: Some(s[i]),
        line: line_at(s, i),
        col: col_at(s, i),
    }
}

/// The error the symbol sub-scanner raises when invoked at the end of
/// input; unreachable through `lex`, whose loop stops there first.
pub open spec fn eoi_err(s: Seq<char>, i: int) -> ErrModel {
    ErrModel {
        message: "Unexpected end of input"@,
        ch: None,
        line: line_at(s, i),
        col: col_at(s, i),
    }
}

// ---------------------------------------------------------------------------
// The lexer itself
// ---------------------------------------------------------------------------

/// Prepend one token to the result of lexing the rest of the input; an
/// error from the rest aborts the whole scan.
pub open spec fn with_token(
    t: TokenModel,
    rest: Result<Seq<TokenModel>, ErrModel>,
) -> Result<Seq<TokenModel>, ErrModel> {
    match rest {
        Ok(ts) => Ok(seq![t] + ts),
        Err(e) => Err(e),
    }
}

/// Prepend an already-scanned token prefix to the outcome of lexing the
/// rest of the input; an error from the rest aborts the whole scan.
pub open spec fn with_tokens(
    pre: Seq<TokenModel>,
    rest: Result<Seq<TokenModel>, ErrModel>,
) -> Result<Seq<TokenModel>, ErrModel> {
    match rest {
        Ok(ts) => Ok(pre + ts),
        Err(e) => Err(e),
    }
}

/// Lexing from position `i` on: classify the current character, in the
/// dispatcher's priority order, scan one lexeme or skip one insignificant
/// span, and continue after it.
pub open spec fn spec_lex_from(s: Seq<char>, i: int) -> Result<Seq<TokenModel>, ErrModel>
    decreases s.len() - i,
        via spec_lex_from_decreases
{
    if i < 0 || i >= s.len() {
        Ok(Seq::empty())
    } else {
        let c = s[i];
        if c == '-' && peek_matches(s, i, seq!['-']) {
            spec_lex_from(s, comment_end(s, i))
        } else if c == '\n' || is_space_char(c) {
            spec_lex_from(s, i + 1)
        } else if c == '"' {
            with_token(string_token(s, i), spec_lex_from(s, string_end(s, i)))
        } else if c == 'S' && peek_matches(s, i, seq!['c', 'r', 'i', 'p', 't']) {
            with_token(raw_token(s, i, Tokens::Script), spec_lex_from(s, raw_end(s, i)))
        } else if c == 'C' && peek_matches(s, i, seq!['s', 's']) {
            with_token(raw_token(s, i, Tokens::Css), spec_lex_from(s, raw_end(s, i)))
        } else if is_digit_char(c) {
            with_token(number_token(s, i), spec_lex_from(s, number_end(s, i, false)))
        } else if is_ident_char(c) {
            with_token(ident_token(s, i), spec_lex_from(s, ident_end(s, i)))
        } else if symbol_kind(c) is Some {
            with_token(symbol_token(s, i), spec_lex_from(s, i + 1))
        } else {
            Err(unrecognized_err(s, i))
        }
    }
}

#[via_fn]
proof fn spec_lex_from_decreases(s: Seq<char>, i: int) {
    if 0 <= i && i < s.len() {
        if s[i] != '\n' {
            lemma_comment_end(s, i + 1);
        }
        lemma_string_close(s, i + 1);
        if s[i] != '{' {
            lemma_raw_open(s, i + 1);
            let open = raw_open(s, i);
            if open < s.len() {
                lemma_raw_close(s, open + 1, 1);
            }
        }
        if is_digit_char(s[i]) {
            lemma_number_end(s, i + 1, false);
        }
        if is_ident_char(s[i]) {
            lemma_ident_end(s, i + 1);
        }
    }
}

/// What lexing a whole source text yields: its token sequence in source
/// order, or the first lexical error.
pub open spec fn spec_lex(s: Seq<char>) -> Result<Seq<TokenModel>, ErrModel> {
    spec_lex_from(s, 0)
}

pub proof fn lemma_with_tokens_nil(rest: Result<Seq<TokenModel>, ErrModel>)
    ensures
        with_tokens(Seq::empty(), rest) == rest,
{
    match rest {
        Ok(ts) => {
            assert(Seq::<TokenModel>::empty() + ts =~= ts);
        },
        Err(_) => {},
    }
}

pub proof fn lemma_with_tokens_push(
    pre: Seq<TokenModel>,
    t: TokenModel,
    rest: Result<Seq<TokenModel>, ErrModel>,
)
    ensures
        with_tokens(pre, with_token(t, rest)) == with_tokens(pre.push(t), rest),
{
    match rest {
        Ok(ts) => {
            assert(pre + (seq![t] + ts) =~= pre.push(t) + ts);
        },
        Err(_) => {},
    }
}

} // verus!
