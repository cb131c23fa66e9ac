//! Lossless scanning, proved.
//!
//! On any source the lexer accepts, every character is consumed exactly
//! once, in left-to-right order: the source decomposes into consecutive
//! spans — one per token, newline, whitespace character and comment —
//! whose concatenation is the original text, and whose token-bearing
//! spans carry exactly the tokens the lexer returns, in their order.
//! (A token's span is the source text it matched, which for strings and
//! raw blocks is wider than its payload: quotes and the text before a
//! raw block's first brace belong to the span, not the payload.)

use vstd::prelude::*;

use crate::model::comment_end;
use crate::model::ident_end;
use crate::model::ident_token;
use crate::model::is_digit_char;
use crate::model::is_ident_char;
use crate::model::is_space_char;
use crate::model::lemma_comment_end;
use crate::model::lemma_ident_end;
use crate::model::lemma_number_end;
use crate::model::lemma_raw_progress;
use crate::model::lemma_string_close;
use crate::model::number_end;
use crate::model::number_token;
use crate::model::peek_matches;
use crate::model::raw_end;
use crate::model::raw_token;
use crate::model::spec_lex;
use crate::model::spec_lex_from;
use crate::model::string_end;
use crate::model::string_token;
use crate::model::true_chars;
use crate::model::false_chars;
use crate::model::symbol_kind;
use crate::model::symbol_token;
use crate::model::TokenModel;
use crate::token::Tokens;

verus! {

/// One consumed span of the source: its text, and the token it produced
/// if it was a lexeme rather than a newline, whitespace or a comment.
pub ghost struct Piece {
    pub text: Seq<char>,
    pub token: Option<TokenModel>,
}

/// The texts of the pieces, concatenated in order.
pub open spec fn pieces_text(ps: Seq<Piece>) -> Seq<char>
    decreases ps.len(),
{
    if ps.len() == 0 {
        Seq::empty()
    } else {
        ps[0].text + pieces_text(ps.drop_first())
    }
}

/// The tokens the pieces carry, in order.
pub open spec fn pieces_tokens(ps: Seq<Piece>) -> Seq<TokenModel>
    decreases ps.len(),
{
    if ps.len() == 0 {
        Seq::empty()
    } else {
        match ps[0].token {
            Some(t) => seq![t] + pieces_tokens(ps.drop_first()),
            None => pieces_tokens(ps.drop_first()),
        }
    }
}

/// The decomposition of the source, from position `i` on, into the spans
/// the scan consumes, classified exactly as the dispatcher classifies
/// them.  Scanning stops at a lexical error, so the decomposition does
/// too.
pub open spec fn spec_pieces(s: Seq<char>, i: int) -> Seq<Piece>
    decreases s.len() - i,
        via spec_pieces_decreases
{
    if i < 0 || i >= s.len() {
        seq![]
    } else {
        let c = s[i];
        if c == '-' && peek_matches(s, i, seq!['-']) {
            seq![(Piece { text: s.subrange(i, comment_end(s, i)), token: None })] + spec_pieces(
                s,
                comment_end(s, i),
            )
        } else if c == '\n' || is_space_char(c) {
            seq![(Piece { text: s.subrange(i, i + 1), token: None })] + spec_pieces(s, i + 1)
        } else if c == '"' {
            seq![
                (Piece { text: s.subrange(i, string_end(s, i)), token: Some(string_token(s, i)) }),
            ] + spec_pieces(s, string_end(s, i))
        } else if c == 'S' && peek_matches(s, i, seq!['c', 'r', 'i', 'p', 't']) {
            seq![
                (Piece {
                    text: s.subrange(i, raw_end(s, i)),
                    token: Some(raw_token(s, i, Tokens::Script)),
                }),
            ] + spec_pieces(s, raw_end(s, i))
        } else if c == 'C' && peek_matches(s, i, seq!['s', 's']) {
            seq![
                (Piece {
                    text: s.subrange(i, raw_end(s, i)),
                    token: Some(raw_token(s, i, Tokens::Css)),
                }),
            ] + spec_pieces(s, raw_end(s, i))
        } else if is_digit_char(c) {
            seq![
                (Piece {
                    text: s.subrange(i, number_end(s, i, false)),
                    token: Some(number_token(s, i)),
                }),
            ] + spec_pieces(s, number_end(s, i, false))
        } else if is_ident_char(c) {
            seq![
                (Piece { text: s.subrange(i, ident_end(s, i)), token: Some(ident_token(s, i)) }),
            ] + spec_pieces(s, ident_end(s, i))
        } else if symbol_kind(c) is Some {
            seq![(Piece { text: s.subrange(i, i + 1), token: Some(symbol_token(s, i)) })]
                + spec_pieces(s, i + 1)
        } else {
            seq![]
        }
    }
}

#[via_fn]
proof fn spec_pieces_decreases(s: Seq<char>, i: int) {
    if 0 <= i && i < s.len() {
        if s[i] != '\n' {
            lemma_comment_end(s, i + 1);
        }
        lemma_string_close(s, i + 1);
        if s[i] != '{' {
            lemma_raw_progress(s, i);
        }
        if is_digit_char(s[i]) {
            lemma_number_end(s, i + 1, false);
        }
        if is_ident_char(s[i]) {
            lemma_ident_end(s, i + 1);
        }
    }
}

proof fn lemma_pieces_cons(p: Piece, rest: Seq<Piece>)
    ensures
        pieces_text(seq![p] + rest) == p.text + pieces_text(rest),
        pieces_tokens(seq![p] + rest) == (match p.token {
            Some(t) => seq![t] + pieces_tokens(rest),
            None => pieces_tokens(rest),
        }),
{
    let ps = seq![p] + rest;
    assert(ps[0] == p);
    assert(ps.drop_first() =~= rest);
}

proof fn lemma_pieces_from(s: Seq<char>, i: int)
    requires
        0 <= i <= s.len(),
        spec_lex_from(s, i) is Ok,
    ensures
        pieces_text(spec_pieces(s, i)) == s.subrange(i, s.len() as int),
        pieces_tokens(spec_pieces(s, i)) == spec_lex_from(s, i)->Ok_0,
    decreases s.len() - i,
{
    if i >= s.len() {
        assert(pieces_text(spec_pieces(s, i)) =~= s.subrange(i, s.len() as int));
        assert(pieces_tokens(spec_pieces(s, i)) =~= spec_lex_from(s, i)->Ok_0);
    } else {
        let c = s[i];
        let end = lex_step_end(s, i);
        let piece = spec_pieces(s, i)[0];
        proof_step_bounds(s, i);
        lemma_pieces_from(s, end);
        lemma_pieces_cons(piece, spec_pieces(s, end));
        assert(s.subrange(i, end) + s.subrange(end, s.len() as int) =~= s.subrange(
            i,
            s.len() as int,
        ));
        assert(spec_pieces(s, i) == seq![piece] + spec_pieces(s, end));
    }
}

/// Where the scan stands after one dispatcher step at position `i`, on an
/// input it does not reject there.
spec fn lex_step_end(s: Seq<char>, i: int) -> int {
    let c = s[i];
    if c == '-' && peek_matches(s, i, seq!['-']) {
        comment_end(s, i)
    } else if c == '\n' || is_space_char(c) {
        i + 1
    } else if c == '"' {
        string_end(s, i)
    } else if c == 'S' && peek_matches(s, i, seq!['c', 'r', 'i', 'p', 't']) {
        raw_end(s, i)
    } else if c == 'C' && peek_matches(s, i, seq!['s', 's']) {
        raw_end(s, i)
    } else if is_digit_char(c) {
        number_end(s, i, false)
    } else if is_ident_char(c) {
        ident_end(s, i)
    } else {
        i + 1
    }
}

proof fn proof_step_bounds(s: Seq<char>, i: int)
    requires
        0 <= i < s.len(),
        spec_lex_from(s, i) is Ok,
    ensures
        i < lex_step_end(s, i) <= s.len(),
        spec_lex_from(s, lex_step_end(s, i)) is Ok,
{
    if s[i] != '\n' {
        lemma_comment_end(s, i + 1);
    }
    lemma_string_close(s, i + 1);
    if s[i] != '{' {
        lemma_raw_progress(s, i);
    }
    if is_digit_char(s[i]) {
        lemma_number_end(s, i + 1, false);
    }
    if is_ident_char(s[i]) {
        lemma_ident_end(s, i + 1);
    }
}

/// What a token's kind owes its payload: a Boolean token's payload is
/// exactly the text `true` or `false`, and no identifier with any other
/// text comes out Boolean; pure symbols carry no payload, every other
/// kind carries one.
pub open spec fn kind_payload_ok(t: TokenModel) -> bool {
    &&& t.kind == Tokens::Boolean ==> (t.value == Some(true_chars()) || t.value
        == Some(false_chars()))
    &&& t.kind == Tokens::Identifier ==> (t.value is Some && t.value.unwrap()
        != true_chars() && t.value.unwrap() != false_chars())
    &&& ((t.kind == Tokens::Equal || t.kind == Tokens::Comma || t.kind == Tokens::OpenCurly
        || t.kind == Tokens::CloseCurly || t.kind == Tokens::OpenBracket || t.kind
        == Tokens::CloseBracket) <==> t.value is None)
}

proof fn lemma_kind_payload_from(s: Seq<char>, i: int)
    requires
        0 <= i <= s.len(),
        spec_lex_from(s, i) is Ok,
    ensures
        forall|k: int|
            0 <= k < spec_lex_from(s, i)->Ok_0.len() ==> kind_payload_ok(
                #[trigger] spec_lex_from(s, i)->Ok_0[k],
            ),
    decreases s.len() - i,
{
    if i < s.len() {
        let c = s[i];
        let end = lex_step_end(s, i);
        proof_step_bounds(s, i);
        lemma_kind_payload_from(s, end);
        let toks = spec_lex_from(s, i)->Ok_0;
        let rest = spec_lex_from(s, end)->Ok_0;
        if toks.len() == rest.len() {
            // A skipped span: the token sequences coincide.
        } else {
            assert forall|k: int| 0 <= k < toks.len() implies kind_payload_ok(
                #[trigger] toks[k],
            ) by {
                if k > 0 {
                    assert(toks[k] == rest[k - 1]);
                }
            }
        }
    }
}

/// Boolean reclassification, proved: in any accepted scan, a Boolean
/// token's payload is exactly `true` or `false`, no identifier with any
/// other text comes out Boolean, and exactly the pure symbol tokens carry
/// no payload.
pub proof fn lemma_lex_kind_payload(s: Seq<char>)
    requires
        spec_lex(s) is Ok,
    ensures
        forall|k: int|
            0 <= k < spec_lex(s)->Ok_0.len() ==> kind_payload_ok(#[trigger] spec_lex(s)->Ok_0[k]),
{
    lemma_kind_payload_from(s, 0);
}

/// Lossless scanning: on any source the lexer accepts, the consumed spans
/// — one per token, newline, whitespace character and comment, in source
/// order — concatenate back to exactly the original text, and their
/// token-bearing spans carry exactly the tokens lexing returns, in order.
pub proof fn lemma_lex_lossless(s: Seq<char>)
    requires
        spec_lex(s) is Ok,
    ensures
        pieces_text(spec_pieces(s, 0)) == s,
        pieces_tokens(spec_pieces(s, 0)) == spec_lex(s)->Ok_0,
{
    lemma_pieces_from(s, 0);
    assert(s.subrange(0, s.len() as int) =~= s);
}

} // verus!
