//! End-to-end tests of the qws lexer.
//!
//! Positions follow the lexer's documented model: lines and columns start
//! at 1, every consumed character widens the column by one, a newline
//! starts the next line at column 1, and a token records the position at
//! which its scan completed.

use qws_lang::lex;
use qws_lang::Lexer;
use qws_lang::Token;
use qws_lang::Tokens;

fn lex_ok(src: &str) -> Vec<Token> {
    lex(&src.to_string()).expect("expected a token sequence")
}

#[test]
fn empty_source_gives_no_tokens() {
    let tokens = lex_ok("");
    assert!(tokens.is_empty());
}

#[test]
fn identifier_equal_int() {
    let tokens = lex_ok("foo = 1");
    assert_eq!(tokens.len(), 3);

    assert_eq!(tokens[0].kind, Tokens::Identifier);
    assert_eq!(tokens[0].value.as_deref(), Some("foo"));
    assert_eq!((tokens[0].line, tokens[0].col), (1, 4));

    assert_eq!(tokens[1].kind, Tokens::Equal);
    assert_eq!(tokens[1].value, None);
    assert_eq!((tokens[1].line, tokens[1].col), (1, 6));

    assert_eq!(tokens[2].kind, Tokens::Int);
    assert_eq!(tokens[2].value.as_deref(), Some("1"));
    assert_eq!((tokens[2].line, tokens[2].col), (1, 8));
}

#[test]
fn true_and_false_become_booleans() {
    let tokens = lex_ok("true, false");
    assert_eq!(tokens.len(), 3);
    assert_eq!(tokens[0].kind, Tokens::Boolean);
    assert_eq!(tokens[0].value.as_deref(), Some("true"));
    assert_eq!(tokens[1].kind, Tokens::Comma);
    assert_eq!(tokens[1].value, None);
    assert_eq!(tokens[2].kind, Tokens::Boolean);
    assert_eq!(tokens[2].value.as_deref(), Some("false"));
}

#[test]
fn boolean_like_identifiers_stay_identifiers() {
    let tokens = lex_ok("truex True falsey");
    assert_eq!(tokens.len(), 3);
    for t in &tokens {
        assert_eq!(t.kind, Tokens::Identifier);
    }
}

#[test]
fn comment_is_skipped_and_line_advances() {
    let tokens = lex_ok("-- comment\nx");
    assert_eq!(tokens.len(), 1);
    assert_eq!(tokens[0].kind, Tokens::Identifier);
    assert_eq!(tokens[0].value.as_deref(), Some("x"));
    assert_eq!((tokens[0].line, tokens[0].col), (2, 2));
}

#[test]
fn comment_without_newline_reaches_end_of_input() {
    let tokens = lex_ok("-- only a comment");
    assert!(tokens.is_empty());
    let tokens = lex_ok("--");
    assert!(tokens.is_empty());
}

#[test]
fn string_literal() {
    let tokens = lex_ok("\"hi\"");
    assert_eq!(tokens.len(), 1);
    assert_eq!(tokens[0].kind, Tokens::String);
    assert_eq!(tokens[0].value.as_deref(), Some("hi"));
    assert_eq!((tokens[0].line, tokens[0].col), (1, 5));
}

#[test]
fn empty_string_literal() {
    let tokens = lex_ok("\"\"");
    assert_eq!(tokens.len(), 1);
    assert_eq!(tokens[0].kind, Tokens::String);
    assert_eq!(tokens[0].value.as_deref(), Some(""));
}

#[test]
fn unterminated_string_truncates_at_end_of_input() {
    let tokens = lex_ok("\"ab");
    assert_eq!(tokens.len(), 1);
    assert_eq!(tokens[0].kind, Tokens::String);
    assert_eq!(tokens[0].value.as_deref(), Some("ab"));
}

#[test]
fn string_takes_characters_literally() {
    // No escape processing: the backslash is payload like anything else.
    let tokens = lex_ok("\"a\\n b\"");
    assert_eq!(tokens.len(), 1);
    assert_eq!(tokens[0].value.as_deref(), Some("a\\n b"));
}

#[test]
fn script_block_payload_keeps_braces_and_nesting() {
    let tokens = lex_ok("Script { a { b } c }");
    assert_eq!(tokens.len(), 1);
    assert_eq!(tokens[0].kind, Tokens::Script);
    assert_eq!(tokens[0].value.as_deref(), Some("{ a { b } c }"));
    assert_eq!((tokens[0].line, tokens[0].col), (1, 21));
}

#[test]
fn css_block_payload_keeps_braces() {
    let tokens = lex_ok("Css { color: red }");
    assert_eq!(tokens.len(), 1);
    assert_eq!(tokens[0].kind, Tokens::Css);
    assert_eq!(tokens[0].value.as_deref(), Some("{ color: red }"));
}

#[test]
fn raw_block_without_brace_captures_nothing() {
    let tokens = lex_ok("Script");
    assert_eq!(tokens.len(), 1);
    assert_eq!(tokens[0].kind, Tokens::Script);
    assert_eq!(tokens[0].value.as_deref(), Some(""));
}

#[test]
fn unterminated_raw_block_truncates_at_end_of_input() {
    let tokens = lex_ok("Css {a");
    assert_eq!(tokens.len(), 1);
    assert_eq!(tokens[0].kind, Tokens::Css);
    assert_eq!(tokens[0].value.as_deref(), Some("{a"));
}

#[test]
fn raw_keyword_needs_only_its_prefix() {
    // Dispatch asks for `S` followed by `cript`; a longer word still
    // triggers the raw-block scanner, and the rest is skipped up to `{`.
    let tokens = lex_ok("Scripts{}");
    assert_eq!(tokens.len(), 1);
    assert_eq!(tokens[0].kind, Tokens::Script);
    assert_eq!(tokens[0].value.as_deref(), Some("{}"));
}

#[test]
fn short_s_is_an_identifier() {
    // A lookahead past the end of input is a non-match, so a lone `S`
    // is scanned as an identifier, not as a raw block.
    let tokens = lex_ok("S");
    assert_eq!(tokens.len(), 1);
    assert_eq!(tokens[0].kind, Tokens::Identifier);
    assert_eq!(tokens[0].value.as_deref(), Some("S"));
}

#[test]
fn float_with_second_dot_stops_and_errs_on_the_dot() {
    // Regression fixture: `1.2.3` scans `1.2` as a Float; scanning resumes
    // at `.3`, and `.` is no recognized symbol, so the scan fails there.
    let err = lex(&"1.2.3".to_string()).expect_err("expected a lexical error");
    assert_eq!(err.message, "Unrecognized symbol");
    assert_eq!(err.char, Some('.'));
    assert_eq!((err.line, err.col), (1, 4));
}

#[test]
fn trailing_dot_still_a_float() {
    let tokens = lex_ok("1.");
    assert_eq!(tokens.len(), 1);
    assert_eq!(tokens[0].kind, Tokens::Float);
    assert_eq!(tokens[0].value.as_deref(), Some("1."));
}

#[test]
fn plain_int_and_float() {
    let tokens = lex_ok("42 3.25");
    assert_eq!(tokens.len(), 2);
    assert_eq!(tokens[0].kind, Tokens::Int);
    assert_eq!(tokens[0].value.as_deref(), Some("42"));
    assert_eq!(tokens[1].kind, Tokens::Float);
    assert_eq!(tokens[1].value.as_deref(), Some("3.25"));
}

#[test]
fn unrecognized_symbol_error() {
    let err = lex(&"@".to_string()).expect_err("expected a lexical error");
    assert_eq!(err.message, "Unrecognized symbol");
    assert_eq!(err.char, Some('@'));
    assert_eq!((err.line, err.col), (1, 1));
}

#[test]
fn lone_dash_is_no_comment_and_no_symbol() {
    let err = lex(&"-".to_string()).expect_err("expected a lexical error");
    assert_eq!(err.message, "Unrecognized symbol");
    assert_eq!(err.char, Some('-'));
    assert_eq!((err.line, err.col), (1, 1));
}

#[test]
fn error_position_counts_lines_and_columns() {
    let err = lex(&"ab\ncd @".to_string()).expect_err("expected a lexical error");
    assert_eq!(err.char, Some('@'));
    assert_eq!((err.line, err.col), (2, 4));
}

#[test]
fn all_six_symbols() {
    let tokens = lex_ok("={},[]");
    let kinds: Vec<Tokens> = tokens.iter().map(|t| t.kind).collect();
    assert_eq!(
        kinds,
        vec![
            Tokens::Equal,
            Tokens::OpenCurly,
            Tokens::CloseCurly,
            Tokens::Comma,
            Tokens::OpenBracket,
            Tokens::CloseBracket,
        ]
    );
    for t in &tokens {
        assert_eq!(t.value, None);
    }
}

#[test]
fn token_line_is_three_after_two_newlines() {
    let tokens = lex_ok("\n\nx");
    assert_eq!(tokens.len(), 1);
    assert_eq!(tokens[0].kind, Tokens::Identifier);
    assert_eq!(tokens[0].line, 3);
    assert_eq!(tokens[0].col, 2);
}

#[test]
fn whitespace_kinds_advance_the_column() {
    let tokens = lex_ok("\t a");
    assert_eq!(tokens.len(), 1);
    assert_eq!((tokens[0].line, tokens[0].col), (1, 4));
}

#[test]
fn unicode_whitespace_is_skipped() {
    // No-break space and ideographic space are whitespace, not symbols.
    let tokens = lex_ok("\u{a0}\u{3000}x");
    assert_eq!(tokens.len(), 1);
    assert_eq!(tokens[0].kind, Tokens::Identifier);
    assert_eq!((tokens[0].line, tokens[0].col), (1, 4));
}

#[test]
fn lossless_on_a_source_of_plain_lexemes() {
    // Lossless scanning on concrete values: where every lexeme's payload
    // is its matched text (identifiers, numbers, booleans) and symbols
    // are single characters, the token stream rebuilds the source.
    let src = "a=b,c=1.5,d=true";
    let tokens = lex_ok(src);
    let mut rebuilt = String::new();
    for t in &tokens {
        match t.kind {
            Tokens::Equal => rebuilt.push('='),
            Tokens::Comma => rebuilt.push(','),
            _ => rebuilt.push_str(t.value.as_deref().unwrap()),
        }
    }
    assert_eq!(rebuilt, src);
}

#[test]
fn tokens_keep_source_order() {
    let tokens = lex_ok("one 2 three");
    let values: Vec<&str> = tokens.iter().map(|t| t.value.as_deref().unwrap()).collect();
    assert_eq!(values, vec!["one", "2", "three"]);
}

#[test]
fn lexer_new_and_lex_directly() {
    let code = "x = 9".to_string();
    let mut lexer = Lexer::new(&code);
    let tokens = lexer.lex().expect("expected a token sequence");
    assert_eq!(tokens.len(), 3);
    assert_eq!(tokens[0].value.as_deref(), Some("x"));
    assert_eq!(tokens[1].kind, Tokens::Equal);
    assert_eq!(tokens[2].value.as_deref(), Some("9"));
}

#[test]
fn token_new_keeps_its_fields() {
    let t = Token::new(Tokens::Identifier, Some("name".to_string()), 4, 7);
    assert_eq!(t.kind, Tokens::Identifier);
    assert_eq!(t.value.as_deref(), Some("name"));
    assert_eq!((t.line, t.col), (4, 7));
}

#[test]
fn widget_description_end_to_end() {
    let src = "-- a bar widget\nBar {\n  size = 24,\n  label = \"time\"\n}";
    let tokens = lex_ok(src);
    let kinds: Vec<Tokens> = tokens.iter().map(|t| t.kind).collect();
    assert_eq!(
        kinds,
        vec![
            Tokens::Identifier,
            Tokens::OpenCurly,
            Tokens::Identifier,
            Tokens::Equal,
            Tokens::Int,
            Tokens::Comma,
            Tokens::Identifier,
            Tokens::Equal,
            Tokens::String,
            Tokens::CloseCurly,
        ]
    );
    assert_eq!(tokens[0].value.as_deref(), Some("Bar"));
    assert_eq!(tokens[4].value.as_deref(), Some("24"));
    assert_eq!(tokens[8].value.as_deref(), Some("time"));
    // The closing brace stands alone on line 5.
    assert_eq!(tokens[9].line, 5);
}
