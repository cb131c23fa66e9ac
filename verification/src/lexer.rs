//! The executable lexer: cursor, scan dispatcher and sub-scanners.
//!
//! A `Lexer` owns the source as a character vector together with the scan
//! position and its line/column bookkeeping.  `lex` walks the source once,
//! classifying each lexeme by its first character (with bounded lookahead)
//! and delegating to a sub-scanner; it is proved to return exactly what
//! `model::spec_lex_from` says for its starting position.

use vstd::prelude::*;
use vstd::string::StrSliceExecFns;
use vstd::string::StringExecFns;

use crate::model::col_at;
use crate::model::comment_end;
use crate::model::eoi_err;
use crate::model::ident_end;
use crate::model::ident_token;
use crate::model::lemma_comment_end;
use crate::model::lemma_ident_end;
use crate::model::lemma_number_end;
use crate::model::lemma_raw_progress;
use crate::model::lemma_string_close;
use crate::model::lemma_with_tokens_nil;
use crate::model::lemma_with_tokens_push;
use crate::model::is_digit_char;
use crate::model::is_ident_char;
use crate::model::is_space_char;
use crate::model::lemma_pos_bounds;
use crate::model::line_at;
use crate::model::number_end;
use crate::model::number_token;
use crate::model::peek_matches;
use crate::model::raw_close;
use crate::model::raw_end;
use crate::model::raw_open;
use crate::model::raw_token;
use crate::model::spec_lex_from;
use crate::model::string_close;
use crate::model::string_end;
use crate::model::string_token;
use crate::model::symbol_kind;
use crate::model::symbol_token;
use crate::model::true_chars;
use crate::model::false_chars;
use crate::model::unrecognized_err;
use crate::model::with_tokens;
use crate::model::ErrModel;
use crate::model::TokenModel;
use crate::token::lemma_tokens_view_push;
use crate::token::tokens_view;
use crate::token::Token;
use crate::token::Tokens;

verus! {

/// A lexical error: a message, the offending character (absent only when
/// the input ended where a character was required), and the position at
/// which scanning failed.
#[derive(Clone, Debug)]
pub struct LexerErr {
    pub message: String,
    pub char: Option<char>,
    pub line: usize,
    pub col: usize,
}

impl View for LexerErr {
    type V = ErrModel;

    open spec fn view(&self) -> ErrModel {
        ErrModel {
            message: self.message@,
            ch: self.char,
            line: self.line as int,
            col: self.col as int,
        }
    }
}

/// A scan outcome: the value, or the error that aborted the scan.
pub type LexerResult<T> = Result<T, LexerErr>;

/// Relies on `String::push`: appends exactly the given character at the
/// end of the string.
#[verifier::external_body]
fn push_char(s: &mut String, c: char)
    ensures
        final(s)@ == old(s)@.push(c),
{
    s.push(c);
}

/// Decimal digit test, as the model classifies it.
fn is_digit(c: char) -> (r: bool)
    ensures
        r == is_digit_char(c),
{
    let n = c as u32;
    48 <= n && n <= 57
}

/// Identifier-character test, as the model classifies it.
fn is_ident(c: char) -> (r: bool)
    ensures
        r == is_ident_char(c),
{
    let n = c as u32;
    (48 <= n && n <= 57) || (65 <= n && n <= 90) || (97 <= n && n <= 122) || c == '_'
}

/// Does the number scanner consume this character next: a digit, or the
/// first `.` of the number.
fn number_more(c: char, is_float: bool) -> (r: bool)
    ensures
        r == (is_digit_char(c) || (c == '.' && !is_float)),
{
    is_digit(c) || (c == '.' && !is_float)
}

/// Is this scanned text exactly `true` or `false`, the two identifier
/// texts that reclassify as Boolean?
fn is_bool_text(t: &String) -> (r: bool)
    ensures
        r == (t@ == true_chars() || t@ == false_chars()),
{
    let n = t.as_str().unicode_len();
    if n == 4 {
        let r = t.as_str().get_char(0) == 't' && t.as_str().get_char(1) == 'r' && t.as_str().get_char(
            2,
        ) == 'u' && t.as_str().get_char(3) == 'e';
        proof {
            if r {
                assert(t@ =~= true_chars());
            }
        }
        r
    } else if n == 5 {
        let r = t.as_str().get_char(0) == 'f' && t.as_str().get_char(1) == 'a' && t.as_str().get_char(
            2,
        ) == 'l' && t.as_str().get_char(3) == 's' && t.as_str().get_char(4) == 'e';
        proof {
            if r {
                assert(t@ =~= false_chars());
            }
        }
        r
    } else {
        false
    }
}

/// Whitespace test (newline aside), as the model classifies it.
fn is_space(c: char) -> (r: bool)
    ensures
        r == is_space_char(c),
{
    let n = c as u32;
    c == ' ' || c == '\t' || c == '\r' || c == '\u{b}' || c == '\u{c}' || c == '\u{85}'
        || c == '\u{a0}' || c == '\u{1680}' || (0x2000 <= n && n <= 0x200a) || c == '\u{2028}'
        || c == '\u{2029}' || c == '\u{202f}' || c == '\u{205f}' || c == '\u{3000}'
}

/// The character cursor and scan state, created once per lex invocation.
pub struct Lexer {
    chars: Vec<char>,
    pos: usize,
    line: usize,
    col: usize,
}

impl Lexer {
    /// The source text under scan.
    pub closed spec fn src(self) -> Seq<char> {
        self.chars@
    }

    /// The cursor's index into the source.
    pub closed spec fn at(self) -> int {
        self.pos as int
    }

    /// Cursor well-formedness: the position is within bounds and the
    /// line/column counters agree with the consumed prefix of the source.
    pub closed spec fn wf(self) -> bool {
        &&& self.chars@.len() < usize::MAX
        &&& self.pos <= self.chars@.len()
        &&& self.line as int == line_at(self.chars@, self.pos as int)
        &&& self.col as int == col_at(self.chars@, self.pos as int)
    }

    /// Build a cursor over `code`, standing at its first character,
    /// on line 1, column 1.
    pub fn new(code: &String) -> (r: Lexer)
        requires
            code@.len() < usize::MAX,
        ensures
            r.wf(),
            r.src() == code@,
            r.at() == 0,
    {
        let n = code.as_str().unicode_len();
        let mut chars: Vec<char> = Vec::new();
        let mut i: usize = 0;
        while i < n
            invariant
                n == code@.len(),
                n < usize::MAX,
                i <= n,
                chars@ == code@.subrange(0, i as int),
            decreases n - i,
        {
            let c = code.as_str().get_char(i);
            chars.push(c);
            proof {
                assert(chars@ =~= code@.subrange(0, i + 1 as int));
            }
            i += 1;
        }
        proof {
            assert(code@.subrange(0, n as int) =~= code@);
        }
        Lexer { chars, pos: 0, line: 1, col: 1 }
    }

    /// The character at the scan position, or `None` at the end of input.
    fn current(&self) -> (r: Option<char>)
        requires
            self.pos <= self.chars@.len(),
        ensures
            r == (if self.at() < self.src().len() {
                Some(self.src()[self.at()])
            } else {
                None::<char>
            }),
    {
        if self.pos < self.chars.len() {
            Some(self.chars[self.pos])
        } else {
            None
        }
    }

    /// Move the cursor one character forward.  Line and column are the
    /// consumer's responsibility (see `consume`).
    fn advance(&mut self)
        requires
            old(self).pos < old(self).chars@.len(),
            old(self).chars@.len() < usize::MAX,
        ensures
            final(self).chars == old(self).chars,
            final(self).pos == old(self).pos + 1,
            final(self).line == old(self).line,
            final(self).col == old(self).col,
    {
        self.pos = self.pos + 1;
    }

    /// Consume the current character: advance the cursor and keep the
    /// position bookkeeping right — a newline moves to the next line and
    /// resets the column, any other character widens the column by one.
    fn consume(&mut self)
        requires
            old(self).wf(),
            old(self).at() < old(self).src().len(),
        ensures
            final(self).wf(),
            final(self).src() == old(self).src(),
            final(self).at() == old(self).at() + 1,
    {
        proof {
            lemma_pos_bounds(self.chars@, self.pos as int);
        }
        let c = self.chars[self.pos];
        if c == '\n' {
            self.line = self.line + 1;
            self.col = 1;
        } else {
            self.col = self.col + 1;
        }
        self.advance();
    }

    /// Non-consuming lookahead: do the characters directly after the
    /// current one match `expected` in order?  A lookahead that would run
    /// past the end of the input is a non-match.
    fn peek(&self, expected: &[char]) -> (r: bool)
        requires
            self.wf(),
            self.at() < self.src().len(),
        ensures
            r == peek_matches(self.src(), self.at(), expected@),
    {
        let n = self.chars.len();
        if expected.len() > n - (self.pos + 1) {
            return false;
        }
        let mut k: usize = 0;
        while k < expected.len()
            invariant
                self.wf(),
                self.pos < self.chars@.len(),
                self.pos + 1 + expected@.len() <= self.chars@.len(),
                k <= expected@.len(),
                forall|j: int| 0 <= j < k ==> self.chars@[self.pos + 1 + j] == expected@[j],
            decreases expected@.len() - k,
        {
            if self.chars[self.pos + 1 + k] != expected[k] {
                return false;
            }
            k += 1;
        }
        true
    }

    /// Scan the string literal at the cursor (at its opening quote): every
    /// character up to the closing quote goes into the payload literally,
    /// with no escape processing; the quotes themselves do not.  A string
    /// the input ends in is truncated there, without error.
    fn lex_string(&mut self) -> (r: LexerResult<Token>)
        requires
            old(self).wf(),
            old(self).at() < old(self).src().len(),
            old(self).src()[old(self).at()] == '"',
        ensures
            final(self).wf(),
            final(self).src() == old(self).src(),
            final(self).at() == string_end(old(self).src(), old(self).at()),
            r is Ok,
            r->Ok_0@ == string_token(old(self).src(), old(self).at()),
    {
        let ghost s = self.chars@;
        let ghost start = self.pos as int;
        let mut buff = String::new();

        // Skip '"'
        self.consume();

        while self.pos < self.chars.len() && self.chars[self.pos] != '"'
            invariant
                self.wf(),
                self.chars@ == s,
                0 <= start,
                start + 1 <= self.pos <= s.len(),
                buff@ == s.subrange(start + 1, self.pos as int),
                string_close(s, start + 1) == string_close(s, self.pos as int),
            decreases s.len() - self.pos,
        {
            let c = self.chars[self.pos];
            push_char(&mut buff, c);
            self.consume();
            proof {
                let p = self.pos as int;
                assert(s.subrange(start + 1, p) =~= s.subrange(start + 1, p - 1).push(s[p - 1]));
            }
        }

        if self.pos < self.chars.len() {
            // Consume the closing '"'; it is not part of the payload.
            self.consume();
        }

        Ok(Token::new(Tokens::String, Some(buff), self.line, self.col))
    }

    /// Scan the number at the cursor (at a digit): digits, with the first
    /// `.` marking the number floating-point and joining the payload; a
    /// second `.` is not consumed.  Emits Int or Float accordingly.
    fn lex_number(&mut self) -> (r: LexerResult<Token>)
        requires
            old(self).wf(),
            old(self).at() < old(self).src().len(),
            is_digit_char(old(self).src()[old(self).at()]),
        ensures
            final(self).wf(),
            final(self).src() == old(self).src(),
            final(self).at() == number_end(old(self).src(), old(self).at(), false),
            r is Ok,
            r->Ok_0@ == number_token(old(self).src(), old(self).at()),
    {
        let ghost s = self.chars@;
        let ghost start = self.pos as int;
        let mut buff = String::new();
        let mut is_float = false;

        while self.pos < self.chars.len() && number_more(self.chars[self.pos], is_float)
            invariant
                self.wf(),
                self.chars@ == s,
                0 <= start,
                start <= self.pos <= s.len(),
                buff@ == s.subrange(start, self.pos as int),
                is_float == s.subrange(start, self.pos as int).contains('.'),
                number_end(s, start, false) == number_end(s, self.pos as int, is_float),
            decreases s.len() - self.pos,
        {
            let c = self.chars[self.pos];
            if c == '.' {
                is_float = true;
            }
            push_char(&mut buff, c);
            self.consume();
            proof {
                assert(s.subrange(start, self.pos as int) =~= s.subrange(
                    start,
                    self.pos - 1,
                ).push(s[self.pos - 1]));
                if c == '.' {
                    let p = self.pos as int;
                    assert(s.subrange(start, p)[p - 1 - start] == '.');
                    assert(s.subrange(start, p).contains('.'));
                } else {
                    assert(!s.subrange(start, self.pos as int).contains('.')
                        == !s.subrange(start, self.pos - 1).contains('.')) by {
                        let pre = s.subrange(start, self.pos - 1);
                        let cur = s.subrange(start, self.pos as int);
                        if cur.contains('.') {
                            let j = choose|j: int| 0 <= j < cur.len() && cur[j] == '.';
                            assert(j < pre.len() && pre[j] == '.');
                        }
                        if pre.contains('.') {
                            let j = choose|j: int| 0 <= j < pre.len() && pre[j] == '.';
                            assert(cur[j] == '.');
                        }
                    }
                }
            }
        }

        let kind = if is_float {
            Tokens::Float
        } else {
            Tokens::Int
        };
        Ok(Token::new(kind, Some(buff), self.line, self.col))
    }

    /// Scan the identifier at the cursor (at a letter or underscore):
    /// letters, digits and underscores join the payload.  The exact texts
    /// `true` and `false` come out as Boolean tokens, everything else as
    /// Identifier.
    fn lex_identifier(&mut self) -> (r: LexerResult<Token>)
        requires
            old(self).wf(),
            old(self).at() < old(self).src().len(),
            is_ident_char(old(self).src()[old(self).at()]),
        ensures
            final(self).wf(),
            final(self).src() == old(self).src(),
            final(self).at() == ident_end(old(self).src(), old(self).at()),
            r is Ok,
            r->Ok_0@ == ident_token(old(self).src(), old(self).at()),
    {
        let ghost s = self.chars@;
        let ghost start = self.pos as int;
        let mut buff = String::new();

        while self.pos < self.chars.len() && is_ident(self.chars[self.pos])
            invariant
                self.wf(),
                self.chars@ == s,
                0 <= start,
                start <= self.pos <= s.len(),
                buff@ == s.subrange(start, self.pos as int),
                ident_end(s, start) == ident_end(s, self.pos as int),
            decreases s.len() - self.pos,
        {
            let c = self.chars[self.pos];
            push_char(&mut buff, c);
            self.consume();
            proof {
                let p = self.pos as int;
                assert(s.subrange(start, p) =~= s.subrange(start, p - 1).push(s[p - 1]));
            }
        }

        let kind = if is_bool_text(&buff) {
            Tokens::Boolean
        } else {
            Tokens::Identifier
        };
        Ok(Token::new(kind, Some(buff), self.line, self.col))
    }

    /// Scan a raw block, triggered by its keyword at the cursor: discard
    /// characters up to and including the first `{`, then capture every
    /// character — braces included, the opening and closing delimiters
    /// among them — until the braces balance out.  A block the input ends
    /// in, or whose `{` never comes, truncates without error.
    fn lex_raw(&mut self, kind: Tokens) -> (r: LexerResult<Token>)
        requires
            old(self).wf(),
        ensures
            final(self).wf(),
            final(self).src() == old(self).src(),
            final(self).at() == raw_end(old(self).src(), old(self).at()),
            r is Ok,
            r->Ok_0@ == raw_token(old(self).src(), old(self).at(), kind),
    {
        let ghost s = self.chars@;
        let ghost start = self.pos as int;
        let mut buff = String::new();

        // Skip forward to the opening brace.
        while self.pos < self.chars.len() && self.chars[self.pos] != '{'
            invariant
                self.wf(),
                self.chars@ == s,
                0 <= start,
                start <= self.pos <= s.len(),
                raw_open(s, start) == raw_open(s, self.pos as int),
            decreases s.len() - self.pos,
        {
            self.consume();
        }

        if self.pos >= self.chars.len() {
            // No opening brace before the end of input: nothing captured.
            proof {
                assert(s.subrange(s.len() as int, s.len() as int) =~= buff@);
            }
            return Ok(Token::new(kind, Some(buff), self.line, self.col));
        }

        // Consume the opening brace; it starts the captured text.
        let ghost open = self.pos as int;
        let c = self.chars[self.pos];
        push_char(&mut buff, c);
        self.consume();
        let mut depth: usize = 1;

        while depth > 0 && self.pos < self.chars.len()
            invariant
                self.wf(),
                self.chars@ == s,
                0 <= start <= open,
                open == raw_open(s, start),
                open < s.len(),
                open + 1 <= self.pos <= s.len(),
                depth <= self.pos - open,
                buff@ == s.subrange(open, self.pos as int),
                depth > 0 ==> raw_close(s, open + 1, 1) == raw_close(s, self.pos as int, depth as int),
                depth == 0 ==> self.pos == raw_close(s, open + 1, 1),
            decreases s.len() - self.pos,
        {
            let c = self.chars[self.pos];
            if c == '{' {
                depth = depth + 1;
            } else if c == '}' {
                depth = depth - 1;
            }
            push_char(&mut buff, c);
            self.consume();
            proof {
                let p = self.pos as int;
                assert(s.subrange(open, p) =~= s.subrange(open, p - 1).push(s[p - 1]));
            }
        }

        Ok(Token::new(kind, Some(buff), self.line, self.col))
    }

    /// Scan the whole source from the cursor on: classify each lexeme by
    /// its first character (and bounded lookahead), in the dispatcher's
    /// priority order — comment, newline, whitespace, string, `Script`,
    /// `Css`, number, identifier, symbol — and collect the tokens in
    /// source order.  Returns exactly what the model (`spec_lex_from`)
    /// says: the full token sequence, or the first lexical error, which
    /// aborts the scan.
    pub fn lex(&mut self) -> (r: LexerResult<Vec<Token>>)
        requires
            old(self).wf(),
        ensures
            final(self).wf(),
            final(self).src() == old(self).src(),
            ({
                let outcome = spec_lex_from(old(self).src(), old(self).at());
                match r {
                    Ok(toks) => outcome == Ok::<Seq<TokenModel>, ErrModel>(tokens_view(toks@)),
                    Err(e) => outcome == Err::<Seq<TokenModel>, ErrModel>(e@),
                }
            }),
    {
        let ghost s = self.chars@;
        let ghost start = self.pos as int;
        let mut tokens: Vec<Token> = Vec::new();

        proof {
            assert(tokens_view(tokens@) =~= Seq::<TokenModel>::empty());
            lemma_with_tokens_nil(spec_lex_from(s, start));
        }

        while self.pos < self.chars.len()
            invariant
                self.wf(),
                self.chars@ == s,
                s == old(self).src(),
                start == old(self).at(),
                0 <= start,
                spec_lex_from(s, start) == with_tokens(
                    tokens_view(tokens@),
                    spec_lex_from(s, self.pos as int),
                ),
            decreases s.len() - self.pos,
        {
            let ghost pre = self.pos as int;
            let c = self.chars[self.pos];

            let pat_comment: [char; 1] = ['-'];
            let pat_script: [char; 5] = ['c', 'r', 'i', 'p', 't'];
            let pat_css: [char; 2] = ['s', 's'];
            proof {
                assert(pat_comment@ =~= seq!['-']);
                assert(pat_script@ =~= seq!['c', 'r', 'i', 'p', 't']);
                assert(pat_css@ =~= seq!['s', 's']);
            }

            // Skip comment
            if c == '-' && self.peek(&pat_comment) {
                proof {
                    lemma_comment_end(s, pre + 1);
                }
                while self.pos < self.chars.len() && self.chars[self.pos] != '\n'
                    invariant
                        self.wf(),
                        self.chars@ == s,
                        0 <= pre,
                        pre <= self.pos <= s.len(),
                        comment_end(s, pre) == comment_end(s, self.pos as int),
                    decreases s.len() - self.pos,
                {
                    self.consume();
                }
                continue;
            }

            // Newline, or any other whitespace
            if c == '\n' || is_space(c) {
                self.consume();
                continue;
            }

            // String
            if c == '"' {
                let token = match self.lex_string() {
                    Ok(t) => t,
                    Err(e) => return Err(e),
                };
                proof {
                    lemma_string_close(s, pre + 1);
                    lemma_with_tokens_push(
                        tokens_view(tokens@),
                        token@,
                        spec_lex_from(s, self.pos as int),
                    );
                    lemma_tokens_view_push(tokens@, token);
                }
                tokens.push(token);
                continue;
            }

            // Script
            if c == 'S' && self.peek(&pat_script) {
                let token = match self.lex_raw(Tokens::Script) {
                    Ok(t) => t,
                    Err(e) => return Err(e),
                };
                proof {
                    lemma_raw_progress(s, pre);
                    lemma_with_tokens_push(
                        tokens_view(tokens@),
                        token@,
                        spec_lex_from(s, self.pos as int),
                    );
                    lemma_tokens_view_push(tokens@, token);
                }
                tokens.push(token);
                continue;
            }

            // Css
            if c == 'C' && self.peek(&pat_css) {
                let token = match self.lex_raw(Tokens::Css) {
                    Ok(t) => t,
                    Err(e) => return Err(e),
                };
                proof {
                    lemma_raw_progress(s, pre);
                    lemma_with_tokens_push(
                        tokens_view(tokens@),
                        token@,
                        spec_lex_from(s, self.pos as int),
                    );
                    lemma_tokens_view_push(tokens@, token);
                }
                tokens.push(token);
                continue;
            }

            // Int / Float
            if is_digit(c) {
                let token = match self.lex_number() {
                    Ok(t) => t,
                    Err(e) => return Err(e),
                };
                proof {
                    lemma_number_end(s, pre + 1, false);
                    lemma_with_tokens_push(
                        tokens_view(tokens@),
                        token@,
                        spec_lex_from(s, self.pos as int),
                    );
                    lemma_tokens_view_push(tokens@, token);
                }
                tokens.push(token);
                continue;
            }

            // Identifier
            if is_ident(c) {
                let token = match self.lex_identifier() {
                    Ok(t) => t,
                    Err(e) => return Err(e),
                };
                proof {
                    lemma_ident_end(s, pre + 1);
                    lemma_with_tokens_push(
                        tokens_view(tokens@),
                        token@,
                        spec_lex_from(s, self.pos as int),
                    );
                    lemma_tokens_view_push(tokens@, token);
                }
                tokens.push(token);
                continue;
            }

            // Symbols — the lexer's only failure path
            let token = match self.lex_symbols() {
                Ok(t) => t,
                Err(e) => {
                    proof {
                        assert(spec_lex_from(s, pre) == Err::<Seq<TokenModel>, ErrModel>(
                            unrecognized_err(s, pre),
                        ));
                    }
                    return Err(e);
                },
            };
            proof {
                lemma_with_tokens_push(
                    tokens_view(tokens@),
                    token@,
                    spec_lex_from(s, self.pos as int),
                );
                lemma_tokens_view_push(tokens@, token);
            }
            tokens.push(token);
        }

        proof {
            assert(tokens_view(tokens@) + Seq::<TokenModel>::empty() =~= tokens_view(tokens@));
        }
        Ok(tokens)
    }

    /// Scan the symbol at the cursor: one of `=`, `,`, `{`, `}`, `[`, `]`,
    /// consumed as a payload-free token.  Any other character fails with
    /// "Unrecognized symbol"; a cursor already at the end of input fails
    /// with "Unexpected end of input".  This is the lexer's only failure
    /// point.
    fn lex_symbols(&mut self) -> (r: LexerResult<Token>)
        requires
            old(self).wf(),
        ensures
            final(self).wf(),
            final(self).src() == old(self).src(),
            ({
                let s = old(self).src();
                let i = old(self).at();
                if i < s.len() {
                    if symbol_kind(s[i]) is Some {
                        &&& final(self).at() == i + 1
                        &&& r is Ok
                        &&& r->Ok_0@ == symbol_token(s, i)
                    } else {
                        &&& final(self).at() == i
                        &&& r is Err
                        &&& r->Err_0@ == unrecognized_err(s, i)
                    }
                } else {
                    &&& final(self).at() == i
                    &&& r is Err
                    &&& r->Err_0@ == eoi_err(s, i)
                }
            }),
    {
        match self.current() {
            Some(c) => {
                let kind: Option<Tokens> = if c == '=' {
                    Some(Tokens::Equal)
                } else if c == ',' {
                    Some(Tokens::Comma)
                } else if c == '{' {
                    Some(Tokens::OpenCurly)
                } else if c == '}' {
                    Some(Tokens::CloseCurly)
                } else if c == '[' {
                    Some(Tokens::OpenBracket)
                } else if c == ']' {
                    Some(Tokens::CloseBracket)
                } else {
                    None
                };
                match kind {
                    Some(k) => {
                        self.consume();
                        Ok(Token::new(k, None, self.line, self.col))
                    },
                    None => Err(LexerErr {
                        message: String::from_str("Unrecognized symbol"),
                        char: Some(c),
                        line: self.line,
                        col: self.col,
                    }),
                }
            },
            None => Err(LexerErr {
                message: String::from_str("Unexpected end of input"),
                char: None,
                line: self.line,
                col: self.col,
            }),
        }
    }
}

} // verus!
