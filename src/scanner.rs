//! Lexical scanner: turns source text into tokens, one per call.
use vstd::prelude::*;

verus! {

/// The lexical categories of the language.
#[derive(Clone, Copy, Debug, PartialEq, Eq, Structural)]
pub enum TokenType {
    // Single-character tokens.
    TokenLeftParen,
    TokenRightParen,
    TokenLeftBrace,
    TokenRightBrace,
    TokenComma,
    TokenDot,
    TokenMinus,
    TokenPlus,
    TokenSemicolon,
    TokenSlash,
    TokenStar,
    // One or two character tokens.
    TokenBang,
    TokenBangEqual,
    TokenEqual,
    TokenEqualEqual,
    TokenGreater,
    TokenGreaterEqual,
    TokenLess,
    TokenLessEqual,
    // Literals.
    TokenIdentifier,
    TokenString,
    TokenNumber,
    // Keywords.
    TokenAnd,
    TokenClass,
    TokenElse,
    TokenFalse,
    TokenFor,
    TokenFun,
    TokenIf,
    TokenNil,
    TokenOr,
    TokenPrint,
    TokenReturn,
    TokenSuper,
    TokenThis,
    TokenTrue,
    TokenVar,
    TokenWhile,
    // Signals.
    TokenError,
    TokenEOF,
}

// ---------------------------------------------------------------------------
// The token grammar, stated over the source's characters.
// ---------------------------------------------------------------------------

pub open spec fn is_digit_char(c: char) -> bool {
    '0' <= c && c <= '9'
}

pub open spec fn is_alpha_char(c: char) -> bool {
    ('a' <= c && c <= 'z') || ('A' <= c && c <= 'Z') || c == '_'
}

pub open spec fn is_blank_char(c: char) -> bool {
    c == ' ' || c == '\r' || c == '\t' || c == '\n'
}

/// End of the maximal run of digits that starts at `i`.
pub open spec fn digits_end(src: Seq<char>, i: int) -> int
    decreases src.len() - i,
{
    if 0 <= i < src.len() && is_digit_char(src[i]) {
        digits_end(src, i + 1)
    } else {
        i
    }
}

/// End of the maximal run of letters, digits and underscores that starts at `i`.
pub open spec fn ident_end(src: Seq<char>, i: int) -> int
    decreases src.len() - i,
{
    if 0 <= i < src.len() && (is_alpha_char(src[i]) || is_digit_char(src[i])) {
        ident_end(src, i + 1)
    } else {
        i
    }
}

/// Position of the first `"` at or after `i`, or the end of the text.
pub open spec fn string_end(src: Seq<char>, i: int) -> int
    decreases src.len() - i,
{
    if 0 <= i < src.len() && src[i] != '"' {
        string_end(src, i + 1)
    } else {
        i
    }
}

/// End of a number literal that starts with a digit at `s`: digits, then a
/// `.` and more digits only when at least one digit follows the `.`.
pub open spec fn number_end(src: Seq<char>, s: int) -> int {
    let e = digits_end(src, s);
    if e + 1 < src.len() && src[e] == '.' && is_digit_char(src[e + 1]) {
        digits_end(src, e + 1)
    } else {
        e
    }
}

/// First position at or after `i` that is neither blank nor inside a `//`
/// comment.
pub open spec fn skip_trivia(src: Seq<char>, i: int) -> int
    decreases src.len() - i, 0int,
{
    if 0 <= i < src.len() {
        if is_blank_char(src[i]) {
            skip_trivia(src, i + 1)
        } else if src[i] == '/' && i + 1 < src.len() && src[i + 1] == '/' {
            skip_comment(src, i + 2)
        } else {
            i
        }
    } else {
        i
    }
}

/// Skips the rest of a line comment from `i`, then the trivia after it.
pub open spec fn skip_comment(src: Seq<char>, i: int) -> int
    decreases src.len() - i, 1int,
{
    if 0 <= i < src.len() && src[i] != '\n' {
        skip_comment(src, i + 1)
    } else {
        skip_trivia(src, i)
    }
}

/// The keyword that `w` spells, or the generic identifier kind.
pub open spec fn keyword_kind(w: Seq<char>) -> TokenType {
    if w == seq!['a', 'n', 'd'] {
        TokenType::TokenAnd
    } else if w == seq!['c', 'l', 'a', 's', 's'] {
        TokenType::TokenClass
    } else if w == seq!['e', 'l', 's', 'e'] {
        TokenType::TokenElse
    } else if w == seq!['f', 'a', 'l', 's', 'e'] {
        TokenType::TokenFalse
    } else if w == seq!['f', 'o', 'r'] {
        TokenType::TokenFor
    } else if w == seq!['f', 'u', 'n'] {
        TokenType::TokenFun
    } else if w == seq!['i', 'f'] {
        TokenType::TokenIf
    } else if w == seq!['n', 'i', 'l'] {
        TokenType::TokenNil
    } else if w == seq!['o', 'r'] {
        TokenType::TokenOr
    } else if w == seq!['p', 'r', 'i', 'n', 't'] {
        TokenType::TokenPrint
    } else if w == seq!['r', 'e', 't', 'u', 'r', 'n'] {
        TokenType::TokenReturn
    } else if w == seq!['s', 'u', 'p', 'e', 'r'] {
        TokenType::TokenSuper
    } else if w == seq!['t', 'h', 'i', 's'] {
        TokenType::TokenThis
    } else if w == seq!['t', 'r', 'u', 'e'] {
        TokenType::TokenTrue
    } else if w == seq!['v', 'a', 'r'] {
        TokenType::TokenVar
    } else if w == seq!['w', 'h', 'i', 'l', 'e'] {
        TokenType::TokenWhile
    } else {
        TokenType::TokenIdentifier
    }
}

/// The spelling of a keyword kind; empty for the other kinds.
pub open spec fn keyword_text(t: TokenType) -> Seq<char> {
    match t {
        TokenType::TokenAnd => seq!['a', 'n', 'd'],
        TokenType::TokenClass => seq!['c', 'l', 'a', 's', 's'],
        TokenType::TokenElse => seq!['e', 'l', 's', 'e'],
        TokenType::TokenFalse => seq!['f', 'a', 'l', 's', 'e'],
        TokenType::TokenFor => seq!['f', 'o', 'r'],
        TokenType::TokenFun => seq!['f', 'u', 'n'],
        TokenType::TokenIf => seq!['i', 'f'],
        TokenType::TokenNil => seq!['n', 'i', 'l'],
        TokenType::TokenOr => seq!['o', 'r'],
        TokenType::TokenPrint => seq!['p', 'r', 'i', 'n', 't'],
        TokenType::TokenReturn => seq!['r', 'e', 't', 'u', 'r', 'n'],
        TokenType::TokenSuper => seq!['s', 'u', 'p', 'e', 'r'],
        TokenType::TokenThis => seq!['t', 'h', 'i', 's'],
        TokenType::TokenTrue => seq!['t', 'r', 'u', 'e'],
        TokenType::TokenVar => seq!['v', 'a', 'r'],
        TokenType::TokenWhile => seq!['w', 'h', 'i', 'l', 'e'],
        _ => Seq::empty(),
    }
}

/// Keyword matching is exact: a word has a keyword kind only when it spells
/// that keyword, letter for letter and in the same case; every other word,
/// a keyword's prefix or extension included, is an identifier.
pub proof fn lemma_keyword_exact(w: Seq<char>)
    ensures
        keyword_kind(w) == TokenType::TokenIdentifier || keyword_text(keyword_kind(w)) == w,
        forall|t: TokenType|
            keyword_text(t).len() > 0 && w == #[trigger] keyword_text(t) ==> keyword_kind(w) == t,
{
    assert forall|t: TokenType|
        keyword_text(t).len() > 0 && w == #[trigger] keyword_text(t) implies keyword_kind(w) == t by {
    }
}

/// A one-character token that becomes a two-character one when `=` follows.
pub open spec fn with_equal(
    src: Seq<char>,
    s: int,
    one: TokenType,
    two: TokenType,
) -> (TokenType, int) {
    if s + 1 < src.len() && src[s + 1] == '=' {
        (two, s + 2)
    } else {
        (one, s + 1)
    }
}

/// Kind and end of the token that starts at `s` (after trivia).
pub open spec fn lex_at(src: Seq<char>, s: int) -> (TokenType, int) {
    if s < 0 || s >= src.len() {
        (TokenType::TokenEOF, s)
    } else {
        let c = src[s];
        if is_alpha_char(c) {
            let e = ident_end(src, s + 1);
            (keyword_kind(src.subrange(s, e)), e)
        } else if is_digit_char(c) {
            (TokenType::TokenNumber, number_end(src, s))
        } else if c == '(' {
            (TokenType::TokenLeftParen, s + 1)
        } else if c == ')' {
            (TokenType::TokenRightParen, s + 1)
        } else if c == '{' {
            (TokenType::TokenLeftBrace, s + 1)
        } else if c == '}' {
            (TokenType::TokenRightBrace, s + 1)
        } else if c == ';' {
            (TokenType::TokenSemicolon, s + 1)
        } else if c == ',' {
            (TokenType::TokenComma, s + 1)
        } else if c == '.' {
            (TokenType::TokenDot, s + 1)
        } else if c == '-' {
            (TokenType::TokenMinus, s + 1)
        } else if c == '+' {
            (TokenType::TokenPlus, s + 1)
        } else if c == '/' {
            (TokenType::TokenSlash, s + 1)
        } else if c == '*' {
            (TokenType::TokenStar, s + 1)
        } else if c == '!' {
            with_equal(src, s, TokenType::TokenBang, TokenType::TokenBangEqual)
        } else if c == '=' {
            with_equal(src, s, TokenType::TokenEqual, TokenType::TokenEqualEqual)
        } else if c == '<' {
            with_equal(src, s, TokenType::TokenLess, TokenType::TokenLessEqual)
        } else if c == '>' {
            with_equal(src, s, TokenType::TokenGreater, TokenType::TokenGreaterEqual)
        } else if c == '"' {
            let e = string_end(src, s + 1);
            if e < src.len() {
                (TokenType::TokenString, e + 1)
            } else {
                (TokenType::TokenError, e)
            }
        } else {
            (TokenType::TokenError, s + 1)
        }
    }
}

/// The diagnostic carried by an error token that starts at `s`.
pub open spec fn error_message(src: Seq<char>, s: int) -> Seq<char> {
    if 0 <= s < src.len() && src[s] == '"' {
        "Unterminated string."@
    } else {
        "Unexpected character."@
    }
}

/// Number of newline characters in `s`.
pub open spec fn newlines(s: Seq<char>) -> nat
    decreases s.len(),
{
    if s.len() == 0 {
        0
    } else {
        newlines(s.drop_last()) + if s.last() == '\n' {
            1nat
        } else {
            0nat
        }
    }
}

/// `tok` is the token that scanning from position `from` yields: trivia is
/// skipped, then one token is read, with its kind, span, line and diagnostic.
pub open spec fn is_next_token(src: Seq<char>, from: int, tok: Token) -> bool {
    let s = skip_trivia(src, from);
    let (kind, e) = lex_at(src, s);
    &&& tok.ttype == kind
    &&& tok.start == s
    &&& tok.start + tok.length == e
    &&& tok.line == line_at(src, e)
    &&& tok.message.is_some() == (kind == TokenType::TokenError)
    &&& tok.message.is_some() ==> tok.message.unwrap()@ == error_message(src, s)
}

/// The 1-based line on which position `i` of the text lies.
pub open spec fn line_at(src: Seq<char>, i: int) -> nat {
    1 + newlines(src.subrange(0, i))
}

proof fn lemma_newlines_bound(s: Seq<char>)
    ensures
        newlines(s) <= s.len(),
    decreases s.len(),
{
    if s.len() > 0 {
        lemma_newlines_bound(s.drop_last());
    }
}

proof fn lemma_line_step(src: Seq<char>, i: int)
    requires
        0 <= i < src.len(),
    ensures
        line_at(src, i + 1) == line_at(src, i) + if src[i] == '\n' {
            1nat
        } else {
            0nat
        },
        line_at(src, i + 1) <= i + 2,
{
    assert(src.subrange(0, i + 1).drop_last() =~= src.subrange(0, i));
    lemma_newlines_bound(src.subrange(0, i + 1));
}

/// A classified lexical unit. `start` and `length` locate it in the source,
/// in characters; `message` is set on error tokens only.
#[derive(Clone, Debug, PartialEq, Eq)]
pub struct Token {
    pub ttype: TokenType,
    pub start: usize,
    pub length: usize,
    pub line: usize,
    pub message: Option<String>,
}

/// Scans a borrowed source text; `start` marks the beginning of the token
/// being scanned and `current` the next character to read.
pub struct Scanner<'a> {
    pub source: &'a str,
    end: usize,
    start: usize,
    current: usize,
    line: usize,
}

impl Token {
    fn new(ttype: TokenType, scanner: &Scanner) -> (r: Token)
        requires
            scanner.start <= scanner.current,
        ensures
            r.ttype == ttype,
            r.start == scanner.start,
            r.length == scanner.current - scanner.start,
            r.line == scanner.line,
            r.message.is_none(),
    {
        Token {
            ttype,
            start: scanner.start,
            length: scanner.current - scanner.start,
            line: scanner.line,
            message: None,
        }
    }

    fn new_error(message: &str, scanner: &Scanner) -> (r: Token)
        requires
            scanner.start <= scanner.current,
        ensures
            r.ttype == TokenType::TokenError,
            r.start == scanner.start,
            r.length == scanner.current - scanner.start,
            r.line == scanner.line,
            r.message.is_some(),
            r.message.unwrap()@ == message@,
    {
        Token {
            ttype: TokenType::TokenError,
            start: scanner.start,
            length: scanner.current - scanner.start,
            line: scanner.line,
            message: Some(message.to_owned()),
        }
    }
}

impl<'a> Scanner<'a> {
    /// The characters of the source text.
    pub closed spec fn text(&self) -> Seq<char> {
        self.source@
    }

    /// Position of the next character to read.
    pub closed spec fn position(&self) -> int {
        self.current as int
    }

    /// The scanner's fields agree with its source text.
    pub closed spec fn wf(&self) -> bool {
        &&& self.end as int == self.source@.len()
        &&& self.end < usize::MAX
        &&& self.start <= self.current <= self.end
        &&& self.line as int == line_at(self.source@, self.current as int)
    }

    /// A scanner at the beginning of `source`.
    pub fn new(source: &'a str) -> (r: Scanner<'a>)
        requires
            source@.len() < usize::MAX,
        ensures
            r.wf(),
            r.text() == source@,
            r.position() == 0,
    {
        let end = source.unicode_len();
        let r = Scanner { source, end, start: 0, current: 0, line: 1 };
        assert(source@.subrange(0, 0) =~= Seq::<char>::empty());
        r
    }

    /// Scans and returns the next token. Trivia before it is skipped; at the
    /// end of the text every call returns an end-of-stream token.
    pub fn scan_token(&mut self) -> (tok: Token)
        requires
            old(self).wf(),
        ensures
            final(self).wf(),
            final(self).text() == old(self).text(),
            is_next_token(old(self).text(), old(self).position(), tok),
            final(self).position() == tok.start + tok.length,
            (tok.ttype == TokenType::TokenEOF) == (skip_trivia(old(self).text(), old(self).position())
                == old(self).text().len()),
            old(self).position() <= tok.start,
            tok.start + tok.length <= old(self).text().len(),
            tok.ttype != TokenType::TokenEOF ==> final(self).position() > old(self).position(),
            tok.ttype == TokenType::TokenEOF ==> tok.length == 0 && final(self).position()
                == old(self).text().len(),
    {
        self.skip_whitespace();
        self.start = self.current;
        if self.is_at_end() {
            return Token::new(TokenType::TokenEOF, self);
        }
        proof {
            lemma_line_step(self.source@, self.current as int);
        }
        let c: char = self.advance();
        if self.is_alpha(c) {
            return self.identifier();
        }
        if self.is_digit(c) {
            return self.number();
        }
        if c == '!' || c == '=' || c == '<' || c == '>' {
            if self.current < self.end {
                proof {
                    lemma_line_step(self.source@, self.current as int);
                }
            }
            let two = self.match_current('=');
            let ttype = match c {
                '!' => if two {
                    TokenType::TokenBangEqual
                } else {
                    TokenType::TokenBang
                },
                '=' => if two {
                    TokenType::TokenEqualEqual
                } else {
                    TokenType::TokenEqual
                },
                '<' => if two {
                    TokenType::TokenLessEqual
                } else {
                    TokenType::TokenLess
                },
                _ => if two {
                    TokenType::TokenGreaterEqual
                } else {
                    TokenType::TokenGreater
                },
            };
            return Token::new(ttype, self);
        }
        match c {
            '(' => Token::new(TokenType::TokenLeftParen, self),
            ')' => Token::new(TokenType::TokenRightParen, self),
            '{' => Token::new(TokenType::TokenLeftBrace, self),
            '}' => Token::new(TokenType::TokenRightBrace, self),
            ';' => Token::new(TokenType::TokenSemicolon, self),
            ',' => Token::new(TokenType::TokenComma, self),
            '.' => Token::new(TokenType::TokenDot, self),
            '-' => Token::new(TokenType::TokenMinus, self),
            '+' => Token::new(TokenType::TokenPlus, self),
            '/' => Token::new(TokenType::TokenSlash, self),
            '*' => Token::new(TokenType::TokenStar, self),
            '"' => self.string(),
            _ => Token::new_error("Unexpected character.", self),
        }
    }

    fn is_at_end(&self) -> (r: bool)
        requires
            self.current <= self.end,
        ensures
            r == (self.current == self.end),
    {
        self.current == self.end
    }

    fn advance(&mut self) -> (c: char)
        requires
            old(self).current < old(self).end,
            old(self).end as int == old(self).source@.len(),
        ensures
            c == old(self).source@[old(self).current as int],
            *final(self) == (Scanner { current: (old(self).current + 1) as usize, ..*old(self) }),
    {
        self.current += 1;
        self.source.get_char(self.current - 1)
    }

    fn match_current(&mut self, expected: char) -> (r: bool)
        requires
            old(self).current <= old(self).end,
            old(self).end as int == old(self).source@.len(),
        ensures
            r == (old(self).current < old(self).end && old(self).source@[old(self).current as int]
                == expected),
            *final(self) == (Scanner {
                current: if r {
                    (old(self).current + 1) as usize
                } else {
                    old(self).current
                },
                ..*old(self)
            }),
    {
        if self.is_at_end() {
            return false;
        }
        if self.source.get_char(self.current) != expected {
            return false;
        }
        self.current += 1;
        true
    }

    fn peek(&self) -> (c: char)
        requires
            self.current <= self.end,
            self.end as int == self.source@.len(),
        ensures
            c == if self.current < self.end {
                self.source@[self.current as int]
            } else {
                '\0'
            },
    {
        if self.is_at_end() {
            '\0'
        } else {
            self.source.get_char(self.current)
        }
    }

    fn peek_next(&self) -> (c: char)
        requires
            self.current <= self.end,
            self.end as int == self.source@.len(),
        ensures
            c == if self.current + 1 < self.end {
                self.source@[self.current + 1]
            } else {
                '\0'
            },
    {
        if self.end - self.current <= 1 {
            '\0'
        } else {
            self.source.get_char(self.current + 1)
        }
    }

    fn is_digit(&self, c: char) -> (r: bool)
        ensures
            r == is_digit_char(c),
    {
        c >= '0' && c <= '9'
    }

    fn is_alpha(&self, c: char) -> (r: bool)
        ensures
            r == is_alpha_char(c),
    {
        c >= 'a' && c <= 'z' || c >= 'A' && c <= 'Z' || c == '_'
    }

    /// Moves past blanks, newlines and line comments.
    fn skip_whitespace(&mut self)
        requires
            old(self).wf(),
        ensures
            final(self).wf(),
            final(self).source == old(self).source,
            final(self).start == old(self).start,
            final(self).current == skip_trivia(old(self).source@, old(self).current as int),
            final(self).current >= old(self).current,
            final(self).current < final(self).end ==> !is_blank_char(
                final(self).source@[final(self).current as int],
            ),
    {
        loop
            invariant
                self.wf(),
                self.source == old(self).source,
                self.start == old(self).start,
                self.current >= old(self).current,
                skip_trivia(self.source@, self.current as int) == skip_trivia(old(self).source@, old(self).current as int),
            decreases self.end - self.current,
        {
            let ghost before = self.current;
            let c = self.peek();
            if c == ' ' || c == '\r' || c == '\t' {
                proof {
                    lemma_line_step(self.source@, self.current as int);
                }
                self.advance();
            } else if c == '\n' {
                proof {
                    lemma_line_step(self.source@, self.current as int);
                }
                self.line += 1;
                self.advance();
            } else if c == '/' {
                if self.peek_next() == '/' {
                    proof {
                        lemma_line_step(self.source@, self.current as int);
                        lemma_line_step(self.source@, self.current + 1);
                    }
                    self.advance();
                    self.advance();
                    while self.peek() != '\n' && !self.is_at_end()
                        invariant
                            self.wf(),
                            self.source == old(self).source,
                            self.start == old(self).start,
                            self.current > before,
                            before >= old(self).current,
                            skip_comment(self.source@, self.current as int) == skip_trivia(old(self).source@, old(self).current as int),
                        decreases self.end - self.current,
                    {
                        proof {
                            lemma_line_step(self.source@, self.current as int);
                        }
                        self.advance();
                    }
                } else {
                    assert(skip_trivia(self.source@, self.current as int) == self.current);
                    return;
                }
            } else {
                assert(skip_trivia(self.source@, self.current as int) == self.current);
                return;
            }
        }
    }

    /// Scans the rest of a string literal whose opening quote was consumed.
    fn string(&mut self) -> (r: Token)
        requires
            old(self).wf(),
            old(self).current == old(self).start + 1,
            old(self).source@[old(self).start as int] == '"',
        ensures
            final(self).wf(),
            final(self).source == old(self).source,
            final(self).current >= old(self).current,
            final(self).start == old(self).start,
            final(self).current == lex_at(old(self).source@, old(self).start as int).1,
            r.ttype == lex_at(old(self).source@, old(self).start as int).0,
            r.start == final(self).start,
            r.length == final(self).current - final(self).start,
            r.line == final(self).line,
            r.message.is_some() == (r.ttype == TokenType::TokenError),
            r.message.is_some() ==> r.message.unwrap()@ == error_message(
                old(self).source@,
                old(self).start as int,
            ),
    {
        let ghost e = string_end(self.source@, self.current as int);
        while self.peek() != '"' && !self.is_at_end()
            invariant
                self.wf(),
                self.source == old(self).source,
                self.start == old(self).start,
                self.current > self.start,
                string_end(self.source@, self.current as int) == e,
            decreases self.end - self.current,
        {
            proof {
                lemma_line_step(self.source@, self.current as int);
            }
            if self.peek() == '\n' {
                self.line += 1;
            }
            self.advance();
        }
        if self.is_at_end() {
            return Token::new_error("Unterminated string.", self);
        }
        proof {
            lemma_line_step(self.source@, self.current as int);
        }
        self.advance();
        Token::new(TokenType::TokenString, self)
    }

    /// Scans the rest of a number literal whose first digit was consumed.
    fn number(&mut self) -> (r: Token)
        requires
            old(self).wf(),
            old(self).current == old(self).start + 1,
            is_digit_char(old(self).source@[old(self).start as int]),
        ensures
            final(self).wf(),
            final(self).source == old(self).source,
            final(self).current >= old(self).current,
            final(self).start == old(self).start,
            final(self).current == number_end(old(self).source@, old(self).start as int),
            r.ttype == TokenType::TokenNumber,
            r.start == final(self).start,
            r.length == final(self).current - final(self).start,
            r.line == final(self).line,
            r.message.is_none(),
    {
        while self.is_digit(self.peek())
            invariant
                self.wf(),
                self.source == old(self).source,
                self.start == old(self).start,
                self.current > self.start,
                digits_end(self.source@, self.current as int) == digits_end(
                    self.source@,
                    self.start as int,
                ),
            decreases self.end - self.current,
        {
            proof {
                lemma_line_step(self.source@, self.current as int);
            }
            self.advance();
        }
        assert(digits_end(self.source@, self.current as int) == self.current);
        // A fraction part needs a digit after the dot.
        if self.peek() == '.' && self.is_digit(self.peek_next()) {
            proof {
                lemma_line_step(self.source@, self.current as int);
            }
            self.advance();
            let ghost f = self.current as int;
            while self.is_digit(self.peek())
                invariant
                    self.wf(),
                    self.source == old(self).source,
                    self.start == old(self).start,
                    self.current >= f,
                    digits_end(self.source@, self.current as int) == digits_end(self.source@, f),
                decreases self.end - self.current,
            {
                proof {
                    lemma_line_step(self.source@, self.current as int);
                }
                self.advance();
            }
            assert(digits_end(self.source@, self.current as int) == self.current);
        }
        Token::new(TokenType::TokenNumber, self)
    }

    /// Scans the rest of an identifier or keyword whose first letter was
    /// consumed.
    fn identifier(&mut self) -> (r: Token)
        requires
            old(self).wf(),
            old(self).current == old(self).start + 1,
        ensures
            final(self).wf(),
            final(self).source == old(self).source,
            final(self).current >= old(self).current,
            final(self).start == old(self).start,
            final(self).current == ident_end(old(self).source@, old(self).current as int),
            r.ttype == keyword_kind(
                old(self).source@.subrange(old(self).start as int, final(self).current as int),
            ),
            r.start == final(self).start,
            r.length == final(self).current - final(self).start,
            r.line == final(self).line,
            r.message.is_none(),
    {
        while self.is_alpha(self.peek()) || self.is_digit(self.peek())
            invariant
                self.wf(),
                self.source == old(self).source,
                self.start == old(self).start,
                self.current > self.start,
                ident_end(self.source@, self.current as int) == ident_end(
                    self.source@,
                    old(self).current as int,
                ),
            decreases self.end - self.current,
        {
            proof {
                lemma_line_step(self.source@, self.current as int);
            }
            self.advance();
        }
        assert(ident_end(self.source@, self.current as int) == self.current);
        Token::new(self.identifier_type(), self)
    }

    /// The keyword kind of the current word, or the identifier kind.
    fn identifier_type(&self) -> (r: TokenType)
        requires
            self.wf(),
            self.start < self.current,
        ensures
            r == keyword_kind(self.source@.subrange(self.start as int, self.current as int)),
    {
        let ghost w = self.source@.subrange(self.start as int, self.current as int);
        let c = self.source.get_char(self.start);
        assert(w[0] == c);
        proof {
            lemma_keyword_exact(w);
        }
        match c {
            'a' => {
                proof {
                    reveal_strlit("nd");
                }
                let r = self.check_keyword(1, 2, "nd", TokenType::TokenAnd);
                proof {
                    lemma_keyword_arm(w, TokenType::TokenAnd, 1, "nd"@, r);
                }
                r
            },
            'c' => {
                proof {
                    reveal_strlit("lass");
                }
                let r = self.check_keyword(1, 4, "lass", TokenType::TokenClass);
                proof {
                    lemma_keyword_arm(w, TokenType::TokenClass, 1, "lass"@, r);
                }
                r
            },
            'e' => {
                proof {
                    reveal_strlit("lse");
                }
                let r = self.check_keyword(1, 3, "lse", TokenType::TokenElse);
                proof {
                    lemma_keyword_arm(w, TokenType::TokenElse, 1, "lse"@, r);
                }
                r
            },
            'f' => {
                if self.current - self.start > 1 {
                    let c2 = self.source.get_char(self.start + 1);
                    assert(w[1] == c2);
                    match c2 {
                        'a' => {
                            proof {
                                reveal_strlit("lse");
                            }
                            let r = self.check_keyword(2, 3, "lse", TokenType::TokenFalse);
                            proof {
                                lemma_keyword_arm(w, TokenType::TokenFalse, 2, "lse"@, r);
                            }
                            r
                        },
                        'o' => {
                            proof {
                                reveal_strlit("r");
                            }
                            let r = self.check_keyword(2, 1, "r", TokenType::TokenFor);
                            proof {
                                lemma_keyword_arm(w, TokenType::TokenFor, 2, "r"@, r);
                            }
                            r
                        },
                        'u' => {
                            proof {
                                reveal_strlit("n");
                            }
                            let r = self.check_keyword(2, 1, "n", TokenType::TokenFun);
                            proof {
                                lemma_keyword_arm(w, TokenType::TokenFun, 2, "n"@, r);
                            }
                            r
                        },
                        _ => TokenType::TokenIdentifier,
                    }
                } else {
                    TokenType::TokenIdentifier
                }
            },
            'i' => {
                proof {
                    reveal_strlit("f");
                }
                let r = self.check_keyword(1, 1, "f", TokenType::TokenIf);
                proof {
                    lemma_keyword_arm(w, TokenType::TokenIf, 1, "f"@, r);
                }
                r
            },
            'n' => {
                proof {
                    reveal_strlit("il");
                }
                let r = self.check_keyword(1, 2, "il", TokenType::TokenNil);
                proof {
                    lemma_keyword_arm(w, TokenType::TokenNil, 1, "il"@, r);
                }
                r
            },
            'o' => {
                proof {
                    reveal_strlit("r");
                }
                let r = self.check_keyword(1, 1, "r", TokenType::TokenOr);
                proof {
                    lemma_keyword_arm(w, TokenType::TokenOr, 1, "r"@, r);
                }
                r
            },
            'p' => {
                proof {
                    reveal_strlit("rint");
                }
                let r = self.check_keyword(1, 4, "rint", TokenType::TokenPrint);
                proof {
                    lemma_keyword_arm(w, TokenType::TokenPrint, 1, "rint"@, r);
                }
                r
            },
            'r' => {
                proof {
                    reveal_strlit("eturn");
                }
                let r = self.check_keyword(1, 5, "eturn", TokenType::TokenReturn);
                proof {
                    lemma_keyword_arm(w, TokenType::TokenReturn, 1, "eturn"@, r);
                }
                r
            },
            's' => {
                proof {
                    reveal_strlit("uper");
                }
                let r = self.check_keyword(1, 4, "uper", TokenType::TokenSuper);
                proof {
                    lemma_keyword_arm(w, TokenType::TokenSuper, 1, "uper"@, r);
                }
                r
            },
            't' => {
                if self.current - self.start > 1 {
                    let c2 = self.source.get_char(self.start + 1);
                    assert(w[1] == c2);
                    match c2 {
                        'h' => {
                            proof {
                                reveal_strlit("is");
                            }
                            let r = self.check_keyword(2, 2, "is", TokenType::TokenThis);
                            proof {
                                lemma_keyword_arm(w, TokenType::TokenThis, 2, "is"@, r);
                            }
                            r
                        },
                        'r' => {
                            proof {
                                reveal_strlit("ue");
                            }
                            let r = self.check_keyword(2, 2, "ue", TokenType::TokenTrue);
                            proof {
                                lemma_keyword_arm(w, TokenType::TokenTrue, 2, "ue"@, r);
                            }
                            r
                        },
                        _ => TokenType::TokenIdentifier,
                    }
                } else {
                    TokenType::TokenIdentifier
                }
            },
            'v' => {
                proof {
                    reveal_strlit("ar");
                }
                let r = self.check_keyword(1, 2, "ar", TokenType::TokenVar);
                proof {
                    lemma_keyword_arm(w, TokenType::TokenVar, 1, "ar"@, r);
                }
                r
            },
            'w' => {
                proof {
                    reveal_strlit("hile");
                }
                let r = self.check_keyword(1, 4, "hile", TokenType::TokenWhile);
                proof {
                    lemma_keyword_arm(w, TokenType::TokenWhile, 1, "hile"@, r);
                }
                r
            },
            _ => TokenType::TokenIdentifier,
        }
    }

    /// `ttype` when the current word is its first `start` characters followed
    /// by exactly `rest`, else the identifier kind.
    fn check_keyword(&self, start: usize, length: usize, rest: &str, ttype: TokenType) -> (r:
        TokenType)
        requires
            self.wf(),
            rest@.len() == length,
        ensures
            ({
                let w = self.source@.subrange(self.start as int, self.current as int);
                r == if w.len() == start + length && w.subrange(start as int, w.len() as int)
                    == rest@ {
                    ttype
                } else {
                    TokenType::TokenIdentifier
                }
            }),
    {
        let ghost w = self.source@.subrange(self.start as int, self.current as int);
        if self.current - self.start < start || self.current - self.start - start != length {
            return TokenType::TokenIdentifier;
        }
        let mut k: usize = 0;
        while k < length
            invariant
                self.wf(),
                w == self.source@.subrange(self.start as int, self.current as int),
                w.len() == start + length,
                rest@.len() == length,
                k <= length,
                forall|j: int| 0 <= j < k ==> w[start + j] == rest@[j],
            decreases length - k,
        {
            if self.source.get_char(self.start + start + k) != rest.get_char(k) {
                assert(w.subrange(start as int, w.len() as int)[k as int] != rest@[k as int]);
                return TokenType::TokenIdentifier;
            }
            k += 1;
        }
        assert(w.subrange(start as int, w.len() as int) =~= rest@);
        ttype
    }
}

/// One branch of keyword recognition: `w` starts like the keyword of `t` on its
/// first `start` characters (two for the words that start with `f` or `t`, as
/// several keywords do; one otherwise), and `r` is `t` exactly when the rest of
/// `w` is `rest`, the rest of that keyword. Then `r` is the kind of `w`.
proof fn lemma_keyword_arm(w: Seq<char>, t: TokenType, start: int, rest: Seq<char>, r: TokenType)
    requires
        keyword_text(t).len() > 0,
        0 < start <= w.len(),
        start <= keyword_text(t).len(),
        start == 2 || !(w[0] == 'f' || w[0] == 't'),
        forall|i: int| 0 <= i < start ==> w[i] == keyword_text(t)[i],
        rest =~= keyword_text(t).subrange(start, keyword_text(t).len() as int),
        r == if w.len() == start + rest.len() && w.subrange(start, w.len() as int) == rest {
            t
        } else {
            TokenType::TokenIdentifier
        },
    ensures
        r == keyword_kind(w),
{
    lemma_keyword_split(w, keyword_text(t), start);
    lemma_keyword_exact(w);
    match t {
        TokenType::TokenAnd => {},
        TokenType::TokenClass => {},
        TokenType::TokenElse => {},
        TokenType::TokenFalse => {},
        TokenType::TokenFor => {},
        TokenType::TokenFun => {},
        TokenType::TokenIf => {},
        TokenType::TokenNil => {},
        TokenType::TokenOr => {},
        TokenType::TokenPrint => {},
        TokenType::TokenReturn => {},
        TokenType::TokenSuper => {},
        TokenType::TokenThis => {},
        TokenType::TokenTrue => {},
        TokenType::TokenVar => {},
        TokenType::TokenWhile => {},
        _ => {},
    }
}

/// A word that agrees with `kw` on its first `start` characters equals it
/// exactly when the remaining characters agree too.
proof fn lemma_keyword_split(w: Seq<char>, kw: Seq<char>, start: int)
    requires
        0 < start <= w.len(),
        start <= kw.len(),
        forall|i: int| 0 <= i < start ==> w[i] == kw[i],
    ensures
        (w == kw) == (w.len() == kw.len() && w.subrange(start, w.len() as int) == kw.subrange(
            start,
            kw.len() as int,
        )),
{
    if w.len() == kw.len() && w.subrange(start, w.len() as int) == kw.subrange(
        start,
        kw.len() as int,
    ) {
        assert forall|i: int| 0 <= i < w.len() implies w[i] == kw[i] by {
            if i >= start {
                assert(w[i] == w.subrange(start, w.len() as int)[i - start]);
            }
        }
        assert(w =~= kw);
    }
}

/// The end of the text is a terminal state: scanning from there yields an
/// end-of-stream token of length zero and stays there, however often it is
/// repeated.
pub proof fn lemma_end_of_stream_repeats(src: Seq<char>)
    ensures
        skip_trivia(src, src.len() as int) == src.len(),
        lex_at(src, src.len() as int) == (TokenType::TokenEOF, src.len() as int),
{
}

proof fn lemma_runs_in_bounds(src: Seq<char>, i: int)
    requires
        0 <= i <= src.len(),
    ensures
        i <= digits_end(src, i) <= src.len(),
        i <= ident_end(src, i) <= src.len(),
        i <= string_end(src, i) <= src.len(),
    decreases src.len() - i,
{
    if i < src.len() {
        lemma_runs_in_bounds(src, i + 1);
    }
}

proof fn lemma_skip_trivia_in_bounds(src: Seq<char>, i: int)
    requires
        0 <= i <= src.len(),
    ensures
        i <= skip_trivia(src, i) <= src.len(),
    decreases src.len() - i, 0int,
{
    if i < src.len() {
        if is_blank_char(src[i]) {
            lemma_skip_trivia_in_bounds(src, i + 1);
        } else if src[i] == '/' && i + 1 < src.len() && src[i + 1] == '/' {
            lemma_skip_comment_in_bounds(src, i + 2);
        }
    }
}

proof fn lemma_skip_comment_in_bounds(src: Seq<char>, i: int)
    requires
        0 <= i <= src.len(),
    ensures
        i <= skip_comment(src, i) <= src.len(),
    decreases src.len() - i, 1int,
{
    if i < src.len() && src[i] != '\n' {
        lemma_skip_comment_in_bounds(src, i + 1);
    } else {
        lemma_skip_trivia_in_bounds(src, i);
    }
}

/// A token that starts inside the text ends after its start and within the
/// text; only at the end of the text is it the end-of-stream token.
proof fn lemma_lex_in_bounds(src: Seq<char>, s: int)
    requires
        0 <= s <= src.len(),
    ensures
        s < src.len() ==> s < lex_at(src, s).1 <= src.len() && lex_at(src, s).0
            != TokenType::TokenEOF,
        s == src.len() ==> lex_at(src, s) == (TokenType::TokenEOF, s),
{
    if s < src.len() {
        lemma_runs_in_bounds(src, s + 1);
        let e = digits_end(src, s);
        if is_digit_char(src[s]) {
            assert(e == digits_end(src, s + 1));
            if e + 1 < src.len() {
                lemma_runs_in_bounds(src, e + 1);
            }
        }
    }
}

/// Where the scanner stands after `k` calls of `scan_token` from the start of
/// the text: each call skips trivia and reads one token.
pub open spec fn position_after(src: Seq<char>, k: nat) -> int
    decreases k,
{
    if k == 0 {
        0
    } else {
        lex_at(src, skip_trivia(src, position_after(src, (k - 1) as nat))).1
    }
}

/// Scanning a text of `n` characters from its start reaches the end of the
/// stream within `n + 1` calls: after `k` calls the scanner has moved past at
/// least `k` characters or stands at the end, so the call made from
/// `position_after(src, n)` returns the end-of-stream token, as every later
/// call does. Every token read on the way lies within the text.
pub proof fn lemma_scan_reaches_end(src: Seq<char>)
    ensures
        forall|k: nat|
            #![trigger position_after(src, k)]
            0 <= position_after(src, k) <= src.len() && (k <= position_after(src, k)
                || position_after(src, k) == src.len()),
        position_after(src, src.len()) == src.len(),
        lex_at(src, skip_trivia(src, position_after(src, src.len()))).0 == TokenType::TokenEOF,
{
    assert forall|k: nat|
        #![trigger position_after(src, k)]
        0 <= position_after(src, k) <= src.len() && (k <= position_after(src, k)
            || position_after(src, k) == src.len()) by {
        lemma_position_after(src, k);
    }
    lemma_position_after(src, src.len());
    lemma_end_of_stream_repeats(src);
}

proof fn lemma_position_after(src: Seq<char>, k: nat)
    ensures
        0 <= position_after(src, k) <= src.len(),
        position_after(src, k) >= k || position_after(src, k) == src.len(),
    decreases k,
{
    if k > 0 {
        let p = position_after(src, (k - 1) as nat);
        lemma_position_after(src, (k - 1) as nat);
        lemma_skip_trivia_in_bounds(src, p);
        lemma_lex_in_bounds(src, skip_trivia(src, p));
    }
}

} // verus!
