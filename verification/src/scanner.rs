//! The scanner, which cuts a source text into tokens, and the definition
//! of what the tokens of a text are.
use vstd::prelude::*;
use vstd::slice::slice_subrange;
use vstd::string::StringSliceAdditionalSpecFns;
use crate::bytes::bytes_equal;
use crate::token::{Token, TokenType};

verus! {

// The ASCII codes of the bytes that the scanner knows.
pub const SPACE: u8 = 32;

pub const CARRIAGE_RETURN: u8 = 13;

pub const TAB: u8 = 9;

pub const LINE_FEED: u8 = 10;

pub const SLASH: u8 = 47;

pub const QUOTE: u8 = 34;

pub const LEFT_PAREN: u8 = 40;

pub const RIGHT_PAREN: u8 = 41;

pub const LEFT_BRACE: u8 = 123;

pub const RIGHT_BRACE: u8 = 125;

pub const COMMA: u8 = 44;

pub const DOT: u8 = 46;

pub const MINUS: u8 = 45;

pub const PLUS: u8 = 43;

pub const SEMICOLON: u8 = 59;

pub const STAR: u8 = 42;

pub const BANG: u8 = 33;

pub const EQUAL: u8 = 61;

pub const LESS: u8 = 60;

pub const GREATER: u8 = 62;

pub const DIGIT_0: u8 = 48;

pub const DIGIT_9: u8 = 57;

pub const LOWER_A: u8 = 97;

pub const LOWER_Z: u8 = 122;

pub const UPPER_A: u8 = 65;

pub const UPPER_Z: u8 = 90;

pub const UNDERSCORE: u8 = 95;

/// Whether the byte is a decimal digit.
pub open spec fn digit(c: u8) -> bool {
    DIGIT_0 <= c <= DIGIT_9
}

/// Whether the byte can start an identifier: a letter or an underscore.
pub open spec fn alpha(c: u8) -> bool {
    (LOWER_A <= c <= LOWER_Z) || (UPPER_A <= c <= UPPER_Z) || c == UNDERSCORE
}

/// Whether the byte can continue an identifier.
pub open spec fn alphanumeric(c: u8) -> bool {
    alpha(c) || digit(c)
}

/// Whether the byte is white space.
pub open spec fn blank(c: u8) -> bool {
    c == SPACE || c == CARRIAGE_RETURN || c == TAB || c == LINE_FEED
}

/// The number of line feeds in `src[from..to]`.
pub open spec fn newlines(src: Seq<u8>, from: int, to: int) -> nat
    decreases to - from,
{
    if to <= from || to > src.len() || from < 0 {
        0
    } else {
        newlines(src, from, to - 1) + if src[to - 1] == LINE_FEED {
            1nat
        } else {
            0nat
        }
    }
}

/// A line number moved on by `n` lines; it stops at the largest number a
/// machine word holds.
pub open spec fn bump(line: int, n: nat) -> int {
    if line + n <= usize::MAX {
        line + n
    } else {
        usize::MAX as int
    }
}

/// Where the input that matters goes on: the first position at or after
/// `pos` that is neither white space nor inside a `//` comment.
pub open spec fn skip(src: Seq<u8>, pos: int) -> int
    decreases src.len() - pos, 0nat,
{
    if pos < 0 || pos >= src.len() {
        pos
    } else if blank(src[pos]) {
        skip(src, pos + 1)
    } else if src[pos] == SLASH && pos + 1 < src.len() && src[pos + 1] == SLASH {
        skip_comment(src, pos + 2)
    } else {
        pos
    }
}

/// The same from inside a comment, which runs up to the end of its line.
pub open spec fn skip_comment(src: Seq<u8>, pos: int) -> int
    decreases src.len() - pos, 1nat,
{
    if 0 <= pos < src.len() && src[pos] != LINE_FEED {
        skip_comment(src, pos + 1)
    } else {
        skip(src, pos)
    }
}

/// The end of the run of digits that starts at `pos`.
pub open spec fn digits_end(src: Seq<u8>, pos: int) -> int
    decreases src.len() - pos,
{
    if 0 <= pos < src.len() && digit(src[pos]) {
        digits_end(src, pos + 1)
    } else {
        pos
    }
}

/// The end of the run of identifier bytes that starts at `pos`.
pub open spec fn word_end(src: Seq<u8>, pos: int) -> int
    decreases src.len() - pos,
{
    if 0 <= pos < src.len() && alphanumeric(src[pos]) {
        word_end(src, pos + 1)
    } else {
        pos
    }
}

/// The position of the first double quote at or after `pos`, or the end
/// of the input if there is none.
pub open spec fn quote_at(src: Seq<u8>, pos: int) -> int
    decreases src.len() - pos,
{
    if 0 <= pos < src.len() && src[pos] != QUOTE {
        quote_at(src, pos + 1)
    } else {
        pos
    }
}

/// The kind of token that a word is: the keyword that it spells, or an
/// identifier.
pub open spec fn keyword_kind(word: Seq<u8>) -> TokenType {
    if word == "and".spec_bytes() {
        TokenType::And
    } else if word == "class".spec_bytes() {
        TokenType::Class
    } else if word == "else".spec_bytes() {
        TokenType::Else
    } else if word == "false".spec_bytes() {
        TokenType::False
    } else if word == "for".spec_bytes() {
        TokenType::For
    } else if word == "fun".spec_bytes() {
        TokenType::Fun
    } else if word == "if".spec_bytes() {
        TokenType::If
    } else if word == "nil".spec_bytes() {
        TokenType::Nil
    } else if word == "or".spec_bytes() {
        TokenType::Or
    } else if word == "print".spec_bytes() {
        TokenType::Print
    } else if word == "return".spec_bytes() {
        TokenType::Return
    } else if word == "super".spec_bytes() {
        TokenType::Super
    } else if word == "this".spec_bytes() {
        TokenType::This
    } else if word == "true".spec_bytes() {
        TokenType::True
    } else if word == "var".spec_bytes() {
        TokenType::Var
    } else if word == "while".spec_bytes() {
        TokenType::While
    } else {
        TokenType::Identifier
    }
}

/// The kind of an operator that may be followed by `=`: `alone` when it
/// is not, `with_equal` when it is; and where the token ends.
pub open spec fn one_or_two(
    src: Seq<u8>,
    start: int,
    alone: TokenType,
    with_equal: TokenType,
) -> (TokenType, int) {
    if start + 1 < src.len() && src[start + 1] == EQUAL {
        (with_equal, start + 2)
    } else {
        (alone, start + 1)
    }
}

/// The token that starts at `start`, a position that [`skip`] has
/// reached: its kind and the position just past it.
///
/// A number is a run of digits, and may go on with a dot and one more run
/// of digits. A string runs from one double quote to the next; without a
/// closing quote it is an error that takes the rest of the input. A byte
/// that starts no token is an error of one byte.
pub open spec fn lex_at(src: Seq<u8>, start: int) -> (TokenType, int) {
    if start < 0 || start >= src.len() {
        (TokenType::Eof, start)
    } else {
        let c = src[start];
        if c == LEFT_PAREN {
            (TokenType::LeftParen, start + 1)
        } else if c == RIGHT_PAREN {
            (TokenType::RightParen, start + 1)
        } else if c == LEFT_BRACE {
            (TokenType::LeftBrace, start + 1)
        } else if c == RIGHT_BRACE {
            (TokenType::RightBrace, start + 1)
        } else if c == COMMA {
            (TokenType::Comma, start + 1)
        } else if c == DOT {
            (TokenType::Dot, start + 1)
        } else if c == MINUS {
            (TokenType::Minus, start + 1)
        } else if c == PLUS {
            (TokenType::Plus, start + 1)
        } else if c == SEMICOLON {
            (TokenType::Semicolon, start + 1)
        } else if c == STAR {
            (TokenType::Star, start + 1)
        } else if c == SLASH {
            (TokenType::Slash, start + 1)
        } else if c == BANG {
            one_or_two(src, start, TokenType::Bang, TokenType::BangEqual)
        } else if c == EQUAL {
            one_or_two(src, start, TokenType::Equal, TokenType::EqualEqual)
        } else if c == LESS {
            one_or_two(src, start, TokenType::Less, TokenType::LessEqual)
        } else if c == GREATER {
            one_or_two(src, start, TokenType::Greater, TokenType::GreaterEqual)
        } else if c == QUOTE {
            let close = quote_at(src, start + 1);
            if close >= src.len() {
                (TokenType::Error, src.len() as int)
            } else {
                (TokenType::String, close + 1)
            }
        } else if digit(c) {
            let whole = digits_end(src, start + 1);
            if whole + 1 < src.len() && src[whole] == DOT && digit(src[whole + 1]) {
                (TokenType::Number, digits_end(src, whole + 2))
            } else {
                (TokenType::Number, whole)
            }
        } else if alpha(c) {
            let end = word_end(src, start + 1);
            (keyword_kind(src.subrange(start, end)), end)
        } else {
            (TokenType::Error, start + 1)
        }
    }
}

/// The lexeme of the token that starts at `start`: the bytes of the token,
/// or for an error the message.
pub open spec fn lexeme_at(src: Seq<u8>, start: int) -> Seq<u8> {
    let (kind, end) = lex_at(src, start);
    if kind != TokenType::Error {
        src.subrange(start, end)
    } else if src[start] == QUOTE {
        "Unterminated string.".spec_bytes()
    } else {
        "Unexpected character.".spec_bytes()
    }
}

/// The line feeds inside the token that starts at `start`. Only a string,
/// terminated or not, can hold any.
pub open spec fn lines_within(src: Seq<u8>, start: int) -> nat {
    if 0 <= start < src.len() && src[start] == QUOTE {
        newlines(src, start + 1, lex_at(src, start).1)
    } else {
        0
    }
}

pub proof fn lemma_skip_bounds(src: Seq<u8>, pos: int)
    requires
        0 <= pos <= src.len(),
    ensures
        pos <= skip(src, pos) <= src.len(),
        pos <= skip_comment(src, pos) <= src.len(),
    decreases src.len() - pos, 2nat,
{
    if pos < src.len() {
        lemma_skip_bounds(src, pos + 1);
        if src[pos] == SLASH && pos + 1 < src.len() && src[pos + 1] == SLASH {
            lemma_skip_bounds(src, pos + 2);
        }
    }
}

pub proof fn lemma_run_bounds(src: Seq<u8>, pos: int)
    requires
        0 <= pos <= src.len(),
    ensures
        pos <= digits_end(src, pos) <= src.len(),
        pos <= word_end(src, pos) <= src.len(),
        pos <= quote_at(src, pos) <= src.len(),
    decreases src.len() - pos,
{
    if pos < src.len() {
        lemma_run_bounds(src, pos + 1);
    }
}

/// A token never reaches past the input, and every token but the end of
/// input takes at least one byte.
pub proof fn lemma_lex_bounds(src: Seq<u8>, start: int)
    requires
        0 <= start <= src.len(),
    ensures
        start <= lex_at(src, start).1 <= src.len(),
        lex_at(src, start).0 != TokenType::Eof ==> start < lex_at(src, start).1,
        lex_at(src, start).0 == TokenType::Eof <==> start == src.len(),
{
    if start < src.len() {
        lemma_run_bounds(src, start + 1);
        let whole = digits_end(src, start + 1);
        if whole + 2 <= src.len() {
            lemma_run_bounds(src, whole + 2);
        }
        lemma_keyword_not_eof(src.subrange(start, word_end(src, start + 1)));
    }
}

pub proof fn lemma_keyword_not_eof(word: Seq<u8>)
    ensures
        keyword_kind(word) != TokenType::Eof,
        keyword_kind(word) != TokenType::Error,
{
}

/// Errors that scanning can report, with the line where they were found.
#[derive(Debug)]
pub enum ScanError {
    UnexpectedCharacter(usize),
    UnterminatedString(usize),
}

impl ScanError {
    /// The text of the error: what was found, and the line.
    pub open spec fn text(self) -> Seq<u8> {
        match self {
            ScanError::UnexpectedCharacter(line) => "Unexpected character at line ".spec_bytes()
                + crate::bytes::decimal_digits(line as nat),
            ScanError::UnterminatedString(line) => "Unterminated string at line ".spec_bytes()
                + crate::bytes::decimal_digits(line as nat),
        }
    }

    /// The text of the error.
    pub fn message(&self) -> (text: Vec<u8>)
        ensures
            text@ == self.text(),
    {
        match self {
            ScanError::UnexpectedCharacter(line) => {
                let mut text: Vec<u8> = vstd::slice::slice_to_vec(
                    "Unexpected character at line ".as_bytes(),
                );
                let digits = crate::bytes::decimal(*line);
                crate::bytes::append_bytes(&mut text, digits.as_slice());
                text
            },
            ScanError::UnterminatedString(line) => {
                let mut text: Vec<u8> = vstd::slice::slice_to_vec(
                    "Unterminated string at line ".as_bytes(),
                );
                let digits = crate::bytes::decimal(*line);
                crate::bytes::append_bytes(&mut text, digits.as_slice());
                text
            },
        }
    }
}

/// A scanner over a source text: it hands out the tokens one at a time.
pub struct Scanner<'a> {
    source: &'a [u8],
    start: usize,
    current: usize,
    line: usize,
}

/// Whether the byte is a decimal digit.
#[verifier::when_used_as_spec(digit)]
pub fn is_digit(c: u8) -> (r: bool)
    ensures
        r == digit(c),
{
    DIGIT_0 <= c && c <= DIGIT_9
}

/// Whether the byte can start an identifier.
#[verifier::when_used_as_spec(alpha)]
pub fn is_alpha(c: u8) -> (r: bool)
    ensures
        r == alpha(c),
{
    (LOWER_A <= c && c <= LOWER_Z) || (UPPER_A <= c && c <= UPPER_Z) || c == UNDERSCORE
}

/// Whether the byte can continue an identifier.
#[verifier::when_used_as_spec(alphanumeric)]
pub fn is_alphanumeric(c: u8) -> (r: bool)
    ensures
        r == alphanumeric(c),
{
    is_alpha(c) || is_digit(c)
}

/// The kind of token that a word is.
pub fn keyword(word: &[u8]) -> (kind: TokenType)
    ensures
        kind == keyword_kind(word@),
{
    if bytes_equal(word, "and".as_bytes()) {
        TokenType::And
    } else if bytes_equal(word, "class".as_bytes()) {
        TokenType::Class
    } else if bytes_equal(word, "else".as_bytes()) {
        TokenType::Else
    } else if bytes_equal(word, "false".as_bytes()) {
        TokenType::False
    } else if bytes_equal(word, "for".as_bytes()) {
        TokenType::For
    } else if bytes_equal(word, "fun".as_bytes()) {
        TokenType::Fun
    } else if bytes_equal(word, "if".as_bytes()) {
        TokenType::If
    } else if bytes_equal(word, "nil".as_bytes()) {
        TokenType::Nil
    } else if bytes_equal(word, "or".as_bytes()) {
        TokenType::Or
    } else if bytes_equal(word, "print".as_bytes()) {
        TokenType::Print
    } else if bytes_equal(word, "return".as_bytes()) {
        TokenType::Return
    } else if bytes_equal(word, "super".as_bytes()) {
        TokenType::Super
    } else if bytes_equal(word, "this".as_bytes()) {
        TokenType::This
    } else if bytes_equal(word, "true".as_bytes()) {
        TokenType::True
    } else if bytes_equal(word, "var".as_bytes()) {
        TokenType::Var
    } else if bytes_equal(word, "while".as_bytes()) {
        TokenType::While
    } else {
        TokenType::Identifier
    }
}

impl<'a> Scanner<'a> {
    #[verifier::type_invariant]
    spec fn inv(self) -> bool {
        self.start <= self.current <= self.source@.len()
    }

    /// The bytes of the source text.
    pub closed spec fn text(&self) -> Seq<u8> {
        self.source@
    }

    /// The position of the next byte to read.
    pub closed spec fn position(&self) -> int {
        self.current as int
    }

    /// The position at which the token being read started.
    pub closed spec fn token_start(&self) -> int {
        self.start as int
    }

    /// The line of the next byte to read; the first line is 1.
    pub closed spec fn line_number(&self) -> usize {
        self.line
    }

    /// A scanner at the start of `source`.
    pub fn new(source: &'a str) -> (s: Self)
        ensures
            s.text() == source.spec_bytes(),
            s.position() == 0,
            s.token_start() == 0,
            s.line_number() == 1,
    {
        Scanner::from_bytes(source.as_bytes())
    }

    /// A scanner at the start of `source`.
    pub fn from_bytes(source: &'a [u8]) -> (s: Self)
        ensures
            s.text() == source@,
            s.position() == 0,
            s.token_start() == 0,
            s.line_number() == 1,
    {
        Scanner { source, start: 0, current: 0, line: 1 }
    }

    /// Reads the next token. White space and comments before it are passed
    /// over; the token's line is that of its first byte. At the end of the
    /// input every call returns an end-of-input token.
    pub fn scan_token(&mut self) -> (token: Token<'a>)
        ensures
            final(self).text() == old(self).text(),
            final(self).token_start() == skip(old(self).text(), old(self).position()),
            final(self).position() == lex_at(old(self).text(), final(self).token_start()).1,
            token.token_type == lex_at(old(self).text(), final(self).token_start()).0,
            token.lexeme@ == lexeme_at(old(self).text(), final(self).token_start()),
            token.line == bump(
                old(self).line_number() as int,
                newlines(old(self).text(), old(self).position(), final(self).token_start()),
            ),
            final(self).line_number() == bump(
                token.line as int,
                lines_within(old(self).text(), final(self).token_start()),
            ),
            token.line == bump(
                old(self).line_number() as int,
                newlines(old(self).text(), old(self).position(), final(self).token_start()),
            ),
            old(self).position() <= final(self).token_start() <= final(self).position()
                <= old(self).text().len(),
            token.token_type != TokenType::Eof ==> final(self).token_start()
                < final(self).position(),
            token.token_type == TokenType::Eof ==> final(self).position() == old(self).text().len(),
            old(self).text().len() <= usize::MAX,
            token.token_type == TokenType::String ==> token.lexeme@.len() >= 2,
    {
        proof {
            use_type_invariant(&*self);
            vstd::slice::axiom_spec_len(self.source);
            lemma_skip_bounds(self.text(), self.position());
            lemma_lex_bounds(self.text(), skip(self.text(), self.position()));
        }
        self.skip_whitespace();
        proof {
            use_type_invariant(&*self);
        }
        self.start = self.current;
        let line: usize = self.line;

        if self.is_at_end() {
            let token = self.new_token(TokenType::Eof, line);
            assert(token.lexeme@ =~= lexeme_at(self.text(), self.token_start()));
            return token;
        }
        proof {
            lemma_run_bounds(self.text(), self.start + 1);
            lemma_keyword_not_eof(
                self.text().subrange(self.start as int, word_end(self.text(), self.start + 1)),
            );
        }
        let c: u8 = self.advance();
        if c == LEFT_PAREN {
            self.new_token(TokenType::LeftParen, line)
        } else if c == RIGHT_PAREN {
            self.new_token(TokenType::RightParen, line)
        } else if c == LEFT_BRACE {
            self.new_token(TokenType::LeftBrace, line)
        } else if c == RIGHT_BRACE {
            self.new_token(TokenType::RightBrace, line)
        } else if c == COMMA {
            self.new_token(TokenType::Comma, line)
        } else if c == DOT {
            self.new_token(TokenType::Dot, line)
        } else if c == MINUS {
            self.new_token(TokenType::Minus, line)
        } else if c == PLUS {
            self.new_token(TokenType::Plus, line)
        } else if c == SEMICOLON {
            self.new_token(TokenType::Semicolon, line)
        } else if c == STAR {
            self.new_token(TokenType::Star, line)
        } else if c == SLASH {
            self.new_token(TokenType::Slash, line)
        } else if c == BANG {
            if self.match_byte(EQUAL) {
                self.new_token(TokenType::BangEqual, line)
            } else {
                self.new_token(TokenType::Bang, line)
            }
        } else if c == EQUAL {
            if self.match_byte(EQUAL) {
                self.new_token(TokenType::EqualEqual, line)
            } else {
                self.new_token(TokenType::Equal, line)
            }
        } else if c == LESS {
            if self.match_byte(EQUAL) {
                self.new_token(TokenType::LessEqual, line)
            } else {
                self.new_token(TokenType::Less, line)
            }
        } else if c == GREATER {
            if self.match_byte(EQUAL) {
                self.new_token(TokenType::GreaterEqual, line)
            } else {
                self.new_token(TokenType::Greater, line)
            }
        } else if c == QUOTE {
            self.string(line)
        } else if is_digit(c) {
            self.number(line)
        } else if is_alpha(c) {
            self.identifier(line)
        } else {
            self.scan_error("Unexpected character.", line)
        }
    }

    /// The next token, read as [`Self::scan_token`] reads it, or `None`
    /// once the whole input was read.
    pub fn next(&mut self) -> (token: Option<Token<'a>>)
        ensures
            old(self).position() >= old(self).text().len() ==> token.is_none() && *final(self)
                == *old(self),
            old(self).position() < old(self).text().len() ==> {
                &&& token matches Some(t)
                &&& final(self).text() == old(self).text()
                &&& final(self).token_start() == skip(old(self).text(), old(self).position())
                &&& final(self).position() == lex_at(old(self).text(), final(self).token_start()).1
                &&& t.token_type == lex_at(old(self).text(), final(self).token_start()).0
                &&& t.lexeme@ == lexeme_at(old(self).text(), final(self).token_start())
                &&& t.line == bump(
                    old(self).line_number() as int,
                    newlines(old(self).text(), old(self).position(), final(self).token_start()),
                )
                &&& final(self).line_number() == bump(
                    t.line as int,
                    lines_within(old(self).text(), final(self).token_start()),
                )
            },
    {
        if self.is_at_end() {
            None
        } else {
            Some(self.scan_token())
        }
    }

    /// Takes the next byte.
    fn advance(&mut self) -> (b: u8)
        requires
            old(self).position() < old(self).text().len(),
        ensures
            b == old(self).text()[old(self).position()],
            final(self).position() == old(self).position() + 1,
            final(self).text() == old(self).text(),
            final(self).token_start() == old(self).token_start(),
            final(self).line_number() == old(self).line_number() as int,
    {
        proof {
            use_type_invariant(&*self);
        }
        let b: u8 = self.source[self.current];
        self.current += 1;
        b
    }

    /// Whether the whole input was read.
    fn is_at_end(&self) -> (r: bool)
        ensures
            r == (self.position() >= self.text().len()),
    {
        self.current >= self.source.len()
    }

    /// The next byte, or 0 at the end of the input.
    fn peek(&self) -> (b: u8)
        ensures
            b == if self.position() < self.text().len() {
                self.text()[self.position()]
            } else {
                0
            },
    {
        proof {
            use_type_invariant(self);
        }
        if self.is_at_end() {
            0
        } else {
            self.source[self.current]
        }
    }

    /// The byte after the next, or 0 if there is none.
    fn peek_next(&self) -> (b: u8)
        ensures
            b == if self.position() + 1 < self.text().len() {
                self.text()[self.position() + 1]
            } else {
                0
            },
    {
        proof {
            use_type_invariant(self);
        }
        if self.current >= self.source.len() || self.current + 1 >= self.source.len() {
            0
        } else {
            self.source[self.current + 1]
        }
    }

    /// Takes the next byte if it is the expected one.
    fn match_byte(&mut self, expected: u8) -> (r: bool)
        ensures
            r == (old(self).position() < old(self).text().len()
                && old(self).text()[old(self).position()] == expected),
            final(self).position() == old(self).position() + if r {
                1int
            } else {
                0int
            },
            final(self).text() == old(self).text(),
            final(self).token_start() == old(self).token_start(),
            final(self).line_number() == old(self).line_number() as int,
    {
        proof {
            use_type_invariant(&*self);
        }
        if self.is_at_end() {
            return false;
        }
        if self.source[self.current] != expected {
            return false;
        }
        self.current += 1;
        true
    }

    /// A token of the given kind over the bytes read since the start of
    /// the token.
    fn new_token(&self, token_type: TokenType, line: usize) -> (token: Token<'a>)
        ensures
            token.token_type == token_type,
            token.line == line,
            token.lexeme@ == self.text().subrange(self.token_start(), self.position()),
    {
        proof {
            use_type_invariant(self);
        }
        let lexeme = slice_subrange(self.source, self.start, self.current);
        Token { token_type, lexeme, line }
    }

    /// An error token that carries the message.
    fn scan_error(&self, message: &'static str, line: usize) -> (token: Token<'static>)
        ensures
            token.token_type == TokenType::Error,
            token.line == line,
            token.lexeme@ == message.spec_bytes(),
    {
        Token { token_type: TokenType::Error, lexeme: message.as_bytes(), line }
    }

    /// Moves the line count on by one.
    fn next_line(&mut self)
        ensures
            final(self).line_number() == bump(old(self).line_number() as int, 1),
            final(self).position() == old(self).position(),
            final(self).text() == old(self).text(),
            final(self).token_start() == old(self).token_start(),
    {
        proof {
            use_type_invariant(&*self);
        }
        if self.line < usize::MAX {
            self.line += 1;
        }
    }

    /// Passes over white space and comments.
    fn skip_whitespace(&mut self)
        ensures
            final(self).position() == skip(old(self).text(), old(self).position()),
            final(self).line_number() == bump(
                old(self).line_number() as int,
                newlines(old(self).text(), old(self).position(), final(self).position()),
            ),
            final(self).text() == old(self).text(),
            final(self).token_start() == old(self).token_start(),
    {
        proof {
            use_type_invariant(&*self);
        }
        while !self.is_at_end()
            invariant
                self.text() == old(self).text(),
                self.token_start() == old(self).token_start(),
                old(self).position() <= self.position() <= self.text().len(),
                skip(self.text(), self.position()) == skip(old(self).text(), old(self).position()),
                self.line_number() == bump(
                    old(self).line_number() as int,
                    newlines(self.text(), old(self).position(), self.position()),
                ),
            decreases self.text().len() - self.position(),
        {
            let c: u8 = self.peek();
            if c == SPACE || c == CARRIAGE_RETURN || c == TAB {
                self.advance();
            } else if c == LINE_FEED {
                self.next_line();
                self.advance();
            } else if c == SLASH && self.peek_next() == SLASH {
                // A comment runs to the end of its line.
                let ghost slashes = self.position();
                self.advance();
                proof {
                    assert(newlines(self.text(), old(self).position(), slashes + 1) == newlines(
                        self.text(),
                        old(self).position(),
                        slashes,
                    ));
                }
                self.advance();
                while self.peek() != LINE_FEED && !self.is_at_end()
                    invariant
                        slashes + 2 <= self.position(),
                        self.text() == old(self).text(),
                        self.token_start() == old(self).token_start(),
                        old(self).position() <= self.position() <= self.text().len(),
                        skip_comment(self.text(), self.position()) == skip(
                            old(self).text(),
                            old(self).position(),
                        ),
                        self.line_number() == bump(
                            old(self).line_number() as int,
                            newlines(self.text(), old(self).position(), self.position()),
                        ),
                    decreases self.text().len() - self.position(),
                {
                    self.advance();
                }
            } else {
                return ;
            }
        }
    }

    /// Reads a string up to its closing quote; the opening quote was taken.
    fn string(&mut self, line: usize) -> (token: Token<'a>)
        requires
            old(self).position() == old(self).token_start() + 1,
            old(self).text()[old(self).token_start()] == QUOTE,
            old(self).line_number() == line,
        ensures
            final(self).text() == old(self).text(),
            final(self).token_start() == old(self).token_start(),
            final(self).position() == lex_at(old(self).text(), old(self).token_start()).1,
            token.token_type == lex_at(old(self).text(), old(self).token_start()).0,
            token.lexeme@ == lexeme_at(old(self).text(), old(self).token_start()),
            token.line == line,
            final(self).line_number() == bump(
                line as int,
                lines_within(old(self).text(), old(self).token_start()),
            ),
    {
        proof {
            use_type_invariant(&*self);
        }
        while !self.is_at_end() && self.peek() != QUOTE
            invariant
                self.text() == old(self).text(),
                self.token_start() == old(self).token_start(),
                old(self).position() <= self.position() <= self.text().len(),
                quote_at(self.text(), self.position()) == quote_at(
                    old(self).text(),
                    old(self).position(),
                ),
                self.line_number() == bump(
                    line as int,
                    newlines(self.text(), old(self).position(), self.position()),
                ),
            decreases self.text().len() - self.position(),
        {
            if self.peek() == LINE_FEED {
                self.next_line();
            }
            self.advance();
        }

        if self.is_at_end() {
            return self.scan_error("Unterminated string.", line);
        }
        self.advance();
        proof {
            let src = self.text();
            let close = quote_at(src, old(self).position());
            assert(newlines(src, old(self).position(), close + 1) == newlines(
                src,
                old(self).position(),
                close,
            ));
        }
        self.new_token(TokenType::String, line)
    }

    /// Reads the rest of a number; its first digit was taken.
    fn number(&mut self, line: usize) -> (token: Token<'a>)
        requires
            old(self).position() == old(self).token_start() + 1,
            digit(old(self).text()[old(self).token_start()]),
        ensures
            final(self).text() == old(self).text(),
            final(self).token_start() == old(self).token_start(),
            final(self).line_number() == old(self).line_number() as int,
            final(self).position() == lex_at(old(self).text(), old(self).token_start()).1,
            token.token_type == TokenType::Number,
            token.lexeme@ == old(self).text().subrange(
                old(self).token_start(),
                final(self).position(),
            ),
            token.line == line,
    {
        proof {
            use_type_invariant(&*self);
        }
        while is_digit(self.peek())
            invariant
                self.text() == old(self).text(),
                self.token_start() == old(self).token_start(),
                self.line_number() == old(self).line_number() as int,
                old(self).position() <= self.position() <= self.text().len(),
                digits_end(self.text(), self.position()) == digits_end(
                    old(self).text(),
                    old(self).position(),
                ),
            decreases self.text().len() - self.position(),
        {
            self.advance();
        }

        if self.peek() == DOT && is_digit(self.peek_next()) {
            self.advance();
            let ghost fraction = self.position();
            while is_digit(self.peek())
                invariant
                    self.text() == old(self).text(),
                    self.token_start() == old(self).token_start(),
                    self.line_number() == old(self).line_number() as int,
                    fraction <= self.position() <= self.text().len(),
                    digits_end(self.text(), self.position()) == digits_end(self.text(), fraction),
                decreases self.text().len() - self.position(),
            {
                self.advance();
            }
            proof {
                assert(digits_end(self.text(), fraction) == digits_end(self.text(), fraction + 1));
            }
        }
        self.new_token(TokenType::Number, line)
    }

    /// Reads the rest of a word; its first byte was taken.
    fn identifier(&mut self, line: usize) -> (token: Token<'a>)
        requires
            old(self).position() == old(self).token_start() + 1,
            alpha(old(self).text()[old(self).token_start()]),
        ensures
            final(self).text() == old(self).text(),
            final(self).token_start() == old(self).token_start(),
            final(self).line_number() == old(self).line_number() as int,
            final(self).position() == lex_at(old(self).text(), old(self).token_start()).1,
            token.token_type == lex_at(old(self).text(), old(self).token_start()).0,
            token.lexeme@ == old(self).text().subrange(
                old(self).token_start(),
                final(self).position(),
            ),
            token.line == line,
    {
        proof {
            use_type_invariant(&*self);
        }
        while is_alphanumeric(self.peek())
            invariant
                self.text() == old(self).text(),
                self.token_start() == old(self).token_start(),
                self.line_number() == old(self).line_number() as int,
                old(self).position() <= self.position() <= self.text().len(),
                word_end(self.text(), self.position()) == word_end(
                    old(self).text(),
                    old(self).position(),
                ),
            decreases self.text().len() - self.position(),
        {
            self.advance();
        }
        let lexeme = slice_subrange(self.source, self.start, self.current);
        let token_type = keyword(lexeme);
        self.new_token(token_type, line)
    }
}

} // verus!
