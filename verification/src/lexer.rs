//! The lexer: from source text to tokens.
use vstd::prelude::*;

use crate::floats::{literal_model, literal_parser_ok, parse_float_literal};
use crate::text::{
    digit_value, is_alphabetic, is_alphanumeric, is_decimal_digit, is_decimal_digit_spec,
    is_whitespace, string_from_range, alphabetic, alphanumeric,
    unicode_whitespace,
};
use crate::token::{Token, TokenV};

verus! {

broadcast use vstd::string::group_string_axioms;

/// Why the source text could not be cut into tokens.
#[derive(Clone, Copy, Debug, PartialEq, Eq, Structural)]
pub enum LexError {
    /// A character that starts no token (also `!` not followed by `=`).
    UnknownCharacter(char),
    /// A `"` without a closing `"`.
    UnterminatedString,
    /// A number without digits (only possible when a number is read at a `.`).
    MalformedNumber,
    /// An integer literal above `i32::MAX`.
    IntegerOutOfRange,
}

// ---------------------------------------------------------------------------
// Specification
// ---------------------------------------------------------------------------

/// The character at `pos + 1`, or `'\0'` past the end.
pub open spec fn peek_spec(input: Seq<char>, pos: int) -> char {
    if 0 <= pos + 1 < input.len() {
        input[pos + 1]
    } else {
        '\0'
    }
}

/// The first position at or after `pos` that holds no whitespace.
pub open spec fn skip_ws(input: Seq<char>, pos: int) -> int
    decreases input.len() - pos,
{
    if 0 <= pos < input.len() && unicode_whitespace(input[pos]) {
        skip_ws(input, pos + 1)
    } else {
        pos
    }
}

/// Where a number that starts at `pos` ends, and whether it holds a dot:
/// digits, and at most one `.`.
pub open spec fn scan_number(input: Seq<char>, pos: int, has_dot: bool) -> (int, bool)
    decreases input.len() - pos,
{
    if 0 <= pos < input.len() && (is_decimal_digit_spec(input[pos]) || (input[pos] == '.'
        && !has_dot)) {
        scan_number(input, pos + 1, has_dot || input[pos] == '.')
    } else {
        (pos, has_dot)
    }
}

/// Where a run of alphanumeric characters that starts at `pos` ends.
pub open spec fn scan_word(input: Seq<char>, pos: int) -> int
    decreases input.len() - pos,
{
    if 0 <= pos < input.len() && alphanumeric(input[pos]) {
        scan_word(input, pos + 1)
    } else {
        pos
    }
}

/// The first position at or after `pos` that holds `"`, or the end.
pub open spec fn scan_to_quote(input: Seq<char>, pos: int) -> int
    decreases input.len() - pos,
{
    if 0 <= pos < input.len() && input[pos] != '"' {
        scan_to_quote(input, pos + 1)
    } else {
        pos
    }
}

/// The value of a string of decimal digits.
pub open spec fn decimal_value(s: Seq<char>) -> int
    decreases s.len(),
{
    if s.len() == 0 {
        0
    } else {
        decimal_value(s.drop_last()) * 10 + digit_value(s.last())
    }
}

/// The token that a word is: a keyword, or else an identifier.
pub open spec fn word_token(s: Seq<char>) -> TokenV {
    if s == "int"@ {
        TokenV::IntType
    } else if s == "float"@ {
        TokenV::FloatType
    } else if s == "bool"@ {
        TokenV::BoolType
    } else if s == "string"@ {
        TokenV::StringType
    } else if s == "let"@ {
        TokenV::Let
    } else if s == "function"@ {
        TokenV::Function
    } else if s == "return"@ {
        TokenV::Return
    } else if s == "if"@ {
        TokenV::If
    } else if s == "Else"@ {
        TokenV::Else
    } else {
        TokenV::Ident(s)
    }
}

/// Reading a number at `pos`: the position after it and the token.
/// A text with a dot is a float literal, whose bit pattern `flit` gives.
pub open spec fn lex_number(input: Seq<char>, pos: int, flit: spec_fn(Seq<char>) -> u64) -> (
    int,
    Result<TokenV, LexError>,
) {
    let (end, has_dot) = scan_number(input, pos, false);
    let text = input.subrange(pos, end);
    if has_dot {
        if text.len() >= 2 {
            (end, Ok(TokenV::FloatLiteral(flit(text))))
        } else {
            (end, Err(LexError::MalformedNumber))
        }
    } else if text.len() == 0 {
        (end, Err(LexError::MalformedNumber))
    } else if decimal_value(text) <= i32::MAX {
        (end, Ok(TokenV::Number(decimal_value(text) as i32)))
    } else {
        (end, Err(LexError::IntegerOutOfRange))
    }
}

/// Reading a word at `pos`.
pub open spec fn lex_word(input: Seq<char>, pos: int) -> (int, Result<TokenV, LexError>) {
    let end = scan_word(input, pos);
    (end, Ok(word_token(input.subrange(pos, end))))
}

/// Reading a string literal whose opening quote is at `pos`.
pub open spec fn lex_string(input: Seq<char>, pos: int) -> (int, Result<TokenV, LexError>) {
    let start = if pos < input.len() {
        pos + 1
    } else {
        pos
    };
    let end = scan_to_quote(input, start);
    if end >= input.len() {
        (end, Err(LexError::UnterminatedString))
    } else {
        (end + 1, Ok(TokenV::StringLiteral(input.subrange(start, end))))
    }
}

/// The token of one or two characters that starts with `ch`, followed by
/// `next`, if `ch` starts one.
pub open spec fn symbol_token(ch: char, next: char) -> Option<(TokenV, int)> {
    if ch == '=' {
        if next == '=' {
            Some((TokenV::EqualEqual, 2))
        } else {
            Some((TokenV::Assign, 1))
        }
    } else if ch == '!' && next == '=' {
        Some((TokenV::NotEqual, 2))
    } else if ch == '>' {
        if next == '=' {
            Some((TokenV::GreaterEqual, 2))
        } else {
            Some((TokenV::Greater, 1))
        }
    } else if ch == '<' {
        if next == '=' {
            Some((TokenV::LessEqual, 2))
        } else {
            Some((TokenV::Less, 1))
        }
    } else if ch == '+' {
        Some((TokenV::Plus, 1))
    } else if ch == '-' {
        Some((TokenV::Minus, 1))
    } else if ch == '*' {
        Some((TokenV::Multiply, 1))
    } else if ch == '/' {
        Some((TokenV::Divide, 1))
    } else if ch == ';' {
        Some((TokenV::Semicolon, 1))
    } else if ch == '(' {
        Some((TokenV::LParen, 1))
    } else if ch == ')' {
        Some((TokenV::RParen, 1))
    } else if ch == '{' {
        Some((TokenV::LBrace, 1))
    } else if ch == '}' {
        Some((TokenV::RBrace, 1))
    } else if ch == ',' {
        Some((TokenV::Comma, 1))
    } else if ch == ':' {
        Some((TokenV::Colon, 1))
    } else {
        None
    }
}

/// The next token at or after `pos`, and the position after it. Whitespace
/// is skipped; at the end of the input the token is `Eof`, again and again.
pub open spec fn lex_token(input: Seq<char>, pos: int, flit: spec_fn(Seq<char>) -> u64) -> (
    int,
    Result<TokenV, LexError>,
) {
    let p = skip_ws(input, pos);
    if p >= input.len() {
        (p, Ok(TokenV::Eof))
    } else {
        let ch = input[p];
        if ch == '!' && peek_spec(input, p) != '=' {
            (p, Err(LexError::UnknownCharacter(ch)))
        } else {
        match symbol_token(ch, peek_spec(input, p)) {
            Some((t, n)) => (p + n, Ok(t)),
            None => if ch == '"' {
                lex_string(input, p)
            } else if is_decimal_digit_spec(ch) {
                lex_number(input, p, flit)
            } else if alphabetic(ch) {
                // a word: its first letter, then alphanumeric characters
                let end = scan_word(input, p + 1);
                (end, Ok(word_token(input.subrange(p, end))))
            } else {
                (p, Err(LexError::UnknownCharacter(ch)))
            },
        }
        }
    }
}

/// All tokens from `pos` on, up to and including the first `Eof`.
pub open spec fn lex_from(input: Seq<char>, pos: int, flit: spec_fn(Seq<char>) -> u64) -> Result<
    Seq<TokenV>,
    LexError,
>
    decreases input.len() - pos,
    when 0 <= pos <= input.len()
{
    let (p, r) = lex_token(input, pos, flit);
    match r {
        Err(e) => Err(e),
        Ok(t) => if t is Eof {
            Ok(seq![t])
        } else {
            proof {
                lemma_lex_token_advances(input, pos, flit);
            }
            match lex_from(input, p, flit) {
                Ok(rest) => Ok(seq![t] + rest),
                Err(e) => Err(e),
            }
        },
    }
}

/// All tokens of `input`, ending with `Eof`.
pub open spec fn lex_all(input: Seq<char>, flit: spec_fn(Seq<char>) -> u64) -> Result<
    Seq<TokenV>,
    LexError,
> {
    lex_from(input, 0, flit)
}

// ---------------------------------------------------------------------------
// Lemmas
// ---------------------------------------------------------------------------

proof fn lemma_skip_ws(input: Seq<char>, pos: int)
    requires
        0 <= pos <= input.len(),
    ensures
        pos <= skip_ws(input, pos) <= input.len(),
    decreases input.len() - pos,
{
    if pos < input.len() && unicode_whitespace(input[pos]) {
        lemma_skip_ws(input, pos + 1);
    }
}

proof fn lemma_scan_number(input: Seq<char>, pos: int, has_dot: bool)
    requires
        0 <= pos <= input.len(),
    ensures
        pos <= scan_number(input, pos, has_dot).0 <= input.len(),
        has_dot ==> scan_number(input, pos, has_dot).1,
    decreases input.len() - pos,
{
    if pos < input.len() && (is_decimal_digit_spec(input[pos]) || (input[pos] == '.'
        && !has_dot)) {
        lemma_scan_number(input, pos + 1, has_dot || input[pos] == '.');
    }
}

proof fn lemma_scan_word(input: Seq<char>, pos: int)
    requires
        0 <= pos <= input.len(),
    ensures
        pos <= scan_word(input, pos) <= input.len(),
    decreases input.len() - pos,
{
    if pos < input.len() && alphanumeric(input[pos]) {
        lemma_scan_word(input, pos + 1);
    }
}

proof fn lemma_scan_to_quote(input: Seq<char>, pos: int)
    requires
        0 <= pos <= input.len(),
    ensures
        pos <= scan_to_quote(input, pos) <= input.len(),
    decreases input.len() - pos,
{
    if pos < input.len() && input[pos] != '"' {
        lemma_scan_to_quote(input, pos + 1);
    }
}

/// A token other than `Eof` takes at least one character, and no token
/// reads past the end.
pub proof fn lemma_lex_token_advances(
    input: Seq<char>,
    pos: int,
    flit: spec_fn(Seq<char>) -> u64,
)
    requires
        0 <= pos <= input.len(),
    ensures
        pos <= lex_token(input, pos, flit).0 <= input.len(),
        lex_token(input, pos, flit).1 matches Ok(t) && !(t is Eof) ==> pos < lex_token(
            input,
            pos,
            flit,
        ).0,
{
    lemma_skip_ws(input, pos);
    let p = skip_ws(input, pos);
    if p < input.len() {
        lemma_scan_number(input, p, false);
        lemma_scan_word(input, p + 1);
        lemma_scan_to_quote(input, p + 1);
    }
}


/// The view of a lexing result.
pub open spec fn lexed_view(r: Result<Token, LexError>) -> Result<TokenV, LexError> {
    match r {
        Ok(t) => Ok(t@),
        Err(e) => Err(e),
    }
}

proof fn lemma_decimal_value_step(input: Seq<char>, start: int, i: int)
    requires
        0 <= start <= i < input.len(),
    ensures
        decimal_value(input.subrange(start, i + 1)) == decimal_value(input.subrange(start, i))
            * 10 + digit_value(input[i]),
{
    assert(input.subrange(start, i + 1).drop_last() =~= input.subrange(start, i));
}

/// Over digits, a longer prefix never has a smaller value.
proof fn lemma_decimal_value_grows(input: Seq<char>, start: int, i: int, j: int)
    requires
        0 <= start <= i <= j <= input.len(),
        forall|k: int| start <= k < j ==> is_decimal_digit_spec(#[trigger] input[k]),
    ensures
        decimal_value(input.subrange(start, i)) <= decimal_value(input.subrange(start, j)),
    decreases j - i,
{
    if i < j {
        lemma_decimal_value_grows(input, start, i, j - 1);
        lemma_decimal_value_step(input, start, j - 1);
        assert(decimal_value(input.subrange(start, j - 1)) >= 0) by {
            lemma_decimal_value_nonneg(input, start, j - 1);
        }
    }
}

proof fn lemma_decimal_value_nonneg(input: Seq<char>, start: int, j: int)
    requires
        0 <= start <= j <= input.len(),
        forall|k: int| start <= k < j ==> is_decimal_digit_spec(#[trigger] input[k]),
    ensures
        decimal_value(input.subrange(start, j)) >= 0,
    decreases j - start,
{
    if start < j {
        lemma_decimal_value_nonneg(input, start, j - 1);
        lemma_decimal_value_step(input, start, j - 1);
    } else {
        assert(input.subrange(start, j).len() == 0);
    }
}

proof fn lemma_scan_number_digits(input: Seq<char>, pos: int, has_dot: bool)
    requires
        0 <= pos <= input.len(),
    ensures
        !scan_number(input, pos, has_dot).1 ==> forall|k: int|
            pos <= k < scan_number(input, pos, has_dot).0 ==> is_decimal_digit_spec(
                #[trigger] input[k],
            ),
    decreases input.len() - pos,
{
    if pos < input.len() && (is_decimal_digit_spec(input[pos]) || (input[pos] == '.'
        && !has_dot)) {
        lemma_scan_number_digits(input, pos + 1, has_dot || input[pos] == '.');
        lemma_scan_number(input, pos + 1, has_dot || input[pos] == '.');
    }
}

/// A lexer over a source text: the characters and the current position.
pub struct Lexer {
    input: Vec<char>,
    position: usize,
}

impl Lexer {
    #[verifier::type_invariant]
    spec fn position_in_bounds(&self) -> bool {
        self.position <= self.input.len()
    }

    /// The characters of the source text.
    pub closed spec fn source(&self) -> Seq<char> {
        self.input@
    }

    /// The current position in the source text.
    pub closed spec fn pos(&self) -> int {
        self.position as int
    }

    /// A lexer at the start of `input`.
    pub fn new(input: String) -> (l: Lexer)
        ensures
            l.source() == input@,
            l.pos() == 0,
    {
        let mut chars: Vec<char> = Vec::new();
        for c in it: input.as_str().chars()
            invariant
                chars@ == it.seq().take(it.index() as int),
                it.seq() == input@,
        {
            chars.push(c);
            assert(chars@ =~= it.seq().take(it.index() + 1));
        }
        assert(chars@ =~= input@);
        Lexer { input: chars, position: 0 }
    }

    /// The current position.
    pub fn position(&self) -> (p: usize)
        ensures
            p == self.pos(),
    {
        self.position
    }

    /// The character after the current one, or `'\0'` past the end.
    pub fn peek_char(&self) -> (c: char)
        ensures
            c == peek_spec(self.source(), self.pos()),
    {
        proof {
            use_type_invariant(self);
        }
        if self.position >= self.input.len() || self.position + 1 >= self.input.len() {
            '\0'
        } else {
            self.input[self.position + 1]
        }
    }

    /// Moves past whitespace.
    pub fn skip_whitespace(&mut self)
        ensures
            final(self).source() == old(self).source(),
            final(self).pos() == skip_ws(old(self).source(), old(self).pos()),
    {
        proof {
            use_type_invariant(&*self);
        }
        while self.position < self.input.len() && is_whitespace(self.input[self.position])
            invariant
                self.input@ == old(self).input@,
                self.position <= self.input.len(),
                skip_ws(self.input@, self.position as int) == skip_ws(
                    old(self).input@,
                    old(self).position as int,
                ),
            decreases self.input.len() - self.position,
        {
            self.position = self.position + 1;
        }
    }

    /// Reads a number at the current position: digits, and at most one dot.
    /// A number with a dot is a float literal, whose bit pattern `parse`
    /// computes from its text; one without is an `i32`.
    /// Input on which `read_number` may not be called is answered with an
    /// error, which the contract names exactly.
    pub fn try_read_number<L: Fn(String) -> u64>(&mut self, parse: &L) -> (r: Result<Token, LexError>)
        requires
            literal_parser_ok(*parse),
        ensures
            final(self).source() == old(self).source(),
            (final(self).pos(), lexed_view(r)) == lex_number(
                old(self).source(),
                old(self).pos(),
                literal_model(*parse),
            ),
    {
        proof {
            use_type_invariant(&*self);
        }
        let start = self.position;
        let mut has_dot = false;
        while self.position < self.input.len() && (is_decimal_digit(self.input[self.position])
            || (self.input[self.position] == '.' && !has_dot))
            invariant
                self.input@ == old(self).input@,
                start <= self.position <= self.input.len(),
                scan_number(self.input@, self.position as int, has_dot) == scan_number(
                    self.input@,
                    start as int,
                    false,
                ),
            decreases self.input.len() - self.position,
        {
            if self.input[self.position] == '.' {
                has_dot = true;
            }
            self.position = self.position + 1;
        }
        let end = self.position;
        proof {
            lemma_scan_number_digits(self.input@, start as int, false);
        }
        if has_dot {
            if end - start >= 2 {
                let text = string_from_range(&self.input, start, end);
                let bits = parse_float_literal(parse, text);
                Ok(Token::FloatLiteral(bits))
            } else {
                Err(LexError::MalformedNumber)
            }
        } else if end == start {
            Err(LexError::MalformedNumber)
        } else {
            let mut value: i32 = 0;
            let mut i = start;
            while i < end
                invariant
                    self.input@ == old(self).input@,
                    start <= i <= end <= self.input.len(),
                    self.position == end,
                    start == old(self).position,
                    end == scan_number(self.input@, start as int, false).0,
                    !scan_number(self.input@, start as int, false).1,
                    forall|k: int| start <= k < end ==> is_decimal_digit_spec(#[trigger] self.input@[k]),
                    value == decimal_value(self.input@.subrange(start as int, i as int)),
                decreases end - i,
            {
                let d = self.input[i];
                proof {
                    assert(is_decimal_digit_spec(self.input@[i as int]));
                    lemma_decimal_value_step(self.input@, start as int, i as int);
                }
                let digit = (d as u32 - '0' as u32) as i32;
                assert(digit == digit_value(d));
                match value.checked_mul(10) {
                    Some(tens) => match tens.checked_add(digit) {
                        Some(next) => {
                            value = next;
                        },
                        None => {
                            proof {
                                lemma_decimal_value_grows(self.input@, start as int, i + 1, end as int);
                                assert(decimal_value(self.input@.subrange(start as int, end as int)) > i32::MAX);
                            }
                            return Err(LexError::IntegerOutOfRange);
                        },
                    },
                    None => {
                        proof {
                            lemma_decimal_value_nonneg(self.input@, start as int, i as int);
                            lemma_decimal_value_grows(self.input@, start as int, i + 1, end as int);
                            assert(value * 10 > i32::MAX);
                            assert(decimal_value(self.input@.subrange(start as int, end as int)) > i32::MAX);
                        }
                        return Err(LexError::IntegerOutOfRange);
                    },
                }
                i = i + 1;
            }
            Ok(Token::Number(value))
        }
    }

    /// Reads a run of alphanumeric characters: a keyword or an identifier.
    pub fn read_identifier(&mut self) -> (t: Token)
        ensures
            final(self).source() == old(self).source(),
            (final(self).pos(), Ok::<TokenV, LexError>(t@)) == lex_word(old(self).source(), old(self).pos()),
            old(self).pos() < old(self).source().len() && alphabetic(
                old(self).source()[old(self).pos()],
            ) ==> old(self).pos() < final(self).pos(),
    {
        proof {
            use_type_invariant(&*self);
        }
        let start = self.position;
        while self.position < self.input.len() && is_alphanumeric(self.input[self.position])
            invariant
                self.input@ == old(self).input@,
                start == old(self).position,
                start <= self.position <= self.input.len(),
                scan_word(self.input@, self.position as int) == scan_word(
                    self.input@,
                    start as int,
                ),
            decreases self.input.len() - self.position,
        {
            self.position = self.position + 1;
        }
        let ident = string_from_range(&self.input, start, self.position);
        if ident == "int".to_string() {
            Token::IntType
        } else if ident == "float".to_string() {
            Token::FloatType
        } else if ident == "bool".to_string() {
            Token::BoolType
        } else if ident == "string".to_string() {
            Token::StringType
        } else if ident == "let".to_string() {
            Token::Let
        } else if ident == "function".to_string() {
            Token::Function
        } else if ident == "return".to_string() {
            Token::Return
        } else if ident == "if".to_string() {
            Token::If
        } else if ident == "Else".to_string() {
            Token::Else
        } else {
            Token::Ident(ident)
        }
    }

    /// Reads a string literal whose opening quote is at the current position.
    /// Input on which `read_string` may not be called is answered with an
    /// error, which the contract names exactly.
    pub fn try_read_string(&mut self) -> (r: Result<Token, LexError>)
        ensures
            final(self).source() == old(self).source(),
            (final(self).pos(), lexed_view(r)) == lex_string(old(self).source(), old(self).pos()),
    {
        proof {
            use_type_invariant(&*self);
        }
        if self.position < self.input.len() {
            self.position = self.position + 1;
        }
        let start = self.position;
        while self.position < self.input.len() && self.input[self.position] != '"'
            invariant
                self.input@ == old(self).input@,
                start <= self.position <= self.input.len(),
                start == (if old(self).position < self.input.len() {
                    old(self).position + 1
                } else {
                    old(self).position as int
                }),
                scan_to_quote(self.input@, self.position as int) == scan_to_quote(
                    self.input@,
                    start as int,
                ),
            decreases self.input.len() - self.position,
        {
            self.position = self.position + 1;
        }
        if self.position >= self.input.len() {
            return Err(LexError::UnterminatedString);
        }
        let value = string_from_range(&self.input, start, self.position);
        self.position = self.position + 1;
        Ok(Token::StringLiteral(value))
    }

    /// The next token, after any whitespace. At the end of the input it is
    /// `Eof`, and stays `Eof`.
    /// Input on which `next_token` may not be called is answered with an
    /// error, which the contract names exactly.
    pub fn try_next_token<L: Fn(String) -> u64>(&mut self, parse: &L) -> (r: Result<Token, LexError>)
        requires
            literal_parser_ok(*parse),
        ensures
            final(self).source() == old(self).source(),
            (final(self).pos(), lexed_view(r)) == lex_token(
                old(self).source(),
                old(self).pos(),
                literal_model(*parse),
            ),
    {
        proof {
            use_type_invariant(&*self);
        }
        self.skip_whitespace();
        proof {
            use_type_invariant(&*self);
        }
        if self.position >= self.input.len() {
            return Ok(Token::Eof);
        }
        let ch = self.input[self.position];
        let token = if ch == '=' {
            if self.peek_char() == '=' {
                self.position = self.position + 1;
                Token::EqualEqual
            } else {
                Token::Assign
            }
        } else if ch == '!' {
            if self.peek_char() == '=' {
                self.position = self.position + 1;
                Token::NotEqual
            } else {
                return Err(LexError::UnknownCharacter(ch));
            }
        } else if ch == '>' {
            if self.peek_char() == '=' {
                self.position = self.position + 1;
                Token::GreaterEqual
            } else {
                Token::Greater
            }
        } else if ch == '<' {
            if self.peek_char() == '=' {
                self.position = self.position + 1;
                Token::LessEqual
            } else {
                Token::Less
            }
        } else if ch == '+' {
            Token::Plus
        } else if ch == '-' {
            Token::Minus
        } else if ch == '*' {
            Token::Multiply
        } else if ch == '/' {
            Token::Divide
        } else if ch == ';' {
            Token::Semicolon
        } else if ch == '(' {
            Token::LParen
        } else if ch == ')' {
            Token::RParen
        } else if ch == '{' {
            Token::LBrace
        } else if ch == '}' {
            Token::RBrace
        } else if ch == ',' {
            Token::Comma
        } else if ch == ':' {
            Token::Colon
        } else if ch == '"' {
            return self.try_read_string();
        } else if is_decimal_digit(ch) {
            return self.try_read_number(parse);
        } else if is_alphabetic(ch) {
            let ghost p = self.position as int;
            let t = self.read_identifier();
            proof {
                let input = self.input@;
                assert(alphanumeric(input[p]));
                assert(scan_word(input, p) == scan_word(input, p + 1));
            }
            return Ok(t);
        } else {
            return Err(LexError::UnknownCharacter(ch));
        };
        self.position = self.position + 1;
        Ok(token)
    }
    /// Reads a number at the current position: digits, and at most one dot.
    /// The number must be well formed and, without a dot, fit in an `i32`;
    /// `try_read_number` answers any other input with an error.
    pub fn read_number<L: Fn(String) -> u64>(&mut self, parse: &L) -> (t: Token)
        requires
            literal_parser_ok(*parse),
            lex_number(old(self).source(), old(self).pos(), literal_model(*parse)).1 is Ok,
        ensures
            final(self).source() == old(self).source(),
            (final(self).pos(), lexed_view(Ok(t))) == lex_number(
                old(self).source(),
                old(self).pos(),
                literal_model(*parse),
            ),
    {
        match self.try_read_number(parse) {
            Ok(t) => t,
            Err(_) => {
                proof {
                    assert(false);
                }
                Token::Eof
            },
        }
    }

    /// Reads a string literal whose opening quote is at the current position.
    /// The closing quote must follow; `try_read_string` answers its absence
    /// with an error.
    pub fn read_string(&mut self) -> (t: Token)
        requires
            lex_string(old(self).source(), old(self).pos()).1 is Ok,
        ensures
            final(self).source() == old(self).source(),
            (final(self).pos(), lexed_view(Ok(t))) == lex_string(old(self).source(), old(self).pos()),
    {
        match self.try_read_string() {
            Ok(t) => t,
            Err(_) => {
                proof {
                    assert(false);
                }
                Token::Eof
            },
        }
    }

    /// The next token, after any whitespace. At the end of the input it is
    /// `Eof`, and stays `Eof`. What follows the whitespace must make a token;
    /// `try_next_token` answers anything else with an error.
    pub fn next_token<L: Fn(String) -> u64>(&mut self, parse: &L) -> (t: Token)
        requires
            literal_parser_ok(*parse),
            lex_token(old(self).source(), old(self).pos(), literal_model(*parse)).1 is Ok,
        ensures
            final(self).source() == old(self).source(),
            (final(self).pos(), lexed_view(Ok(t))) == lex_token(
                old(self).source(),
                old(self).pos(),
                literal_model(*parse),
            ),
    {
        match self.try_next_token(parse) {
            Ok(t) => t,
            Err(_) => {
                proof {
                    assert(false);
                }
                Token::Eof
            },
        }
    }
}
 


/// The view of a tokenizing result.
pub open spec fn tokens_view(r: Result<Vec<Token>, LexError>) -> Result<Seq<TokenV>, LexError> {
    match r {
        Ok(ts) => Ok(crate::token::token_views(ts@)),
        Err(e) => Err(e),
    }
}

spec fn prepend_tokens(pre: Seq<TokenV>, r: Result<Seq<TokenV>, LexError>) -> Result<
    Seq<TokenV>,
    LexError,
> {
    match r {
        Ok(rest) => Ok(pre + rest),
        Err(e) => Err(e),
    }
}

/// Cuts `input` into tokens, ending with `Eof`.
pub fn tokenize<L: Fn(String) -> u64>(input: &String, parse: &L) -> (r: Result<Vec<Token>, LexError>)
    requires
        literal_parser_ok(*parse),
    ensures
        tokens_view(r) == lex_all(input@, literal_model(*parse)),
{
    let ghost src = input@;
    let ghost m = literal_model(*parse);
    let mut lexer = Lexer::new(input.clone());
    let mut tokens: Vec<Token> = Vec::new();
    proof {
        use_type_invariant(&lexer);
        assert(prepend_tokens(crate::token::token_views(tokens@), lex_from(src, 0, m)) == lex_from(src, 0, m)) by {
            assert(crate::token::token_views(tokens@) =~= Seq::<TokenV>::empty());
            match lex_from(src, 0, m) {
                Ok(rest) => { assert(Seq::<TokenV>::empty() + rest =~= rest); },
                Err(e) => {},
            }
        }
    }
    loop
        invariant
            literal_parser_ok(*parse),
            m == literal_model(*parse),
            src == input@,
            lexer.source() == src,
            0 <= lexer.pos() <= src.len(),
            lex_all(src, m) == prepend_tokens(
                crate::token::token_views(tokens@),
                lex_from(src, lexer.pos(), m),
            ),
        decreases src.len() - lexer.pos(),
    {
        let ghost p0 = lexer.pos();
        let ghost before = crate::token::token_views(tokens@);
        let token = match lexer.try_next_token(parse) {
            Ok(t) => t,
            Err(e) => {
                proof {
                    assert(lex_from(src, p0, m) == Err::<Seq<TokenV>, LexError>(e));
                }
                return Err(e);
            },
        };
        proof {
            use_type_invariant(&lexer);
            lemma_lex_token_advances(src, p0, m);
        }
        let is_eof = token.same(&Token::Eof);
        let ghost tv = token@;
        tokens.push(token);
        proof {
            assert(crate::token::token_views(tokens@) =~= before.push(tv));
            if !is_eof {
                match lex_from(src, lexer.pos(), m) {
                    Ok(rest) => {
                        assert(before + (seq![tv] + rest) =~= before.push(tv) + rest);
                    },
                    Err(e) => {},
                }
            } else {
                assert(lex_from(src, p0, m) == Ok::<Seq<TokenV>, LexError>(seq![tv]));
                assert(before + seq![tv] =~= before.push(tv));
            }
        }
        if is_eof {
            return Ok(tokens);
        }
    }
}

} // verus!
