use lib::lexer::{tokenize, LexError, Lexer};
use lib::token::Token;

fn parse_float(text: String) -> u64 {
    text.parse::<f64>().unwrap().to_bits()
}

fn lex(text: &str) -> Result<Vec<Token>, LexError> {
    tokenize(&text.to_string(), &parse_float)
}

fn ident(name: &str) -> Token {
    Token::Ident(name.to_string())
}

#[test]
fn lexes_a_declaration() {
    let tokens = lex("let x: int = 10;").unwrap();
    assert_eq!(
        tokens,
        vec![
            Token::Let,
            ident("x"),
            Token::Colon,
            Token::IntType,
            Token::Assign,
            Token::Number(10),
            Token::Semicolon,
            Token::Eof
        ]
    );
}

#[test]
fn lexes_every_symbol() {
    let tokens = lex("== != >= <= > < = + - * / ( ) { } , : ;").unwrap();
    assert_eq!(
        tokens,
        vec![
            Token::EqualEqual,
            Token::NotEqual,
            Token::GreaterEqual,
            Token::LessEqual,
            Token::Greater,
            Token::Less,
            Token::Assign,
            Token::Plus,
            Token::Minus,
            Token::Multiply,
            Token::Divide,
            Token::LParen,
            Token::RParen,
            Token::LBrace,
            Token::RBrace,
            Token::Comma,
            Token::Colon,
            Token::Semicolon,
            Token::Eof
        ]
    );
}

#[test]
fn two_character_symbols_need_no_space() {
    let tokens = lex("a>=b==c").unwrap();
    assert_eq!(
        tokens,
        vec![ident("a"), Token::GreaterEqual, ident("b"), Token::EqualEqual, ident("c"), Token::Eof]
    );
}

#[test]
fn lexes_keywords_and_identifiers() {
    let tokens = lex("int float bool string let function return if Else else iff x1").unwrap();
    assert_eq!(
        tokens,
        vec![
            Token::IntType,
            Token::FloatType,
            Token::BoolType,
            Token::StringType,
            Token::Let,
            Token::Function,
            Token::Return,
            Token::If,
            Token::Else,
            ident("else"),
            ident("iff"),
            ident("x1"),
            Token::Eof
        ]
    );
}

#[test]
fn lexes_string_literals() {
    let tokens = lex("\"x é maior que y\" \"\"").unwrap();
    assert_eq!(
        tokens,
        vec![
            Token::StringLiteral("x é maior que y".to_string()),
            Token::StringLiteral(String::new()),
            Token::Eof
        ]
    );
}

#[test]
fn lexes_float_literals_through_the_parser_given() {
    let tokens = lex("3.14 10. 0.5").unwrap();
    assert_eq!(
        tokens,
        vec![
            Token::FloatLiteral(3.14f64.to_bits()),
            Token::FloatLiteral(10.0f64.to_bits()),
            Token::FloatLiteral(0.5f64.to_bits()),
            Token::Eof
        ]
    );
}

#[test]
fn a_second_dot_ends_a_number() {
    assert_eq!(lex("1.2.3"), Err(LexError::UnknownCharacter('.')));
}

#[test]
fn integer_limits() {
    assert_eq!(lex("2147483647").unwrap(), vec![Token::Number(2147483647), Token::Eof]);
    assert_eq!(lex("2147483648"), Err(LexError::IntegerOutOfRange));
    assert_eq!(lex("99999999999999999999"), Err(LexError::IntegerOutOfRange));
    assert_eq!(lex("000000000000000000042").unwrap(), vec![Token::Number(42), Token::Eof]);
}

#[test]
fn a_lone_bang_is_unknown() {
    assert_eq!(lex("!x"), Err(LexError::UnknownCharacter('!')));
    assert_eq!(lex("x !"), Err(LexError::UnknownCharacter('!')));
}

#[test]
fn unknown_characters_fail() {
    assert_eq!(lex("let x = 1 @"), Err(LexError::UnknownCharacter('@')));
    assert_eq!(lex("_x"), Err(LexError::UnknownCharacter('_')));
}

#[test]
fn an_unterminated_string_fails() {
    assert_eq!(lex("\"abc"), Err(LexError::UnterminatedString));
}

#[test]
fn reading_a_number_at_a_dot_without_digits_fails() {
    let mut lexer = Lexer::new(".".to_string());
    assert!(matches!(lexer.try_read_number(&parse_float), Err(LexError::MalformedNumber)));
    assert_eq!(lexer.position(), 1);
}

#[test]
fn reading_a_number_where_there_is_none_fails() {
    let mut lexer = Lexer::new("x".to_string());
    assert!(matches!(lexer.try_read_number(&parse_float), Err(LexError::MalformedNumber)));
    assert_eq!(lexer.position(), 0);
}

#[test]
fn unicode_whitespace_is_skipped() {
    let tokens = lex("\u{A0}let\u{2003}\tx\r\n").unwrap();
    assert_eq!(tokens, vec![Token::Let, ident("x"), Token::Eof]);
}

#[test]
fn unicode_letters_and_digits_make_identifiers() {
    let tokens = lex("variável x٣").unwrap();
    assert_eq!(tokens, vec![ident("variável"), ident("x٣"), Token::Eof]);
}

#[test]
fn eof_repeats_at_the_end() {
    let mut lexer = Lexer::new("x  ".to_string());
    assert_eq!(lexer.next_token(&parse_float), ident("x"));
    assert_eq!(lexer.next_token(&parse_float), Token::Eof);
    assert_eq!(lexer.position(), 3);
    assert_eq!(lexer.next_token(&parse_float), Token::Eof);
    assert_eq!(lexer.position(), 3);
}

#[test]
fn peek_char_past_the_end_is_nul() {
    let lexer = Lexer::new("a".to_string());
    assert_eq!(lexer.peek_char(), '\0');
    let lexer = Lexer::new("ab".to_string());
    assert_eq!(lexer.peek_char(), 'b');
}

#[test]
fn skip_whitespace_moves_to_the_next_character() {
    let mut lexer = Lexer::new("   x".to_string());
    lexer.skip_whitespace();
    assert_eq!(lexer.position(), 3);
}

#[test]
fn read_identifier_reads_alphanumerics() {
    let mut lexer = Lexer::new("abc1 d".to_string());
    assert_eq!(lexer.read_identifier(), ident("abc1"));
    assert_eq!(lexer.position(), 4);
}

#[test]
fn read_string_takes_both_quotes() {
    let mut lexer = Lexer::new("\"hi\" x".to_string());
    assert_eq!(lexer.read_string(), Token::StringLiteral("hi".to_string()));
    assert_eq!(lexer.position(), 4);
}

#[test]
fn tokens_end_with_exactly_one_eof() {
    let tokens = lex("function f(a, b) { return a + b; }").unwrap();
    assert_eq!(tokens.last(), Some(&Token::Eof));
    assert_eq!(tokens.iter().filter(|t| **t == Token::Eof).count(), 1);
    let empty = lex("").unwrap();
    assert_eq!(empty, vec![Token::Eof]);
}

#[test]
fn tokens_compare_by_kind_and_payload() {
    assert!(Token::Ident("a".to_string()) == Token::Ident("a".to_string()));
    assert!(Token::Ident("a".to_string()) != Token::Ident("b".to_string()));
    assert!(Token::Ident("a".to_string()) != Token::StringLiteral("a".to_string()));
    assert!(Token::Number(1) != Token::Number(2));
    assert!(Token::Plus == Token::Plus);
    assert!(Token::Plus != Token::Minus);
}

#[test]
fn is_whitespace_agrees_with_std_on_every_char() {
    for code in 0u32..=0x10FFFF {
        if let Some(c) = char::from_u32(code) {
            assert_eq!(lib::text::is_whitespace(c), c.is_whitespace(), "U+{:04X}", code);
        }
    }
}

#[test]
fn ascii_letters_start_words() {
    for code in 0u32..128 {
        let c = char::from_u32(code).unwrap();
        let mut lexer = Lexer::new(c.to_string());
        let first = lexer.try_next_token(&parse_float);
        let is_word = matches!(first, Ok(Token::Ident(_)));
        assert_eq!(is_word, c.is_ascii_alphabetic(), "{:?}", c);
    }
}

#[test]
fn ascii_letters_and_digits_continue_words() {
    for code in 0u32..128 {
        let c = char::from_u32(code).unwrap();
        let mut lexer = Lexer::new(format!("a{}", c));
        let first = lexer.try_next_token(&parse_float);
        if c.is_ascii_alphanumeric() {
            assert_eq!(first, Ok(ident(&format!("a{}", c))), "{:?}", c);
            assert_eq!(lexer.position(), 2);
        } else {
            assert_eq!(first, Ok(ident("a")), "{:?}", c);
            assert_eq!(lexer.position(), 1);
        }
    }
}

#[test]
fn read_number_reads_the_largest_i32() {
    let mut lexer = Lexer::new("2147483647".to_string());
    assert_eq!(lexer.read_number(&parse_float), Token::Number(2147483647));
    assert_eq!(lexer.position(), 10);
    let mut lexer = Lexer::new("2147483648".to_string());
    assert_eq!(lexer.try_read_number(&parse_float), Err(LexError::IntegerOutOfRange));
}

#[test]
fn read_number_reads_a_float_literal() {
    let mut lexer = Lexer::new("2.5;".to_string());
    assert_eq!(lexer.read_number(&parse_float), Token::FloatLiteral(2.5f64.to_bits()));
    assert_eq!(lexer.position(), 3);
}

#[test]
fn an_unterminated_string_is_refused() {
    let mut lexer = Lexer::new("\"open".to_string());
    assert_eq!(lexer.try_read_string(), Err(LexError::UnterminatedString));
}

#[test]
fn next_token_refuses_unknown_characters() {
    let mut lexer = Lexer::new("  @".to_string());
    assert_eq!(lexer.try_next_token(&parse_float), Err(LexError::UnknownCharacter('@')));
    let mut lexer = Lexer::new("!x".to_string());
    assert_eq!(lexer.try_next_token(&parse_float), Err(LexError::UnknownCharacter('!')));
    let mut lexer = Lexer::new("!=".to_string());
    assert_eq!(lexer.next_token(&parse_float), Token::NotEqual);
}
