use rolox::lexer::{ok_tokens, tokenize, LexError, Lexer};
use rolox::tokens::{binary_op_precedence, Literal, Token};
use rolox::util::check_pattern;

fn lex_ok(src: &str) -> Vec<Token> {
    tokenize(&src.to_string())
        .into_iter()
        .map(|r| r.expect("unexpected lexical error"))
        .collect()
}

fn int_tok(v: i32) -> Token {
    Token::LITERAL(Literal::INTEGER(v))
}

#[test]
fn integer_round_trip_small() {
    assert_eq!(lex_ok("12345"), vec![int_tok(12345)]);
}

#[test]
fn integer_round_trip_zero() {
    assert_eq!(lex_ok("0"), vec![int_tok(0)]);
}

#[test]
fn integer_round_trip_max() {
    assert_eq!(lex_ok("2147483647"), vec![int_tok(2147483647)]);
}

#[test]
fn integer_overflow_is_invalid_number() {
    let toks = tokenize(&"2147483648".to_string());
    assert_eq!(
        toks,
        vec![Err(LexError::InvalidNumber("2147483648".to_string()))]
    );
}

#[test]
fn bang_equal_is_one_token() {
    assert_eq!(lex_ok("!="), vec![Token::BANG_EQUAL]);
}

#[test]
fn bang_then_identifier() {
    assert_eq!(
        lex_ok("!a"),
        vec![Token::BANG, Token::IDENTIFIER("a".to_string())]
    );
}

#[test]
fn comment_is_stripped() {
    assert_eq!(
        lex_ok("1 + 2 // comment\n3"),
        vec![int_tok(1), Token::PLUS, int_tok(2), int_tok(3)]
    );
}

#[test]
fn comment_without_newline_runs_to_end() {
    assert_eq!(lex_ok("1 // trailing words * + ="), vec![int_tok(1)]);
}

#[test]
fn unknown_token_between_valid_tokens() {
    let toks = tokenize(&"1 + ~".to_string());
    assert_eq!(
        toks,
        vec![
            Ok(int_tok(1)),
            Ok(Token::PLUS),
            Err(LexError::UnknownToken("~".to_string())),
        ]
    );
}

#[test]
fn lexer_continues_after_error() {
    let mut lexer = Lexer::new(&"~ 5".to_string());
    assert_eq!(
        lexer.next(),
        Some(Err(LexError::UnknownToken("~".to_string())))
    );
    assert_eq!(lexer.next(), Some(Ok(int_tok(5))));
    assert_eq!(lexer.next(), None);
}

#[test]
fn string_literal_keeps_contents() {
    assert_eq!(
        lex_ok("\"hello world\""),
        vec![Token::LITERAL(Literal::STRING("hello world".to_string()))]
    );
}

#[test]
fn empty_string_literal() {
    assert_eq!(
        lex_ok("\"\""),
        vec![Token::LITERAL(Literal::STRING(String::new()))]
    );
}

#[test]
fn unterminated_string_is_an_error() {
    let toks = tokenize(&"\"abc".to_string());
    assert_eq!(toks, vec![Err(LexError::UnterminatedString)]);
}

#[test]
fn all_keywords_lex_to_keyword_tokens() {
    assert_eq!(
        lex_ok("and class else false fun for if nil or print return super this true var while"),
        vec![
            Token::AND,
            Token::CLASS,
            Token::ELSE,
            Token::FALSE,
            Token::FUN,
            Token::FOR,
            Token::IF,
            Token::NIL,
            Token::OR,
            Token::PRINT,
            Token::RETURN,
            Token::SUPER,
            Token::THIS,
            Token::TRUE,
            Token::VAR,
            Token::WHILE,
        ]
    );
}

#[test]
fn near_keyword_is_identifier() {
    assert_eq!(
        lex_ok("andy _x1"),
        vec![
            Token::IDENTIFIER("andy".to_string()),
            Token::IDENTIFIER("_x1".to_string()),
        ]
    );
}

#[test]
fn single_character_symbols() {
    assert_eq!(
        lex_ok("( ) { } , . - + ; * = < >"),
        vec![
            Token::LPAREN,
            Token::RPAREN,
            Token::LBRACE,
            Token::RBRACE,
            Token::COMMA,
            Token::DOT,
            Token::MINUS,
            Token::PLUS,
            Token::SEMICOLON,
            Token::STAR,
            Token::EQUAL,
            Token::LESS,
            Token::GREATER,
        ]
    );
}

#[test]
fn slash_alone_is_a_token() {
    assert_eq!(lex_ok("1 / 2"), vec![int_tok(1), Token::SLASH, int_tok(2)]);
}

#[test]
fn two_character_symbols() {
    assert_eq!(
        lex_ok("== <= >= !="),
        vec![
            Token::EQUAL_EQUAL,
            Token::LESS_EQUAL,
            Token::GREATER_EQUAL,
            Token::BANG_EQUAL,
        ]
    );
}

#[test]
fn separated_characters_stay_separate() {
    assert_eq!(lex_ok("< ="), vec![Token::LESS, Token::EQUAL]);
}

#[test]
fn whitespace_only_yields_nothing() {
    assert_eq!(lex_ok(""), vec![]);
    assert_eq!(lex_ok("  \t\r\n "), vec![]);
    assert_eq!(lex_ok("\u{b}\u{c}\u{85}\u{a0}\u{2003}\u{3000}"), vec![]);
}

#[test]
fn non_ascii_letter_starts_identifier() {
    assert_eq!(
        lex_ok("h\u{e9}llo"),
        vec![Token::IDENTIFIER("h\u{e9}llo".to_string())]
    );
}

#[test]
fn is_identifier_accepts_non_ascii_letters() {
    assert!(Lexer::is_identifier('\u{e9}'));
    assert!(Lexer::is_identifier('_'));
    assert!(!Lexer::is_identifier('~'));
}

#[test]
fn non_break_space_separates_tokens() {
    assert_eq!(lex_ok("1\u{a0}2"), vec![int_tok(1), int_tok(2)]);
}

#[test]
fn non_ascii_numeric_is_invalid_number() {
    let toks = tokenize(&"\u{663}".to_string());
    assert_eq!(
        toks,
        vec![Err(LexError::InvalidNumber("\u{663}".to_string()))]
    );
}

#[test]
fn precedence_table_values() {
    assert_eq!(binary_op_precedence("="), 0);
    assert_eq!(binary_op_precedence("=="), 10);
    assert_eq!(binary_op_precedence("!="), 10);
    assert_eq!(binary_op_precedence("<"), 10);
    assert_eq!(binary_op_precedence(">"), 10);
    assert_eq!(binary_op_precedence("<="), 10);
    assert_eq!(binary_op_precedence(">="), 10);
    assert_eq!(binary_op_precedence("+"), 20);
    assert_eq!(binary_op_precedence("-"), 20);
    assert_eq!(binary_op_precedence("*"), 30);
    assert_eq!(binary_op_precedence("/"), 30);
    assert_eq!(binary_op_precedence("//"), -1);
    assert_eq!(binary_op_precedence(","), -1);
    assert_eq!(binary_op_precedence("foo"), -1);
    assert_eq!(binary_op_precedence(""), -1);
}

#[test]
fn check_pattern_accepts() {
    assert!(check_pattern("*.rl", &Some("print 1;".to_string())));
    assert!(check_pattern("*.rl", &None));
}

#[test]
fn ok_tokens_drops_errors_keeps_order() {
    let results = tokenize(&"1 ~ 2".to_string());
    assert_eq!(ok_tokens(results), vec![int_tok(1), int_tok(2)]);
}
