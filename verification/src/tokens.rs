//! Lexical tokens of the language, their mathematical views, and the
//! binary-operator precedence table.

#![allow(non_camel_case_types)]

use vstd::prelude::*;
use vstd::string::StrSliceExecFns;

verus! {

/// One lexical unit of source text.
#[derive(Debug, Clone, PartialEq, Eq)]
pub enum Token {
    // Single-character symbols.
    LPAREN,
    RPAREN,
    LBRACE,
    RBRACE,
    COMMA,
    DOT,
    MINUS,
    PLUS,
    SEMICOLON,
    SLASH,
    STAR,
    // One- or two-character symbols.
    BANG,
    BANG_EQUAL,
    EQUAL,
    EQUAL_EQUAL,
    GREATER,
    GREATER_EQUAL,
    LESS,
    LESS_EQUAL,
    // The symbol "//" as a token; comments never reach the token stream,
    // so the tokenizer never emits it.
    NOOP,
    IDENTIFIER(String),
    LITERAL(Literal),
    // Reserved keywords.
    AND,
    CLASS,
    ELSE,
    FALSE,
    FUN,
    FOR,
    IF,
    NIL,
    OR,
    PRINT,
    RETURN,
    SUPER,
    THIS,
    TRUE,
    VAR,
    WHILE,
    EOF,
}

/// A constant value embedded in source text.
#[derive(Debug, Clone, PartialEq, Eq)]
pub enum Literal {
    STRING(String),
    INTEGER(i32),
    BOOLEAN(bool),
}

/// Mathematical view of a [`Token`]: text is a sequence of characters.
pub enum TokenV {
    LPAREN,
    RPAREN,
    LBRACE,
    RBRACE,
    COMMA,
    DOT,
    MINUS,
    PLUS,
    SEMICOLON,
    SLASH,
    STAR,
    BANG,
    BANG_EQUAL,
    EQUAL,
    EQUAL_EQUAL,
    GREATER,
    GREATER_EQUAL,
    LESS,
    LESS_EQUAL,
    NOOP,
    IDENTIFIER(Seq<char>),
    LITERAL(LitV),
    AND,
    CLASS,
    ELSE,
    FALSE,
    FUN,
    FOR,
    IF,
    NIL,
    OR,
    PRINT,
    RETURN,
    SUPER,
    THIS,
    TRUE,
    VAR,
    WHILE,
    EOF,
}

/// Mathematical view of a [`Literal`].
pub enum LitV {
    STRING(Seq<char>),
    INTEGER(i32),
    BOOLEAN(bool),
}

impl View for Literal {
    type V = LitV;

    open spec fn view(&self) -> LitV {
        match self {
            Literal::STRING(s) => LitV::STRING(s@),
            Literal::INTEGER(i) => LitV::INTEGER(*i),
            Literal::BOOLEAN(b) => LitV::BOOLEAN(*b),
        }
    }
}

impl View for Token {
    type V = TokenV;

    open spec fn view(&self) -> TokenV {
        match self {
            Token::LPAREN => TokenV::LPAREN,
            Token::RPAREN => TokenV::RPAREN,
            Token::LBRACE => TokenV::LBRACE,
            Token::RBRACE => TokenV::RBRACE,
            Token::COMMA => TokenV::COMMA,
            Token::DOT => TokenV::DOT,
            Token::MINUS => TokenV::MINUS,
            Token::PLUS => TokenV::PLUS,
            Token::SEMICOLON => TokenV::SEMICOLON,
            Token::SLASH => TokenV::SLASH,
            Token::STAR => TokenV::STAR,
            Token::BANG => TokenV::BANG,
            Token::BANG_EQUAL => TokenV::BANG_EQUAL,
            Token::EQUAL => TokenV::EQUAL,
            Token::EQUAL_EQUAL => TokenV::EQUAL_EQUAL,
            Token::GREATER => TokenV::GREATER,
            Token::GREATER_EQUAL => TokenV::GREATER_EQUAL,
            Token::LESS => TokenV::LESS,
            Token::LESS_EQUAL => TokenV::LESS_EQUAL,
            Token::NOOP => TokenV::NOOP,
            Token::IDENTIFIER(s) => TokenV::IDENTIFIER(s@),
            Token::LITERAL(l) => TokenV::LITERAL(l@),
            Token::AND => TokenV::AND,
            Token::CLASS => TokenV::CLASS,
            Token::ELSE => TokenV::ELSE,
            Token::FALSE => TokenV::FALSE,
            Token::FUN => TokenV::FUN,
            Token::FOR => TokenV::FOR,
            Token::IF => TokenV::IF,
            Token::NIL => TokenV::NIL,
            Token::OR => TokenV::OR,
            Token::PRINT => TokenV::PRINT,
            Token::RETURN => TokenV::RETURN,
            Token::SUPER => TokenV::SUPER,
            Token::THIS => TokenV::THIS,
            Token::TRUE => TokenV::TRUE,
            Token::VAR => TokenV::VAR,
            Token::WHILE => TokenV::WHILE,
            Token::EOF => TokenV::EOF,
        }
    }
}

/// Operators that may stand in prefix (unary) position.
#[derive(Debug, Clone, Copy, PartialEq, Eq, Structural)]
pub enum UnaryOp {
    Minus,
    Bang,
}

/// Operators that may stand between two operands.
#[derive(Debug, Clone, Copy, PartialEq, Eq, Structural)]
pub enum BinaryOp {
    Equal,
    EqualEqual,
    BangEqual,
    Less,
    Greater,
    LessEqual,
    GreaterEqual,
    Plus,
    Minus,
    Star,
    Slash,
}

/// Binding precedence of one binary operator.
pub open spec fn spec_binop_precedence(op: BinaryOp) -> int {
    match op {
        BinaryOp::Equal => 0,
        BinaryOp::EqualEqual => 10,
        BinaryOp::BangEqual => 10,
        BinaryOp::Less => 10,
        BinaryOp::Greater => 10,
        BinaryOp::LessEqual => 10,
        BinaryOp::GreaterEqual => 10,
        BinaryOp::Plus => 20,
        BinaryOp::Minus => 20,
        BinaryOp::Star => 30,
        BinaryOp::Slash => 30,
    }
}

/// Binding precedence of one binary operator, in executable code.
pub(crate) fn binop_precedence(op: BinaryOp) -> (p: i32)
    ensures
        p as int == spec_binop_precedence(op),
{
    match op {
        BinaryOp::Equal => 0,
        BinaryOp::EqualEqual => 10,
        BinaryOp::BangEqual => 10,
        BinaryOp::Less => 10,
        BinaryOp::Greater => 10,
        BinaryOp::LessEqual => 10,
        BinaryOp::GreaterEqual => 10,
        BinaryOp::Plus => 20,
        BinaryOp::Minus => 20,
        BinaryOp::Star => 30,
        BinaryOp::Slash => 30,
    }
}

/// The binary operator a token stands for, if any.
pub open spec fn binop_of_token(t: TokenV) -> Option<BinaryOp> {
    match t {
        TokenV::EQUAL => Some(BinaryOp::Equal),
        TokenV::EQUAL_EQUAL => Some(BinaryOp::EqualEqual),
        TokenV::BANG_EQUAL => Some(BinaryOp::BangEqual),
        TokenV::LESS => Some(BinaryOp::Less),
        TokenV::GREATER => Some(BinaryOp::Greater),
        TokenV::LESS_EQUAL => Some(BinaryOp::LessEqual),
        TokenV::GREATER_EQUAL => Some(BinaryOp::GreaterEqual),
        TokenV::PLUS => Some(BinaryOp::Plus),
        TokenV::MINUS => Some(BinaryOp::Minus),
        TokenV::STAR => Some(BinaryOp::Star),
        TokenV::SLASH => Some(BinaryOp::Slash),
        _ => None,
    }
}

/// The binary operator an exec token stands for, if any.
pub(crate) fn token_binary_op(t: &Token) -> (r: Option<BinaryOp>)
    ensures
        r == binop_of_token(t@),
{
    match t {
        Token::EQUAL => Some(BinaryOp::Equal),
        Token::EQUAL_EQUAL => Some(BinaryOp::EqualEqual),
        Token::BANG_EQUAL => Some(BinaryOp::BangEqual),
        Token::LESS => Some(BinaryOp::Less),
        Token::GREATER => Some(BinaryOp::Greater),
        Token::LESS_EQUAL => Some(BinaryOp::LessEqual),
        Token::GREATER_EQUAL => Some(BinaryOp::GreaterEqual),
        Token::PLUS => Some(BinaryOp::Plus),
        Token::MINUS => Some(BinaryOp::Minus),
        Token::STAR => Some(BinaryOp::Star),
        Token::SLASH => Some(BinaryOp::Slash),
        _ => None,
    }
}

/// Precedence of a single-character operator spelling.
pub open spec fn char_precedence(c: char) -> int {
    if c == '=' {
        0
    } else if c == '<' || c == '>' {
        10
    } else if c == '+' || c == '-' {
        20
    } else if c == '*' || c == '/' {
        30
    } else {
        -1
    }
}

/// Precedence of an operator spelling; -1 is the sentinel for text that is
/// not a binary operator.
pub open spec fn spec_str_precedence(s: Seq<char>) -> int {
    if s.len() == 1 {
        char_precedence(s[0])
    } else if s.len() == 2 && s[1] == '=' && (s[0] == '=' || s[0] == '!' || s[0] == '<' || s[0]
        == '>') {
        10
    } else {
        -1
    }
}

/// Binding precedence of a binary operator written as text: assignment binds
/// loosest (0), then equality and relational operators (10), additive (20),
/// multiplicative (30). Anything else is not a binary operator and maps to
/// the sentinel -1.
pub fn binary_op_precedence(op: &str) -> (p: i32)
    ensures
        p as int == spec_str_precedence(op@),
{
    let n = op.unicode_len();
    if n == 1 {
        let c = op.get_char(0);
        if c == '=' {
            0
        } else if c == '<' || c == '>' {
            10
        } else if c == '+' || c == '-' {
            20
        } else if c == '*' || c == '/' {
            30
        } else {
            -1
        }
    } else if n == 2 {
        let c0 = op.get_char(0);
        let c1 = op.get_char(1);
        if c1 == '=' && (c0 == '=' || c0 == '!' || c0 == '<' || c0 == '>') {
            10
        } else {
            -1
        }
    } else {
        -1
    }
}

/// The token a single-character symbol spelling stands for, if any.
pub open spec fn symbol1_token(c: char) -> Option<TokenV> {
    if c == '(' {
        Some(TokenV::LPAREN)
    } else if c == ')' {
        Some(TokenV::RPAREN)
    } else if c == '{' {
        Some(TokenV::LBRACE)
    } else if c == '}' {
        Some(TokenV::RBRACE)
    } else if c == ',' {
        Some(TokenV::COMMA)
    } else if c == '.' {
        Some(TokenV::DOT)
    } else if c == '-' {
        Some(TokenV::MINUS)
    } else if c == '+' {
        Some(TokenV::PLUS)
    } else if c == ';' {
        Some(TokenV::SEMICOLON)
    } else if c == '/' {
        Some(TokenV::SLASH)
    } else if c == '*' {
        Some(TokenV::STAR)
    } else if c == '!' {
        Some(TokenV::BANG)
    } else if c == '=' {
        Some(TokenV::EQUAL)
    } else if c == '>' {
        Some(TokenV::GREATER)
    } else if c == '<' {
        Some(TokenV::LESS)
    } else {
        None
    }
}

/// The token a two-character symbol spelling stands for, if any. The symbol
/// "//" maps to [`TokenV::NOOP`]; the tokenizer treats it as the start of a
/// comment instead of emitting it.
pub open spec fn symbol2_token(c0: char, c1: char) -> Option<TokenV> {
    if c0 == '!' && c1 == '=' {
        Some(TokenV::BANG_EQUAL)
    } else if c0 == '=' && c1 == '=' {
        Some(TokenV::EQUAL_EQUAL)
    } else if c0 == '>' && c1 == '=' {
        Some(TokenV::GREATER_EQUAL)
    } else if c0 == '<' && c1 == '=' {
        Some(TokenV::LESS_EQUAL)
    } else if c0 == '/' && c1 == '/' {
        Some(TokenV::NOOP)
    } else {
        None
    }
}

} // verus!
