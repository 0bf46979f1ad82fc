//! The tokenizer: turns source text into tokens, one at a time, on demand.
//!
//! The mathematical model is [`lex_next`], which maps the remaining input to
//! the next token (or lexical error) and the input left after it. A lexical
//! error does not stop the stream: the caller may keep pulling tokens.

use vstd::prelude::*;
use vstd::string::{StrSliceExecFns, StringExecFns};
use crate::tokens::{symbol1_token, symbol2_token, LitV, Literal, Token, TokenV};

verus! {

/// Why one token failed to form.
#[derive(Debug, Clone, PartialEq, Eq)]
pub enum LexError {
    /// The text fits no lexical rule.
    UnknownToken(String),
    /// A run of digits does not fit the 32-bit signed integer type.
    InvalidNumber(String),
    /// A string literal's closing quote is missing before end of input.
    UnterminatedString,
}

/// Mathematical view of a [`LexError`].
pub enum LexErrorV {
    UnknownToken(Seq<char>),
    InvalidNumber(Seq<char>),
    UnterminatedString,
}

impl View for LexError {
    type V = LexErrorV;

    open spec fn view(&self) -> LexErrorV {
        match self {
            LexError::UnknownToken(s) => LexErrorV::UnknownToken(s@),
            LexError::InvalidNumber(s) => LexErrorV::InvalidNumber(s@),
            LexError::UnterminatedString => LexErrorV::UnterminatedString,
        }
    }
}

/// Whitespace skipped between tokens: the White_Space set, written out code
/// point by code point.
pub open spec fn is_ws_char(c: char) -> bool {
    let u = c as u32;
    (0x9 <= u && u <= 0xD) || u == 0x20 || u == 0x85 || u == 0xA0 || u == 0x1680 || (0x2000 <= u
        && u <= 0x200A) || u == 0x2028 || u == 0x2029 || u == 0x202F || u == 0x205F || u == 0x3000
}

/// A decimal digit, the only characters an integer literal's value is read
/// from.
pub open spec fn is_digit_char(c: char) -> bool {
    '0' as u32 <= c as u32 && c as u32 <= '9' as u32
}

/// A letter of the basic alphabet.
pub open spec fn is_letter_char(c: char) -> bool {
    ('a' as u32 <= c as u32 && c as u32 <= 'z' as u32) || ('A' as u32 <= c as u32 && c as u32
        <= 'Z' as u32)
}

/// What `char::is_alphanumeric` returns beyond the ASCII range: a fixed set
/// far too large to write out, so it is named, not spelled.
pub uninterp spec fn unicode_alnum(c: char) -> bool;

/// What `char::is_numeric` returns beyond the ASCII range: named, not
/// spelled, for the same reason.
pub uninterp spec fn unicode_numeric(c: char) -> bool;

/// An alphanumeric character in the sense of `char::is_alphanumeric`: within
/// ASCII exactly the letters and digits, beyond it the named set.
pub open spec fn alnum_char(c: char) -> bool {
    if c as u32 <= 0x7F {
        is_letter_char(c) || is_digit_char(c)
    } else {
        unicode_alnum(c)
    }
}

/// A numeric character in the sense of `char::is_numeric`: within ASCII
/// exactly the decimal digits, beyond it the named set.
pub open spec fn numeric_char(c: char) -> bool {
    if c as u32 <= 0x7F {
        is_digit_char(c)
    } else {
        unicode_numeric(c)
    }
}

/// A character that may continue an identifier: alphanumeric or underscore.
pub open spec fn is_ident_char(c: char) -> bool {
    alnum_char(c) || c == '_'
}

/// Relies on char::is_alphanumeric: within ASCII it holds of exactly the
/// letters and digits, as its documentation gives; beyond ASCII its result
/// depends on the character alone and carries the name [`unicode_alnum`].
pub assume_specification[ char::is_alphanumeric ](c: char) -> (r: bool)
    ensures
        r == alnum_char(c),
        c as u32 > 0x7F ==> r == unicode_alnum(c),
;

/// Relies on char::is_numeric: within ASCII it holds of exactly the decimal
/// digits, as its documentation gives; beyond ASCII its result depends on
/// the character alone and carries the name [`unicode_numeric`].
pub assume_specification[ char::is_numeric ](c: char) -> (r: bool)
    ensures
        r == numeric_char(c),
        c as u32 > 0x7F ==> r == unicode_numeric(c),
;

/// The character classes whose runs the tokenizer scans greedily.
#[derive(Debug, Clone, Copy, PartialEq, Eq, Structural)]
pub enum CharPred {
    Whitespace,
    Ident,
    Numeric,
    NotQuote,
    NotNewline,
}

/// Whether `c` belongs to the class `p`.
pub open spec fn pred_holds(p: CharPred, c: char) -> bool {
    match p {
        CharPred::Whitespace => is_ws_char(c),
        CharPred::Ident => is_ident_char(c),
        CharPred::Numeric => numeric_char(c),
        CharPred::NotQuote => c != '"',
        CharPred::NotNewline => c != '\n',
    }
}

/// Length of the longest prefix of `s` whose characters all belong to `p`.
pub open spec fn pred_len(p: CharPred, s: Seq<char>) -> nat
    decreases s.len(),
{
    if s.len() > 0 && pred_holds(p, s[0]) {
        (1 + pred_len(p, s.skip(1))) as nat
    } else {
        0
    }
}

/// A class prefix never runs past the end of the input.
pub proof fn lemma_pred_len_le(p: CharPred, s: Seq<char>)
    ensures
        pred_len(p, s) <= s.len(),
    decreases s.len(),
{
    if s.len() > 0 && pred_holds(p, s[0]) {
        lemma_pred_len_le(p, s.skip(1));
    }
}

/// The class prefix consists of members of the class, and ends right before
/// the first character outside it.
pub proof fn lemma_pred_len_facts(p: CharPred, s: Seq<char>)
    ensures
        pred_len(p, s) <= s.len(),
        forall|i: int| 0 <= i < pred_len(p, s) ==> pred_holds(p, s[i]),
        pred_len(p, s) < s.len() ==> !pred_holds(p, s[pred_len(p, s) as int]),
    decreases s.len(),
{
    lemma_pred_len_le(p, s);
    if s.len() > 0 && pred_holds(p, s[0]) {
        lemma_pred_len_facts(p, s.skip(1));
        assert forall|i: int| 0 <= i < pred_len(p, s) implies pred_holds(p, s[i]) by {
            if i > 0 {
                assert(s[i] == s.skip(1)[i - 1]);
            }
        }
    }
}

/// If every character of `s` belongs to `p`, the class prefix is all of `s`.
pub proof fn lemma_pred_len_all(p: CharPred, s: Seq<char>)
    requires
        forall|i: int| 0 <= i < s.len() ==> pred_holds(p, s[i]),
    ensures
        pred_len(p, s) == s.len(),
{
    lemma_pred_len_facts(p, s);
}

/// Numeric value of a digit character.
pub open spec fn digit_val(c: char) -> int {
    c as u32 - '0' as u32
}

/// Value denoted by a run of decimal digits, most significant first.
pub open spec fn digits_val(s: Seq<char>) -> int
    decreases s.len(),
{
    if s.len() == 0 {
        0
    } else {
        10 * digits_val(s.drop_last()) + digit_val(s.last())
    }
}

/// A digit run denotes a value that is not negative.
pub proof fn lemma_digits_val_nonneg(s: Seq<char>)
    requires
        forall|i: int| 0 <= i < s.len() ==> is_digit_char(s[i]),
    ensures
        digits_val(s) >= 0,
    decreases s.len(),
{
    if s.len() > 0 {
        lemma_digits_val_nonneg(s.drop_last());
    }
}

/// Extending a digit run on the right never shrinks its value.
pub proof fn lemma_digits_val_take_le(s: Seq<char>, j: int)
    requires
        forall|i: int| 0 <= i < s.len() ==> is_digit_char(s[i]),
        0 <= j <= s.len(),
    ensures
        digits_val(s.take(j)) <= digits_val(s),
    decreases s.len() - j,
{
    if j < s.len() {
        lemma_digits_val_take_le(s, j + 1);
        let t = s.take(j + 1);
        assert(t.drop_last() =~= s.take(j));
        assert(forall|i: int| 0 <= i < s.take(j).len() ==> is_digit_char(s.take(j)[i]));
        lemma_digits_val_nonneg(s.take(j));
        assert(digits_val(t) == 10 * digits_val(s.take(j)) + digit_val(t.last()));
    } else {
        assert(s.take(j) =~= s);
    }
}

/// Every character of `s` is a decimal digit.
pub open spec fn all_ascii_digits(s: Seq<char>) -> bool {
    forall|i: int| 0 <= i < s.len() ==> is_digit_char(#[trigger] s[i])
}

/// The sixteen reserved words.
pub open spec fn keyword_token(s: Seq<char>) -> Option<TokenV> {
    if s == "and"@ {
        Some(TokenV::AND)
    } else if s == "class"@ {
        Some(TokenV::CLASS)
    } else if s == "else"@ {
        Some(TokenV::ELSE)
    } else if s == "false"@ {
        Some(TokenV::FALSE)
    } else if s == "fun"@ {
        Some(TokenV::FUN)
    } else if s == "for"@ {
        Some(TokenV::FOR)
    } else if s == "if"@ {
        Some(TokenV::IF)
    } else if s == "nil"@ {
        Some(TokenV::NIL)
    } else if s == "or"@ {
        Some(TokenV::OR)
    } else if s == "print"@ {
        Some(TokenV::PRINT)
    } else if s == "return"@ {
        Some(TokenV::RETURN)
    } else if s == "super"@ {
        Some(TokenV::SUPER)
    } else if s == "this"@ {
        Some(TokenV::THIS)
    } else if s == "true"@ {
        Some(TokenV::TRUE)
    } else if s == "var"@ {
        Some(TokenV::VAR)
    } else if s == "while"@ {
        Some(TokenV::WHILE)
    } else {
        None
    }
}

/// A scanned word is either a keyword token or an identifier token.
pub open spec fn keyword_or_ident(s: Seq<char>) -> TokenV {
    match keyword_token(s) {
        Some(t) => t,
        None => TokenV::IDENTIFIER(s),
    }
}

/// The next token of the input `s`: `None` when only whitespace is left,
/// otherwise the token or lexical error together with the input remaining
/// after it. Comments (`//` to end of line) are skipped, never emitted.
pub open spec fn lex_next(s: Seq<char>) -> Option<(Result<TokenV, LexErrorV>, Seq<char>)>
    decreases s.len(),
    via lex_next_decreases
{
    let k = pred_len(CharPred::Whitespace, s) as int;
    if k >= s.len() {
        None
    } else {
        let t = s.skip(k);
        let c = t[0];
        if is_ident_char(c) && !numeric_char(c) {
            let n = pred_len(CharPred::Ident, t) as int;
            Some((Ok(keyword_or_ident(t.take(n))), t.skip(n)))
        } else if numeric_char(c) {
            let n = pred_len(CharPred::Numeric, t) as int;
            let text = t.take(n);
            if all_ascii_digits(text) && digits_val(text) <= i32::MAX as int {
                Some((Ok(TokenV::LITERAL(LitV::INTEGER(digits_val(text) as i32))), t.skip(n)))
            } else {
                Some((Err(LexErrorV::InvalidNumber(text)), t.skip(n)))
            }
        } else if c == '"' {
            let m = pred_len(CharPred::NotQuote, t.skip(1)) as int;
            if 1 + m == t.len() {
                Some((Err(LexErrorV::UnterminatedString), Seq::empty()))
            } else {
                Some((Ok(TokenV::LITERAL(LitV::STRING(t.subrange(1, 1 + m)))), t.skip(2 + m)))
            }
        } else if t.len() >= 2 && c == '/' && t[1] == '/' {
            let m = pred_len(CharPred::NotNewline, t.skip(2)) as int;
            lex_next(t.skip(2 + m))
        } else {
            let two = if t.len() >= 2 {
                symbol2_token(c, t[1])
            } else {
                None
            };
            match two {
                Some(tok) => Some((Ok(tok), t.skip(2))),
                None => match symbol1_token(c) {
                    Some(tok) => Some((Ok(tok), t.skip(1))),
                    None => Some((Err(LexErrorV::UnknownToken(seq![c])), t.skip(1))),
                },
            }
        }
    }
}

#[via_fn]
proof fn lex_next_decreases(s: Seq<char>) {
    lemma_pred_len_le(CharPred::Whitespace, s);
    let k = pred_len(CharPred::Whitespace, s) as int;
    if k < s.len() {
        lemma_pred_len_le(CharPred::NotNewline, s.skip(k).skip(2));
    }
}

/// View of one tokenizer result.
pub open spec fn lex_res_view(r: Result<Token, LexError>) -> Result<TokenV, LexErrorV> {
    match r {
        Ok(t) => Ok(t@),
        Err(e) => Err(e@),
    }
}

/// View of a sequence of tokenizer results.
pub open spec fn lex_results_view(rs: Seq<Result<Token, LexError>>) -> Seq<
    Result<TokenV, LexErrorV>,
> {
    rs.map_values(|r: Result<Token, LexError>| lex_res_view(r))
}

/// Every token and lexical error of the input `s`, in order.
pub open spec fn spec_tokens(s: Seq<char>) -> Seq<Result<TokenV, LexErrorV>>
    decreases s.len(),
{
    match lex_next(s) {
        None => Seq::empty(),
        Some((r, rest)) => if rest.len() < s.len() {
            seq![r] + spec_tokens(rest)
        } else {
            seq![r]
        },
    }
}

/// Round trip for integer literals: tokenizing a string of digits whose
/// value fits the 32-bit signed integer type yields exactly one token, an
/// integer literal carrying the value the digits denote, with no input left.
pub proof fn lemma_integer_literal_round_trip(s: Seq<char>)
    requires
        s.len() > 0,
        all_ascii_digits(s),
        digits_val(s) <= i32::MAX as int,
    ensures
        lex_next(s) == Some(
            (
                Ok::<TokenV, LexErrorV>(TokenV::LITERAL(LitV::INTEGER(digits_val(s) as i32))),
                Seq::<char>::empty(),
            ),
        ),
{
    assert(is_digit_char(s[0]));
    assert(!is_ws_char(s[0]));
    assert(pred_len(CharPred::Whitespace, s) == 0);
    assert(s.skip(0) =~= s);
    assert forall|i: int| 0 <= i < s.len() implies pred_holds(CharPred::Numeric, s[i]) by {
        assert(is_digit_char(s[i]));
    }
    lemma_pred_len_all(CharPred::Numeric, s);
    let n = pred_len(CharPred::Numeric, s) as int;
    assert(s.take(n) =~= s);
    assert(s.skip(n) =~= Seq::<char>::empty());
}

/// Greedy symbol matching: when the input starts with a two-character symbol
/// other than the comment opener, the tokenizer yields that symbol's token
/// whole, never its first character alone.
pub proof fn lemma_greedy_symbol_match(s: Seq<char>, tok: TokenV)
    requires
        s.len() >= 2,
        symbol2_token(s[0], s[1]) == Some(tok),
        !(s[0] == '/' && s[1] == '/'),
    ensures
        lex_next(s) == Some((Ok::<TokenV, LexErrorV>(tok), s.skip(2))),
{
    assert(!is_ws_char(s[0]));
    assert(pred_len(CharPred::Whitespace, s) == 0);
    assert(s.skip(0) =~= s);
    assert(!is_ident_char(s[0]));
    assert(!numeric_char(s[0]));
}

/// Comment stripping: the token stream never holds the comment symbol; what
/// a `//` opens is dropped to the end of its line.
pub proof fn lemma_comments_never_tokens(s: Seq<char>)
    ensures
        match lex_next(s) {
            Some((Ok(t), _)) => t != TokenV::NOOP,
            _ => true,
        },
    decreases s.len(),
{
    let k = pred_len(CharPred::Whitespace, s) as int;
    lemma_pred_len_le(CharPred::Whitespace, s);
    if k < s.len() {
        let t = s.skip(k);
        let c = t[0];
        if t.len() >= 2 && c == '/' && t[1] == '/' {
            let m = pred_len(CharPred::NotNewline, t.skip(2)) as int;
            lemma_pred_len_le(CharPred::NotNewline, t.skip(2));
            lemma_comments_never_tokens(t.skip(2 + m));
        }
    }
}

/// Whether `c` belongs to the class `p`, decided in executable code.
fn check_char(p: CharPred, c: char) -> (b: bool)
    ensures
        b == pred_holds(p, c),
{
    match p {
        CharPred::Whitespace => is_white(c),
        CharPred::Ident => Lexer::is_identifier(c),
        CharPred::Numeric => c.is_numeric(),
        CharPred::NotQuote => c != '"',
        CharPred::NotNewline => c != '\n',
    }
}

/// Whether `c` is in the White_Space set, decided in executable code.
fn is_white(c: char) -> (b: bool)
    ensures
        b == is_ws_char(c),
{
    let u = c as u32;
    (0x9 <= u && u <= 0xD) || u == 0x20 || u == 0x85 || u == 0xA0 || u == 0x1680 || (0x2000 <= u
        && u <= 0x200A) || u == 0x2028 || u == 0x2029 || u == 0x202F || u == 0x205F || u == 0x3000
}

/// Whether `c` is a decimal digit, decided in executable code.
fn is_digit(c: char) -> (b: bool)
    ensures
        b == is_digit_char(c),
{
    let u = c as u32;
    ('0' as u32) <= u && u <= ('9' as u32)
}

/// Whether two pieces of text hold the same characters.
fn str_content_eq(a: &str, b: &str) -> (r: bool)
    ensures
        r == (a@ == b@),
{
    let sa = String::from_str(a);
    let sb = String::from_str(b);
    sa == sb
}

/// The token a scanned word stands for: a reserved word's token, or an
/// identifier carrying the word itself.
fn keyword_or_identifier(name: String) -> (t: Token)
    ensures
        t@ == keyword_or_ident(name@),
{
    if str_content_eq(name.as_str(), "and") {
        Token::AND
    } else if str_content_eq(name.as_str(), "class") {
        Token::CLASS
    } else if str_content_eq(name.as_str(), "else") {
        Token::ELSE
    } else if str_content_eq(name.as_str(), "false") {
        Token::FALSE
    } else if str_content_eq(name.as_str(), "fun") {
        Token::FUN
    } else if str_content_eq(name.as_str(), "for") {
        Token::FOR
    } else if str_content_eq(name.as_str(), "if") {
        Token::IF
    } else if str_content_eq(name.as_str(), "nil") {
        Token::NIL
    } else if str_content_eq(name.as_str(), "or") {
        Token::OR
    } else if str_content_eq(name.as_str(), "print") {
        Token::PRINT
    } else if str_content_eq(name.as_str(), "return") {
        Token::RETURN
    } else if str_content_eq(name.as_str(), "super") {
        Token::SUPER
    } else if str_content_eq(name.as_str(), "this") {
        Token::THIS
    } else if str_content_eq(name.as_str(), "true") {
        Token::TRUE
    } else if str_content_eq(name.as_str(), "var") {
        Token::VAR
    } else if str_content_eq(name.as_str(), "while") {
        Token::WHILE
    } else {
        Token::IDENTIFIER(name)
    }
}

/// View of an optional token.
pub open spec fn opt_tok_view(t: Option<Token>) -> Option<TokenV> {
    match t {
        Some(tok) => Some(tok@),
        None => None,
    }
}

/// The token a two-character symbol spelling stands for, in executable code.
fn symbol_two(c0: char, c1: char) -> (t: Option<Token>)
    ensures
        opt_tok_view(t) == symbol2_token(c0, c1),
{
    if c0 == '!' && c1 == '=' {
        Some(Token::BANG_EQUAL)
    } else if c0 == '=' && c1 == '=' {
        Some(Token::EQUAL_EQUAL)
    } else if c0 == '>' && c1 == '=' {
        Some(Token::GREATER_EQUAL)
    } else if c0 == '<' && c1 == '=' {
        Some(Token::LESS_EQUAL)
    } else if c0 == '/' && c1 == '/' {
        Some(Token::NOOP)
    } else {
        None
    }
}

/// The token a single-character symbol spelling stands for, in executable code.
fn symbol_one(c: char) -> (t: Option<Token>)
    ensures
        opt_tok_view(t) == symbol1_token(c),
{
    if c == '(' {
        Some(Token::LPAREN)
    } else if c == ')' {
        Some(Token::RPAREN)
    } else if c == '{' {
        Some(Token::LBRACE)
    } else if c == '}' {
        Some(Token::RBRACE)
    } else if c == ',' {
        Some(Token::COMMA)
    } else if c == '.' {
        Some(Token::DOT)
    } else if c == '-' {
        Some(Token::MINUS)
    } else if c == '+' {
        Some(Token::PLUS)
    } else if c == ';' {
        Some(Token::SEMICOLON)
    } else if c == '/' {
        Some(Token::SLASH)
    } else if c == '*' {
        Some(Token::STAR)
    } else if c == '!' {
        Some(Token::BANG)
    } else if c == '=' {
        Some(Token::EQUAL)
    } else if c == '>' {
        Some(Token::GREATER)
    } else if c == '<' {
        Some(Token::LESS)
    } else {
        None
    }
}

/// The 32-bit signed value of a run of scanned numeric characters: `None`
/// when any of them is no decimal digit, or the value overflows the type.
fn digits_to_i32(digits: &Vec<char>) -> (r: Option<i32>)
    ensures
        match r {
            Some(v) => all_ascii_digits(digits@) && digits_val(digits@) <= i32::MAX as int && v
                == digits_val(digits@) as i32,
            None => !(all_ascii_digits(digits@) && digits_val(digits@) <= i32::MAX as int),
        },
{
    let mut acc: i32 = 0;
    let mut i: usize = 0;
    while i < digits.len()
        invariant
            0 <= i <= digits@.len(),
            forall|j: int| 0 <= j < i ==> is_digit_char(#[trigger] digits@[j]),
            0 <= acc,
            acc == digits_val(digits@.take(i as int)),
        decreases digits@.len() - i,
    {
        let c = digits[i];
        if !is_digit(c) {
            proof {
                assert(!is_digit_char(digits@[i as int]));
            }
            return None;
        }
        let d: u32 = (c as u32) - ('0' as u32);
        let next: i64 = (acc as i64) * 10 + (d as i64);
        proof {
            let t = digits@.take(i + 1);
            assert(t.drop_last() =~= digits@.take(i as int));
            assert(t.last() == digits@[i as int]);
            assert(digits_val(t) == 10 * digits_val(digits@.take(i as int)) + digit_val(
                digits@[i as int],
            ));
        }
        if next > (i32::MAX as i64) {
            proof {
                if all_ascii_digits(digits@) {
                    lemma_digits_val_take_le(digits@, i + 1);
                }
            }
            return None;
        }
        acc = next as i32;
        i = i + 1;
    }
    proof {
        assert(digits@.take(digits@.len() as int) =~= digits@);
    }
    Some(acc)
}

/// The tokens among a sequence of tokenizer results, in order, the lexical
/// errors dropped.
pub open spec fn ok_token_views(rs: Seq<Result<TokenV, LexErrorV>>) -> Seq<TokenV>
    decreases rs.len(),
{
    if rs.len() == 0 {
        Seq::empty()
    } else {
        match rs[0] {
            Ok(t) => seq![t] + ok_token_views(rs.skip(1)),
            Err(_) => ok_token_views(rs.skip(1)),
        }
    }
}

/// The tokens among `results`, in order: what a caller that has decided to
/// go on past lexical errors hands to the parser.
pub fn ok_tokens(results: Vec<Result<Token, LexError>>) -> (tokens: Vec<Token>)
    ensures
        crate::parser::tokens_view(tokens@) == ok_token_views(lex_results_view(results@)),
{
    let ghost all = lex_results_view(results@);
    let mut input = results;
    let mut tokens: Vec<Token> = Vec::new();
    proof {
        assert(crate::parser::tokens_view(tokens@) =~= Seq::<TokenV>::empty());
    }
    loop
        invariant
            ok_token_views(all) == crate::parser::tokens_view(tokens@) + ok_token_views(
                lex_results_view(input@),
            ),
        ensures
            crate::parser::tokens_view(tokens@) == ok_token_views(all),
        decreases input@.len(),
    {
        let ghost toks0 = tokens@;
        let ghost input0 = input@;
        if input.len() == 0 {
            proof {
                assert(crate::parser::tokens_view(tokens@) + ok_token_views(
                    lex_results_view(input@),
                ) =~= crate::parser::tokens_view(tokens@));
            }
            break ;
        }
        let head = input.remove(0);
        proof {
            assert(lex_results_view(input@) =~= lex_results_view(input0).skip(1));
            assert(lex_results_view(input0)[0] == lex_res_view(head));
        }
        match head {
            Ok(t) => {
                tokens.push(t);
                proof {
                    assert(crate::parser::tokens_view(tokens@) =~= crate::parser::tokens_view(
                        toks0,
                    ).push(t@));
                    assert(crate::parser::tokens_view(toks0) + (seq![t@] + ok_token_views(
                        lex_results_view(input@),
                    )) =~= crate::parser::tokens_view(tokens@) + ok_token_views(
                        lex_results_view(input@),
                    ));
                }
            },
            Err(_) => {},
        }
    }
    tokens
}

/// The tokenizer. It owns the source text and a cursor; each call of
/// [`Lexer::next`] yields one token or lexical error, until only whitespace
/// is left.
pub struct Lexer {
    text: String,
    chars: Vec<char>,
    pos: usize,
    line: u32,
}

impl View for Lexer {
    type V = Seq<char>;

    /// The input not yet consumed.
    closed spec fn view(&self) -> Seq<char> {
        self.chars@.skip(self.pos as int)
    }
}

impl Lexer {
    #[verifier::type_invariant]
    spec fn wf(self) -> bool {
        self.text@ == self.chars@ && self.pos <= self.chars@.len()
    }

    /// A tokenizer over the whole of `text`, with nothing consumed yet.
    pub fn new(text: &String) -> (lexer: Lexer)
        ensures
            lexer@ == text@,
    {
        let mut chars: Vec<char> = Vec::new();
        let n = text.as_str().unicode_len();
        let mut i: usize = 0;
        while i < n
            invariant
                0 <= i <= n,
                n == text@.len(),
                chars@ == text@.take(i as int),
            decreases n - i,
        {
            chars.push(text.as_str().get_char(i));
            i = i + 1;
            proof {
                assert(text@.take(i as int) =~= text@.take(i - 1).push(text@[i - 1]));
            }
        }
        proof {
            assert(text@.take(n as int) =~= text@);
        }
        Lexer { text: text.clone(), chars, pos: 0, line: 0 }
    }

    /// Whether `c` may continue an identifier: alphanumeric or underscore.
    pub fn is_identifier(c: char) -> (b: bool)
        ensures
            b == is_ident_char(c),
    {
        c.is_alphanumeric() || c == '_'
    }

    /// Consumes the longest prefix of the remaining input whose characters
    /// all belong to `cond`, appending it to `raw_token`.
    fn take_while(&mut self, raw_token: &mut Vec<char>, cond: CharPred)
        ensures
            final(self).text == old(self).text,
            final(self).chars == old(self).chars,
            final(self).line == old(self).line,
            final(self).pos == old(self).pos + pred_len(cond, old(self)@),
            final(raw_token)@ == old(raw_token)@ + old(self)@.take(
                pred_len(cond, old(self)@) as int,
            ),
    {
        proof {
            use_type_invariant(&*self);
        }
        let ghost ochars = self.chars@;
        let ghost opos = self.pos as int;
        let ghost obuf = raw_token@;
        let ghost orem = self@;
        loop
            invariant
                self.text == old(self).text,
                self.chars == old(self).chars,
                self.line == old(self).line,
                self.text@ == self.chars@,
                self.chars@ == ochars,
                orem == ochars.skip(opos),
                0 <= opos <= self.pos <= ochars.len(),
                raw_token@ == obuf + orem.take(self.pos - opos),
                pred_len(cond, orem) == (self.pos - opos) + pred_len(
                    cond,
                    ochars.skip(self.pos as int),
                ),
            ensures
                self.text == old(self).text,
                self.chars == old(self).chars,
                self.line == old(self).line,
                self.pos - opos == pred_len(cond, orem),
                raw_token@ == obuf + orem.take(self.pos - opos),
            decreases ochars.len() - self.pos,
        {
            let ghost rem = ochars.skip(self.pos as int);
            if self.pos >= self.chars.len() {
                break ;
            }
            let c = self.chars[self.pos];
            assert(c == rem[0]);
            if !check_char(cond, c) {
                break ;
            }
            raw_token.push(c);
            self.pos = self.pos + 1;
            proof {
                let j = self.pos - 1 - opos;
                assert(rem.skip(1) =~= ochars.skip(self.pos as int));
                assert(orem[j] == ochars[opos + j]);
                assert(orem.take(j + 1) =~= orem.take(j).push(c));
                assert(raw_token@ =~= obuf + orem.take(j + 1));
            }
        }
    }

    /// The next token or lexical error, or `None` once only whitespace is
    /// left. Comments run to the end of their line and are skipped. A
    /// lexical error leaves the tokenizer usable: later tokens still come.
    pub fn next(&mut self) -> (r: Option<Result<Token, LexError>>)
        ensures
            final(self)@.len() <= old(self)@.len(),
            match r {
                None => lex_next(old(self)@) is None && final(self)@.len() == 0,
                Some(res) => lex_next(old(self)@) == Some((lex_res_view(res), final(self)@))
                    && final(self)@.len() < old(self)@.len(),
            },
    {
        proof {
            use_type_invariant(&*self);
        }
        let ghost orig = self@;
        loop
            invariant
                orig == old(self)@,
                self.text@ == self.chars@,
                self.pos <= self.chars@.len(),
                lex_next(self@) == lex_next(orig),
                self@.len() <= orig.len(),
            decreases self.chars@.len() - self.pos,
        {
            let ghost rem0 = self@;
            let mut ws: Vec<char> = Vec::new();
            self.take_while(&mut ws, CharPred::Whitespace);
            proof {
                lemma_pred_len_le(CharPred::Whitespace, rem0);
            }
            let ghost k = pred_len(CharPred::Whitespace, rem0) as int;
            let ghost t = rem0.skip(k);
            proof {
                assert(self@ =~= t);
            }
            if self.pos >= self.chars.len() {
                // only whitespace was left
                assert(t.len() == 0);
                return None;
            }
            let ghost pos1 = self.pos as int;
            let c = self.chars[self.pos];
            proof {
                assert(c == t[0]);
            }
            if Lexer::is_identifier(c) && !c.is_numeric() {
                // identifier or reserved word
                let start = self.pos;
                let mut buf: Vec<char> = Vec::new();
                self.take_while(&mut buf, CharPred::Ident);
                proof {
                    lemma_pred_len_le(CharPred::Ident, t);
                }
                let ghost n = pred_len(CharPred::Ident, t) as int;
                let name_str = self.text.substring_char(start, self.pos);
                let name = String::from_str(name_str);
                let tok = keyword_or_identifier(name);
                proof {
                    assert(self.chars@.subrange(pos1, pos1 + n) =~= t.take(n));
                    assert(self@ =~= t.skip(n));
                }
                return Some(Ok(tok));
            } else if c.is_numeric() {
                // numeric run; it only has a value if every character in it
                // is a decimal digit
                let start = self.pos;
                let mut buf: Vec<char> = Vec::new();
                self.take_while(&mut buf, CharPred::Numeric);
                proof {
                    lemma_pred_len_le(CharPred::Numeric, t);
                }
                let ghost n = pred_len(CharPred::Numeric, t) as int;
                proof {
                    assert(buf@ =~= t.take(n));
                    assert(self@ =~= t.skip(n));
                }
                match digits_to_i32(&buf) {
                    Some(v) => {
                        return Some(Ok(Token::LITERAL(Literal::INTEGER(v))));
                    },
                    None => {
                        let text = String::from_str(self.text.substring_char(start, self.pos));
                        proof {
                            assert(text@ =~= t.take(n));
                        }
                        return Some(Err(LexError::InvalidNumber(text)));
                    },
                }
            } else if c == '"' {
                // string literal; no escape sequences
                self.pos = self.pos + 1;
                let start = self.pos;
                let mut buf: Vec<char> = Vec::new();
                self.take_while(&mut buf, CharPred::NotQuote);
                proof {
                    assert(self.chars@.skip(pos1 + 1) =~= t.skip(1));
                    lemma_pred_len_le(CharPred::NotQuote, t.skip(1));
                }
                let ghost m = pred_len(CharPred::NotQuote, t.skip(1)) as int;
                if self.pos >= self.chars.len() {
                    // the closing quote never came
                    assert(1 + m == t.len());
                    assert(self@ =~= Seq::<char>::empty());
                    return Some(Err(LexError::UnterminatedString));
                }
                let content = String::from_str(self.text.substring_char(start, self.pos));
                self.pos = self.pos + 1;
                proof {
                    assert(content@ =~= t.subrange(1, 1 + m));
                    assert(self@ =~= t.skip(2 + m));
                }
                return Some(Ok(Token::LITERAL(Literal::STRING(content))));
            } else {
                let mut is_comment = false;
                if c == '/' && self.chars.len() - self.pos >= 2 {
                    if self.chars[self.pos + 1] == '/' {
                        is_comment = true;
                    }
                }
                if is_comment {
                    // comment: drop the rest of the line, then go round again
                    self.pos = self.pos + 2;
                    let mut rest: Vec<char> = Vec::new();
                    self.take_while(&mut rest, CharPred::NotNewline);
                    proof {
                        use_type_invariant(&*self);
                    }
                    self.line = self.line.wrapping_add(1);
                    proof {
                        lemma_pred_len_le(CharPred::NotNewline, t.skip(2));
                        let m = pred_len(CharPred::NotNewline, t.skip(2)) as int;
                        assert(self.chars@.skip(pos1 + 2) =~= t.skip(2));
                        assert(self@ =~= t.skip(2 + m));
                    }
                } else {
                    // symbol: longest match first, two characters before one
                    let two: Option<Token> = if self.chars.len() - self.pos >= 2 {
                        symbol_two(c, self.chars[self.pos + 1])
                    } else {
                        None
                    };
                    match two {
                        Some(tok) => {
                            self.pos = self.pos + 2;
                            proof {
                                assert(self@ =~= t.skip(2));
                            }
                            return Some(Ok(tok));
                        },
                        None => {
                            match symbol_one(c) {
                                Some(tok) => {
                                    self.pos = self.pos + 1;
                                    proof {
                                        assert(self@ =~= t.skip(1));
                                    }
                                    return Some(Ok(tok));
                                },
                                None => {
                                    let text = String::from_str(
                                        self.text.substring_char(self.pos, self.pos + 1),
                                    );
                                    self.pos = self.pos + 1;
                                    proof {
                                        assert(text@ =~= seq![c]);
                                        assert(self@ =~= t.skip(1));
                                    }
                                    return Some(Err(LexError::UnknownToken(text)));
                                },
                            }
                        },
                    }
                }
            }
        }
    }
}

/// All tokens and lexical errors of `text`, in order: the collect-all-errors
/// policy of the tokenizer, packaged for callers that want the whole stream.
pub fn tokenize(text: &String) -> (tokens: Vec<Result<Token, LexError>>)
    ensures
        lex_results_view(tokens@) == spec_tokens(text@),
{
    let mut lexer = Lexer::new(text);
    let mut tokens: Vec<Result<Token, LexError>> = Vec::new();
    proof {
        assert(lex_results_view(tokens@) =~= Seq::<Result<TokenV, LexErrorV>>::empty());
    }
    loop
        invariant
            lex_results_view(tokens@) + spec_tokens(lexer@) == spec_tokens(text@),
        ensures
            lex_results_view(tokens@) == spec_tokens(text@),
        decreases lexer@.len(),
    {
        let ghost before = lexer@;
        let ghost emitted = tokens@;
        match lexer.next() {
            Some(r) => {
                tokens.push(r);
                proof {
                    assert(lex_results_view(tokens@) =~= lex_results_view(emitted).push(
                        lex_res_view(r),
                    ));
                    assert(seq![lex_res_view(r)] + spec_tokens(lexer@) =~= spec_tokens(before));
                    assert(lex_results_view(tokens@) + spec_tokens(lexer@) =~= spec_tokens(text@));
                }
            },
            None => {
                proof {
                    assert(spec_tokens(lexer@) =~= Seq::<Result<TokenV, LexErrorV>>::empty());
                    assert(lex_results_view(tokens@) =~= spec_tokens(text@));
                }
                break ;
            },
        }
    }
    tokens
}

} // verus!
