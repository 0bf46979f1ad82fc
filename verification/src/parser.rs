//! The expression parser: precedence-climbing recursive descent over a token
//! sequence, with one token of lookahead and no backtracking.
//!
//! The mathematical model is the family of `sp_*` functions below: each maps
//! the remaining tokens to a parse result and the tokens remaining after it.
//! Consumed tokens are never given back; a failed parse is terminal for the
//! call that found it.

use vstd::prelude::*;
use vstd::string::StringExecFns;
use crate::ast::{Binary, ExprV, Expression, Grouping, ParseError, ParseErrorV, Unary};
use crate::tokens::{
    binop_of_token, binop_precedence, spec_binop_precedence, token_binary_op, BinaryOp, LitV,
    Literal, Token, TokenV, UnaryOp,
};

verus! {

/// View of one parse result.
pub open spec fn parse_res_view(r: Result<Expression, ParseError>) -> Result<ExprV, ParseErrorV> {
    match r {
        Ok(e) => Ok(e@),
        Err(p) => Err(p@),
    }
}

/// View of a token sequence.
pub open spec fn tokens_view(ts: Seq<Token>) -> Seq<TokenV> {
    ts.map_values(|t: Token| t@)
}

/// Token variants that spell a fixed punctuation or operator symbol.
pub open spec fn is_fixed_symbol(t: TokenV) -> bool {
    match t {
        TokenV::LPAREN | TokenV::RPAREN | TokenV::LBRACE | TokenV::RBRACE | TokenV::COMMA
            | TokenV::DOT | TokenV::MINUS | TokenV::PLUS | TokenV::SEMICOLON | TokenV::SLASH
            | TokenV::STAR | TokenV::BANG | TokenV::BANG_EQUAL | TokenV::EQUAL
            | TokenV::EQUAL_EQUAL | TokenV::GREATER | TokenV::GREATER_EQUAL | TokenV::LESS
            | TokenV::LESS_EQUAL | TokenV::NOOP => true,
        _ => false,
    }
}

/// Precedence of the binary operator `t` stands for; -1 when `t` is not a
/// binary operator, so that the climb below it always stops.
pub open spec fn token_precedence(t: TokenV) -> int {
    match binop_of_token(t) {
        Some(op) => spec_binop_precedence(op),
        None => -1,
    }
}

/// Precedence of the first remaining token, or the sentinel -1 at end of
/// input.
pub open spec fn peek_precedence(ts: Seq<TokenV>) -> int {
    if ts.len() > 0 {
        token_precedence(ts[0])
    } else {
        -1
    }
}

/// Parse of one literal leaf: consumes exactly one token, either a literal
/// token or one of the boolean keywords, which denote boolean literals.
pub open spec fn sp_literal(ts: Seq<TokenV>) -> (Result<ExprV, ParseErrorV>, Seq<TokenV>) {
    if ts.len() > 0 && ts[0] is LITERAL {
        (Ok(ExprV::Literal(ts[0]->LITERAL_0)), ts.skip(1))
    } else if ts.len() > 0 && (ts[0] == TokenV::TRUE || ts[0] == TokenV::FALSE) {
        (Ok(ExprV::Literal(LitV::BOOLEAN(ts[0] == TokenV::TRUE))), ts.skip(1))
    } else {
        (Err(ParseErrorV::ExpectedLiteral), ts)
    }
}

/// Parse of one identifier leaf: consumes exactly one identifier token.
pub open spec fn sp_identifier(ts: Seq<TokenV>) -> (Result<ExprV, ParseErrorV>, Seq<TokenV>) {
    if ts.len() > 0 && ts[0] is IDENTIFIER {
        (Ok(ExprV::Variable(ts[0]->IDENTIFIER_0)), ts.skip(1))
    } else {
        (Err(ParseErrorV::ExpectedIdentifier), ts)
    }
}

/// Parse of one non-binary expression: a literal, an identifier, a grouping,
/// or a unary expression, chosen by the one-token lookahead. Any other
/// lookahead is an unexpected token, which is consumed and reported.
pub open spec fn sp_no_binary(ts: Seq<TokenV>) -> (Result<ExprV, ParseErrorV>, Seq<TokenV>)
    decreases ts.len(), 2int,
{
    if ts.len() == 0 {
        (Err(ParseErrorV::UnexpectedToken { found: None, context: "expression"@ }), ts)
    } else {
        match ts[0] {
            TokenV::LITERAL(_) => sp_literal(ts),
            TokenV::TRUE => sp_literal(ts),
            TokenV::FALSE => sp_literal(ts),
            TokenV::IDENTIFIER(_) => sp_identifier(ts),
            TokenV::LPAREN => sp_grouping(ts),
            TokenV::MINUS => sp_unary(ts),
            TokenV::BANG => sp_unary(ts),
            _ => (
                Err(ParseErrorV::UnexpectedToken { found: Some(ts[0]), context: "expression"@ }),
                ts.skip(1),
            ),
        }
    }
}

/// Parse of one unary expression: a prefix `-` or `!`, then a non-binary
/// operand, so prefixes chain.
pub open spec fn sp_unary(ts: Seq<TokenV>) -> (Result<ExprV, ParseErrorV>, Seq<TokenV>)
    decreases ts.len(), 1int,
{
    if ts.len() > 0 && (ts[0] == TokenV::MINUS || ts[0] == TokenV::BANG) {
        let op = if ts[0] == TokenV::MINUS {
            UnaryOp::Minus
        } else {
            UnaryOp::Bang
        };
        let (r, rest) = sp_no_binary(ts.skip(1));
        match r {
            Ok(operand) => (Ok(ExprV::Unary(op, Box::new(operand))), rest),
            Err(e) => (Err(e), rest),
        }
    } else {
        (Err(ParseErrorV::ExpectedOperator), ts)
    }
}

/// Parse of one grouping: `(`, a complete expression, `)`. A missing
/// parenthesis is a distinct, position-specific error.
pub open spec fn sp_grouping(ts: Seq<TokenV>) -> (Result<ExprV, ParseErrorV>, Seq<TokenV>)
    decreases ts.len(), 1int,
{
    if ts.len() > 0 && ts[0] == TokenV::LPAREN {
        let (r, rest) = sp_expr(ts.skip(1));
        match r {
            Ok(inner) => if rest.len() > 0 && rest[0] == TokenV::RPAREN {
                (Ok(ExprV::Grouping(Box::new(inner))), rest.skip(1))
            } else {
                (Err(ParseErrorV::ExpectedToken(TokenV::RPAREN)), rest)
            },
            Err(e) => (Err(e), rest),
        }
    } else {
        (Err(ParseErrorV::ExpectedToken(TokenV::LPAREN)), ts)
    }
}

/// The precedence climb: with `lhs` parsed, repeatedly consume a binary
/// operator that binds at least as tightly as `min_prec`, parse its
/// right-hand side, let tighter-binding operators that follow take that
/// right-hand side first, and fold the pair into a new left-hand side.
/// Equal precedence folds left, so operators of one family associate left.
pub open spec fn sp_binary_r(ts: Seq<TokenV>, min_prec: int, lhs: ExprV) -> (
    Result<ExprV, ParseErrorV>,
    Seq<TokenV>,
)
    decreases ts.len(), 0int,
{
    if ts.len() == 0 {
        (Ok(lhs), ts)
    } else {
        match binop_of_token(ts[0]) {
            None => (Ok(lhs), ts),
            Some(op) => {
                let prec = spec_binop_precedence(op);
                if prec < min_prec {
                    (Ok(lhs), ts)
                } else {
                    let (r1, rest1) = sp_no_binary(ts.skip(1));
                    match r1 {
                        Err(e) => (Err(e), rest1),
                        Ok(rhs0) => if prec < peek_precedence(rest1) {
                            if rest1.len() < ts.len() {
                                let (r2, rest2) = sp_binary_r(rest1, prec + 1, rhs0);
                                match r2 {
                                    Err(e) => (Err(e), rest2),
                                    Ok(rhs) => if rest2.len() < ts.len() {
                                        sp_binary_r(
                                            rest2,
                                            min_prec,
                                            ExprV::Binary(op, Box::new(lhs), Box::new(rhs)),
                                        )
                                    } else {
                                        (
                                            Ok(
                                                ExprV::Binary(op, Box::new(lhs), Box::new(rhs)),
                                            ),
                                            rest2,
                                        )
                                    },
                                }
                            } else {
                                (Ok(lhs), ts)
                            }
                        } else {
                            if rest1.len() < ts.len() {
                                sp_binary_r(
                                    rest1,
                                    min_prec,
                                    ExprV::Binary(op, Box::new(lhs), Box::new(rhs0)),
                                )
                            } else {
                                (Ok(lhs), ts)
                            }
                        },
                    }
                }
            },
        }
    }
}

/// Parse of one complete expression: a non-binary left-hand side, then the
/// precedence climb from the loosest binding.
pub open spec fn sp_expr(ts: Seq<TokenV>) -> (Result<ExprV, ParseErrorV>, Seq<TokenV>)
    decreases ts.len(), 3int,
{
    let (r, rest) = sp_no_binary(ts);
    match r {
        Err(e) => (Err(e), rest),
        Ok(lhs) => if rest.len() <= ts.len() {
            sp_binary_r(rest, 0, lhs)
        } else {
            (Ok(lhs), rest)
        },
    }
}

/// `rest` is what is left of `ts` after consuming some prefix of it.
pub open spec fn is_suffix_of(rest: Seq<TokenV>, ts: Seq<TokenV>) -> bool {
    exists|k: int| 0 <= k <= ts.len() && rest == ts.skip(k)
}

/// A suffix of a suffix is a suffix.
proof fn lemma_suffix_trans(a: Seq<TokenV>, b: Seq<TokenV>, c: Seq<TokenV>)
    requires
        is_suffix_of(a, b),
        is_suffix_of(b, c),
    ensures
        is_suffix_of(a, c),
{
    let k1 = choose|k: int| 0 <= k <= b.len() && a == b.skip(k);
    let k2 = choose|k: int| 0 <= k <= c.len() && b == c.skip(k);
    assert(c.skip(k2).skip(k1) =~= c.skip(k2 + k1));
    assert(0 <= k2 + k1 <= c.len() && a == c.skip(k2 + k1));
}

/// No backtracking in a non-binary parse: whatever it returns, a tree or an
/// error, the tokens left are a suffix of the tokens given — consumed tokens
/// are never given back.
pub proof fn lemma_sp_no_binary_consumes_forward(ts: Seq<TokenV>)
    ensures
        is_suffix_of(sp_no_binary(ts).1, ts),
    decreases ts.len(), 2int,
{
    assert(ts.skip(0) =~= ts);
    if ts.len() > 0 {
        match ts[0] {
            TokenV::LPAREN => lemma_sp_grouping_consumes_forward(ts),
            TokenV::MINUS => lemma_sp_unary_consumes_forward(ts),
            TokenV::BANG => lemma_sp_unary_consumes_forward(ts),
            _ => {
                assert(sp_no_binary(ts).1 == ts || sp_no_binary(ts).1 == ts.skip(1));
            },
        }
    }
}

/// No backtracking in a unary parse.
pub proof fn lemma_sp_unary_consumes_forward(ts: Seq<TokenV>)
    ensures
        is_suffix_of(sp_unary(ts).1, ts),
    decreases ts.len(), 1int,
{
    assert(ts.skip(0) =~= ts);
    if ts.len() > 0 && (ts[0] == TokenV::MINUS || ts[0] == TokenV::BANG) {
        lemma_sp_no_binary_consumes_forward(ts.skip(1));
        assert(0 <= 1 <= ts.len() && ts.skip(1) == ts.skip(1));
        lemma_suffix_trans(sp_no_binary(ts.skip(1)).1, ts.skip(1), ts);
    }
}

/// No backtracking in a grouping parse.
pub proof fn lemma_sp_grouping_consumes_forward(ts: Seq<TokenV>)
    ensures
        is_suffix_of(sp_grouping(ts).1, ts),
    decreases ts.len(), 1int,
{
    assert(ts.skip(0) =~= ts);
    if ts.len() > 0 && ts[0] == TokenV::LPAREN {
        lemma_sp_expr_consumes_forward(ts.skip(1));
        let (r, rest) = sp_expr(ts.skip(1));
        assert(0 <= 1 <= ts.len() && ts.skip(1) == ts.skip(1));
        lemma_suffix_trans(rest, ts.skip(1), ts);
        if r is Ok && rest.len() > 0 && rest[0] == TokenV::RPAREN {
            assert(0 <= 1 <= rest.len() && rest.skip(1) == rest.skip(1));
            lemma_suffix_trans(rest.skip(1), rest, ts);
        }
    }
}

/// No backtracking in the precedence climb, whatever left-hand side and
/// minimum precedence it works from.
pub proof fn lemma_sp_binary_r_consumes_forward(ts: Seq<TokenV>, min_prec: int, lhs: ExprV)
    ensures
        is_suffix_of(sp_binary_r(ts, min_prec, lhs).1, ts),
    decreases ts.len(), 0int,
{
    assert(ts.skip(0) =~= ts);
    if ts.len() > 0 {
        match binop_of_token(ts[0]) {
            None => {},
            Some(op) => {
                let prec = spec_binop_precedence(op);
                if prec >= min_prec {
                    lemma_sp_no_binary_consumes_forward(ts.skip(1));
                    let (r1, rest1) = sp_no_binary(ts.skip(1));
                    assert(0 <= 1 <= ts.len() && ts.skip(1) == ts.skip(1));
                    lemma_suffix_trans(rest1, ts.skip(1), ts);
                    match r1 {
                        Err(_) => {},
                        Ok(rhs0) => {
                            if prec < peek_precedence(rest1) {
                                if rest1.len() < ts.len() {
                                    lemma_sp_binary_r_consumes_forward(rest1, prec + 1, rhs0);
                                    let (r2, rest2) = sp_binary_r(rest1, prec + 1, rhs0);
                                    lemma_suffix_trans(rest2, rest1, ts);
                                    match r2 {
                                        Err(_) => {},
                                        Ok(rhs) => {
                                            if rest2.len() < ts.len() {
                                                let folded = ExprV::Binary(
                                                    op,
                                                    Box::new(lhs),
                                                    Box::new(rhs),
                                                );
                                                lemma_sp_binary_r_consumes_forward(
                                                    rest2,
                                                    min_prec,
                                                    folded,
                                                );
                                                lemma_suffix_trans(
                                                    sp_binary_r(rest2, min_prec, folded).1,
                                                    rest2,
                                                    ts,
                                                );
                                            }
                                        },
                                    }
                                }
                            } else {
                                if rest1.len() < ts.len() {
                                    let folded = ExprV::Binary(op, Box::new(lhs), Box::new(rhs0));
                                    lemma_sp_binary_r_consumes_forward(rest1, min_prec, folded);
                                    lemma_suffix_trans(
                                        sp_binary_r(rest1, min_prec, folded).1,
                                        rest1,
                                        ts,
                                    );
                                }
                            }
                        },
                    }
                }
            },
        }
    }
}

/// No backtracking in a full expression parse: the deterministic consumption
/// contract — the parser only ever moves forward through its tokens, so what
/// it leaves behind is a suffix of what it was given, on success and on
/// failure alike.
pub proof fn lemma_sp_expr_consumes_forward(ts: Seq<TokenV>)
    ensures
        is_suffix_of(sp_expr(ts).1, ts),
    decreases ts.len(), 3int,
{
    lemma_sp_no_binary_consumes_forward(ts);
    let (r, rest) = sp_no_binary(ts);
    match r {
        Err(_) => {},
        Ok(lhs) => {
            let k = choose|k: int| 0 <= k <= ts.len() && rest == ts.skip(k);
            assert(rest.len() <= ts.len());
            lemma_sp_binary_r_consumes_forward(rest, 0, lhs);
            lemma_suffix_trans(sp_binary_r(rest, 0, lhs).1, rest, ts);
        },
    }
}

/// The parser: owns the tokens still to consume, in order, and hands them
/// out with one token of lookahead. There is no rewind.
pub struct Parser {
    tokens: Vec<Token>,
}

impl View for Parser {
    type V = Seq<TokenV>;

    /// The tokens not yet consumed.
    closed spec fn view(&self) -> Seq<TokenV> {
        Seq::new(
            self.tokens@.len(),
            |i: int| self.tokens@[self.tokens@.len() - 1 - i]@,
        )
    }
}

impl Parser {
    /// A parser over `tokens`, none consumed yet.
    pub fn new(tokens: Vec<Token>) -> (parser: Parser)
        ensures
            parser@ == tokens_view(tokens@),
    {
        let ghost all = tokens@;
        let mut input = tokens;
        let mut rev: Vec<Token> = Vec::new();
        loop
            invariant
                input@ == all.take(input@.len() as int),
                rev@.len() + input@.len() == all.len(),
                forall|i: int| 0 <= i < rev@.len() ==> rev@[i] == all[all.len() - 1 - i],
            ensures
                rev@.len() == all.len(),
                forall|i: int| 0 <= i < rev@.len() ==> rev@[i] == all[all.len() - 1 - i],
            decreases input@.len(),
        {
            proof {
                assert(input@.take(input@.len() as int) =~= input@);
            }
            match input.pop() {
                Some(t) => {
                    proof {
                        assert(all.take((input@.len() + 1) as int).drop_last() =~= all.take(
                            input@.len() as int,
                        ));
                        assert(t == all[all.len() - 1 - rev@.len()]);
                    }
                    rev.push(t);
                },
                None => {
                    break ;
                },
            }
        }
        let parser = Parser { tokens: rev };
        proof {
            assert(parser@ =~= tokens_view(all));
        }
        parser
    }

    /// The next token, unconsumed, or `None` at end of input.
    fn peek(&self) -> (t: Option<&Token>)
        ensures
            match t {
                Some(tok) => self@.len() > 0 && tok@ == self@[0],
                None => self@.len() == 0,
            },
    {
        let n = self.tokens.len();
        if n > 0 {
            Some(&self.tokens[n - 1])
        } else {
            None
        }
    }

    /// Consumes and returns the next token, or `None` at end of input.
    fn next_token(&mut self) -> (t: Option<Token>)
        ensures
            match t {
                Some(tok) => old(self)@.len() > 0 && tok@ == old(self)@[0] && final(self)@ == old(
                    self,
                )@.skip(1),
                None => old(self)@.len() == 0 && final(self)@ == old(self)@,
            },
    {
        let t = self.tokens.pop();
        proof {
            if old(self)@.len() > 0 {
                assert(self@ =~= old(self)@.skip(1));
            } else {
                assert(self@ =~= old(self)@);
            }
        }
        t
    }

    /// The binary operator the next token stands for, if any, unconsumed.
    fn peek_binary_op(&self) -> (r: Option<BinaryOp>)
        ensures
            r == (if self@.len() > 0 {
                binop_of_token(self@[0])
            } else {
                None::<BinaryOp>
            }),
    {
        match self.peek() {
            Some(t) => token_binary_op(t),
            None => None,
        }
    }

    /// Whether the next token is the fixed symbol `symbol`; when it is, it
    /// is consumed.
    pub fn next_symbol(&mut self, symbol: &Token) -> (b: bool)
        ensures
            b == (old(self)@.len() > 0 && is_fixed_symbol(symbol@) && old(self)@[0] == symbol@),
            b ==> final(self)@ == old(self)@.skip(1),
            !b ==> final(self)@ == old(self)@,
    {
        let matched = match (self.peek(), symbol) {
            (Some(Token::LPAREN), Token::LPAREN) => true,
            (Some(Token::RPAREN), Token::RPAREN) => true,
            (Some(Token::LBRACE), Token::LBRACE) => true,
            (Some(Token::RBRACE), Token::RBRACE) => true,
            (Some(Token::COMMA), Token::COMMA) => true,
            (Some(Token::DOT), Token::DOT) => true,
            (Some(Token::MINUS), Token::MINUS) => true,
            (Some(Token::PLUS), Token::PLUS) => true,
            (Some(Token::SEMICOLON), Token::SEMICOLON) => true,
            (Some(Token::SLASH), Token::SLASH) => true,
            (Some(Token::STAR), Token::STAR) => true,
            (Some(Token::BANG), Token::BANG) => true,
            (Some(Token::BANG_EQUAL), Token::BANG_EQUAL) => true,
            (Some(Token::EQUAL), Token::EQUAL) => true,
            (Some(Token::EQUAL_EQUAL), Token::EQUAL_EQUAL) => true,
            (Some(Token::GREATER), Token::GREATER) => true,
            (Some(Token::GREATER_EQUAL), Token::GREATER_EQUAL) => true,
            (Some(Token::LESS), Token::LESS) => true,
            (Some(Token::LESS_EQUAL), Token::LESS_EQUAL) => true,
            (Some(Token::NOOP), Token::NOOP) => true,
            _ => false,
        };
        if matched {
            let _ = self.next_token();
            true
        } else {
            false
        }
    }

    /// One complete expression: a non-binary left-hand side, then the
    /// precedence climb from the loosest binding.
    pub fn parse_expr(&mut self) -> (r: Result<Expression, ParseError>)
        ensures
            sp_expr(old(self)@) == (parse_res_view(r), final(self)@),
            final(self)@.len() <= old(self)@.len(),
            r is Ok ==> final(self)@.len() < old(self)@.len(),
        decreases self@.len(), 3int,
    {
        let lhs = match self.parse_expr_no_binary() {
            Ok(e) => e,
            Err(e) => {
                return Err(e);
            },
        };
        self.parse_binary_r_expr(0, lhs)
    }

    /// One non-binary expression: a literal, an identifier, a grouping or a
    /// unary expression, chosen by the one-token lookahead. Any other
    /// lookahead is an unexpected token: it is consumed and reported.
    pub fn parse_expr_no_binary(&mut self) -> (r: Result<Expression, ParseError>)
        ensures
            sp_no_binary(old(self)@) == (parse_res_view(r), final(self)@),
            final(self)@.len() <= old(self)@.len(),
            r is Ok ==> final(self)@.len() < old(self)@.len(),
        decreases self@.len(), 2int,
    {
        match self.classify() {
            Dispatch::Lit => self.parse_literal_expr(),
            Dispatch::Ident => self.parse_identifier_expr(),
            Dispatch::Group => self.parse_grouping(),
            Dispatch::Prefix => self.parse_unary_expr(),
            Dispatch::Other => {
                let found = self.next_token();
                Err(ParseError::UnexpectedToken { found, context: String::from_str("expression") })
            },
            Dispatch::End => {
                Err(
                    ParseError::UnexpectedToken {
                        found: None,
                        context: String::from_str("expression"),
                    },
                )
            },
        }
    }

    /// One identifier leaf: consumes exactly one identifier token.
    pub fn parse_identifier_expr(&mut self) -> (r: Result<Expression, ParseError>)
        ensures
            sp_identifier(old(self)@) == (parse_res_view(r), final(self)@),
            final(self)@.len() <= old(self)@.len(),
            r is Ok ==> final(self)@.len() < old(self)@.len(),
    {
        let is_ident = match self.peek() {
            Some(Token::IDENTIFIER(_)) => true,
            _ => false,
        };
        if !is_ident {
            return Err(ParseError::ExpectedIdentifier);
        }
        match self.next_token() {
            Some(Token::IDENTIFIER(name)) => Ok(Expression::Variable { name }),
            _ => Err(ParseError::ExpectedIdentifier),
        }
    }

    /// One literal leaf: consumes exactly one token, either a literal token
    /// or one of the boolean keywords, which denote boolean literals.
    pub fn parse_literal_expr(&mut self) -> (r: Result<Expression, ParseError>)
        ensures
            sp_literal(old(self)@) == (parse_res_view(r), final(self)@),
            final(self)@.len() <= old(self)@.len(),
            r is Ok ==> final(self)@.len() < old(self)@.len(),
    {
        let is_lit = match self.peek() {
            Some(Token::LITERAL(_)) => true,
            _ => false,
        };
        if is_lit {
            return match self.next_token() {
                Some(Token::LITERAL(value)) => Ok(Expression::Literal { value }),
                _ => Err(ParseError::ExpectedLiteral),
            };
        }
        let boolean = match self.peek() {
            Some(Token::TRUE) => Some(true),
            Some(Token::FALSE) => Some(false),
            _ => None,
        };
        match boolean {
            Some(b) => {
                let _ = self.next_token();
                Ok(Expression::Literal { value: Literal::BOOLEAN(b) })
            },
            None => Err(ParseError::ExpectedLiteral),
        }
    }

    /// One unary expression: a prefix `-` or `!`, then a non-binary operand,
    /// so prefixes chain.
    pub fn parse_unary_expr(&mut self) -> (r: Result<Expression, ParseError>)
        ensures
            sp_unary(old(self)@) == (parse_res_view(r), final(self)@),
            final(self)@.len() <= old(self)@.len(),
            r is Ok ==> final(self)@.len() < old(self)@.len(),
        decreases self@.len(), 1int,
    {
        let is_minus = match self.peek() {
            Some(Token::MINUS) => true,
            _ => false,
        };
        let is_bang = match self.peek() {
            Some(Token::BANG) => true,
            _ => false,
        };
        if !is_minus && !is_bang {
            return Err(ParseError::ExpectedOperator);
        }
        let op = if is_minus {
            UnaryOp::Minus
        } else {
            UnaryOp::Bang
        };
        let _ = self.next_token();
        let operand = match self.parse_expr_no_binary() {
            Ok(e) => e,
            Err(e) => {
                return Err(e);
            },
        };
        Ok(Expression::Unary(Box::new(Unary { op, operand })))
    }

    /// One grouping: `(`, a complete expression, `)`. Each missing
    /// parenthesis is its own position-specific error.
    pub fn parse_grouping(&mut self) -> (r: Result<Expression, ParseError>)
        ensures
            sp_grouping(old(self)@) == (parse_res_view(r), final(self)@),
            final(self)@.len() <= old(self)@.len(),
            r is Ok ==> final(self)@.len() < old(self)@.len(),
        decreases self@.len(), 1int,
    {
        if !self.next_symbol(&Token::LPAREN) {
            return Err(ParseError::ExpectedToken(Token::LPAREN));
        }
        let inner = match self.parse_expr() {
            Ok(e) => e,
            Err(e) => {
                return Err(e);
            },
        };
        if !self.next_symbol(&Token::RPAREN) {
            return Err(ParseError::ExpectedToken(Token::RPAREN));
        }
        Ok(Expression::Grouping(Box::new(Grouping { inner })))
    }

    /// The precedence climb: with `lhs` already parsed, repeatedly consume a
    /// binary operator binding at least as tightly as `op_precedence`, parse
    /// its right-hand side, let a tighter-binding operator that follows take
    /// that right-hand side first, and fold the pair into a new left-hand
    /// side. Equal precedence folds left, so each operator family associates
    /// left. A lookahead that is no binary operator stops the climb.
    pub fn parse_binary_r_expr(&mut self, op_precedence: i32, lhs: Expression) -> (r: Result<
        Expression,
        ParseError,
    >)
        ensures
            sp_binary_r(old(self)@, op_precedence as int, lhs@) == (
                parse_res_view(r),
                final(self)@,
            ),
            final(self)@.len() <= old(self)@.len(),
        decreases self@.len(), 2int,
    {
        let mut acc = lhs;
        loop
            invariant
                sp_binary_r(old(self)@, op_precedence as int, lhs@) == sp_binary_r(
                    self@,
                    op_precedence as int,
                    acc@,
                ),
                self@.len() <= old(self)@.len(),
            decreases self@.len(),
        {
            let opo = self.peek_binary_op();
            let op = match opo {
                None => {
                    return Ok(acc);
                },
                Some(op) => op,
            };
            let prec = binop_precedence(op);
            if prec < op_precedence {
                return Ok(acc);
            }
            let _ = self.next_token();
            let rhs0 = match self.parse_expr_no_binary() {
                Ok(e) => e,
                Err(e) => {
                    return Err(e);
                },
            };
            let next_prec = match self.peek_binary_op() {
                Some(op2) => binop_precedence(op2),
                None => -1,
            };
            let rhs = if prec < next_prec {
                match self.parse_binary_r_expr(prec + 1, rhs0) {
                    Ok(e) => e,
                    Err(e) => {
                        return Err(e);
                    },
                }
            } else {
                rhs0
            };
            acc = Expression::Binary(Box::new(Binary { op, left: acc, right: rhs }));
        }
    }

    /// Which rule the one-token lookahead selects.
    fn classify(&self) -> (d: Dispatch)
        ensures
            d == spec_classify(self@),
    {
        match self.peek() {
            Some(Token::LITERAL(_)) => Dispatch::Lit,
            Some(Token::TRUE) => Dispatch::Lit,
            Some(Token::FALSE) => Dispatch::Lit,
            Some(Token::IDENTIFIER(_)) => Dispatch::Ident,
            Some(Token::LPAREN) => Dispatch::Group,
            Some(Token::MINUS) => Dispatch::Prefix,
            Some(Token::BANG) => Dispatch::Prefix,
            Some(_) => Dispatch::Other,
            None => Dispatch::End,
        }
    }
}

/// Which rule a lookahead token selects in [`Parser::parse_expr_no_binary`].
enum Dispatch {
    Lit,
    Ident,
    Group,
    Prefix,
    Other,
    End,
}

/// Which rule a lookahead selects, on token views.
spec fn spec_classify(ts: Seq<TokenV>) -> Dispatch {
    if ts.len() == 0 {
        Dispatch::End
    } else {
        match ts[0] {
            TokenV::LITERAL(_) => Dispatch::Lit,
            TokenV::TRUE => Dispatch::Lit,
            TokenV::FALSE => Dispatch::Lit,
            TokenV::IDENTIFIER(_) => Dispatch::Ident,
            TokenV::LPAREN => Dispatch::Group,
            TokenV::MINUS => Dispatch::Prefix,
            TokenV::BANG => Dispatch::Prefix,
            _ => Dispatch::Other,
        }
    }
}

} // verus!
