//! The expression tree produced by the parser, its mathematical view, and
//! the parse-error taxonomy.

use vstd::prelude::*;
use crate::tokens::{BinaryOp, LitV, Literal, Token, TokenV, UnaryOp};

verus! {

/// One node of an expression tree. Every composite node exclusively owns its
/// children; a tree is created by one parse call and handed to the caller.
#[derive(Debug, PartialEq, Eq)]
pub enum Expression {
    /// A constant leaf.
    Literal { value: Literal },
    /// An identifier reference leaf.
    Variable { name: String },
    /// A prefix operator applied to one operand.
    Unary(Box<Unary>),
    /// An infix operator applied to two operands.
    Binary(Box<Binary>),
    /// A parenthesized expression, preserved rather than collapsed.
    Grouping(Box<Grouping>),
}

/// A prefix operator and its operand. The operand is itself never a bare
/// binary expression: the grammar only allows literals, variables, groupings
/// and further unary expressions after a prefix operator.
#[derive(Debug, PartialEq, Eq)]
pub struct Unary {
    pub op: UnaryOp,
    pub operand: Expression,
}

/// An infix operator and its two operands.
#[derive(Debug, PartialEq, Eq)]
pub struct Binary {
    pub op: BinaryOp,
    pub left: Expression,
    pub right: Expression,
}

/// A parenthesized expression.
#[derive(Debug, PartialEq, Eq)]
pub struct Grouping {
    pub inner: Expression,
}

/// Mathematical view of an [`Expression`].
pub enum ExprV {
    Literal(LitV),
    Variable(Seq<char>),
    Unary(UnaryOp, Box<ExprV>),
    Binary(BinaryOp, Box<ExprV>, Box<ExprV>),
    Grouping(Box<ExprV>),
}

/// View of one expression node, children included.
pub open spec fn expr_view(e: Expression) -> ExprV
    decreases e,
{
    match e {
        Expression::Literal { value } => ExprV::Literal(value@),
        Expression::Variable { name } => ExprV::Variable(name@),
        Expression::Unary(u) => ExprV::Unary(u.op, Box::new(expr_view(u.operand))),
        Expression::Binary(b) => ExprV::Binary(
            b.op,
            Box::new(expr_view(b.left)),
            Box::new(expr_view(b.right)),
        ),
        Expression::Grouping(g) => ExprV::Grouping(Box::new(expr_view(g.inner))),
    }
}

impl View for Expression {
    type V = ExprV;

    open spec fn view(&self) -> ExprV {
        expr_view(*self)
    }
}

/// Why a parse call failed. Parse failures are terminal for the call that
/// discovered them: the parser does not resynchronize.
#[derive(Debug, PartialEq, Eq)]
pub enum ParseError {
    /// The lookahead token (or end of input, `None`) fits no rule in the
    /// position named by `context`.
    UnexpectedToken { found: Option<Token>, context: String },
    /// A specific token was required next, for example a closing parenthesis.
    ExpectedToken(Token),
    /// An identifier token was required next.
    ExpectedIdentifier,
    /// A literal token was required next.
    ExpectedLiteral,
    /// An operator token was required next.
    ExpectedOperator,
}

/// Mathematical view of a [`ParseError`].
pub enum ParseErrorV {
    UnexpectedToken { found: Option<TokenV>, context: Seq<char> },
    ExpectedToken(TokenV),
    ExpectedIdentifier,
    ExpectedLiteral,
    ExpectedOperator,
}

impl View for ParseError {
    type V = ParseErrorV;

    open spec fn view(&self) -> ParseErrorV {
        match self {
            ParseError::UnexpectedToken { found, context } => ParseErrorV::UnexpectedToken {
                found: match found {
                    Some(t) => Some(t@),
                    None => None,
                },
                context: context@,
            },
            ParseError::ExpectedToken(t) => ParseErrorV::ExpectedToken(t@),
            ParseError::ExpectedIdentifier => ParseErrorV::ExpectedIdentifier,
            ParseError::ExpectedLiteral => ParseErrorV::ExpectedLiteral,
            ParseError::ExpectedOperator => ParseErrorV::ExpectedOperator,
        }
    }
}

} // verus!
