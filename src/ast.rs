use crate::lexer::TokenPosition;
use crate::table::str_eq;
use vstd::prelude::*;

verus! {

/// A binary operator of the expression grammar.
#[derive(Clone, Copy, Debug, PartialEq, Eq, Structural)]
pub enum Operator {
    Pow,
    Mul,
    Div,
    Mod,
    Add,
    Sub,
    Concat,
    Equal,
    NotEqual,
    Lt,
    Gt,
    LtEqual,
    GtEqual,
    And,
    Or,
}

/// The operator that the text `s` spells, with its precedence; a smaller
/// precedence binds tighter.
pub open spec fn operator_of(s: Seq<char>) -> Option<(Operator, u8)> {
    if s == "^"@ {
        Some((Operator::Pow, 0))
    } else if s == "*"@ {
        Some((Operator::Mul, 1))
    } else if s == "/"@ {
        Some((Operator::Div, 1))
    } else if s == "%"@ {
        Some((Operator::Mod, 1))
    } else if s == "+"@ {
        Some((Operator::Add, 2))
    } else if s == "-"@ {
        Some((Operator::Sub, 2))
    } else if s == "++"@ {
        Some((Operator::Concat, 2))
    } else if s == "=="@ {
        Some((Operator::Equal, 3))
    } else if s == "!="@ {
        Some((Operator::NotEqual, 3))
    } else if s == "<"@ {
        Some((Operator::Lt, 3))
    } else if s == ">"@ {
        Some((Operator::Gt, 3))
    } else if s == "<="@ {
        Some((Operator::LtEqual, 3))
    } else if s == ">="@ {
        Some((Operator::GtEqual, 3))
    } else if s == "and"@ {
        Some((Operator::And, 4))
    } else if s == "or"@ {
        Some((Operator::Or, 4))
    } else {
        None
    }
}

impl Operator {
    /// Looks up the operator spelled `operator`, with its precedence.
    pub fn from(operator: &str) -> (r: Option<(Operator, u8)>)
        ensures
            r == operator_of(operator@),
    {
        if str_eq(operator, "^") {
            Some((Operator::Pow, 0))
        } else if str_eq(operator, "*") {
            Some((Operator::Mul, 1))
        } else if str_eq(operator, "/") {
            Some((Operator::Div, 1))
        } else if str_eq(operator, "%") {
            Some((Operator::Mod, 1))
        } else if str_eq(operator, "+") {
            Some((Operator::Add, 2))
        } else if str_eq(operator, "-") {
            Some((Operator::Sub, 2))
        } else if str_eq(operator, "++") {
            Some((Operator::Concat, 2))
        } else if str_eq(operator, "==") {
            Some((Operator::Equal, 3))
        } else if str_eq(operator, "!=") {
            Some((Operator::NotEqual, 3))
        } else if str_eq(operator, "<") {
            Some((Operator::Lt, 3))
        } else if str_eq(operator, ">") {
            Some((Operator::Gt, 3))
        } else if str_eq(operator, "<=") {
            Some((Operator::LtEqual, 3))
        } else if str_eq(operator, ">=") {
            Some((Operator::GtEqual, 3))
        } else if str_eq(operator, "and") {
            Some((Operator::And, 4))
        } else if str_eq(operator, "or") {
            Some((Operator::Or, 4))
        } else {
            None
        }
    }
}

/// The shape of an expression.
#[derive(Debug)]
pub enum ExpressionNode {
    Int(i64),
    /// A float literal, kept as its checked numeral text.
    Float(String),
    Str(String),
    Bool(bool),
    Identifier(String),
    Binary { left: Box<Expression>, op: Operator, right: Box<Expression> },
    /// Stands for "no more tokens"; never part of a parsed program.
    EOF,
}

/// An expression and the position recorded for it.
#[derive(Debug)]
pub struct Expression(pub ExpressionNode, pub TokenPosition);

impl Expression {
    pub fn new(node: ExpressionNode, position: TokenPosition) -> (r: Self)
        ensures
            r.0 == node,
            r.1 == position,
    {
        Expression(node, position)
    }
}

/// The shape of a statement.
#[derive(Debug)]
pub enum StatementNode {
    Expression(Expression),
    Assignment { left: Expression, right: Expression },
}

/// A statement and the position recorded for it.
#[derive(Debug)]
pub struct Statement(pub StatementNode, pub TokenPosition);

impl Statement {
    pub fn new(node: StatementNode, position: TokenPosition) -> (r: Self)
        ensures
            r.0 == node,
            r.1 == position,
    {
        Statement(node, position)
    }
}

} // verus!
