use crate::ast::{operator_of, Expression, ExpressionNode, Operator, Statement, StatementNode};
use crate::lexer::{Token, TokenPosition, TokenType};
use crate::numeral::{check_float_text, int_value, is_float_text, parse_int};
use crate::table::str_eq;
use vstd::prelude::*;

verus! {

/// Why a parse failed.
#[derive(Clone, Debug)]
pub enum ErrorKind {
    /// The current token has another type than the one required.
    ExpectedType { expected: TokenType, found: String },
    /// The current token has another text than the one required.
    ExpectedContent { wanted: String, found: String },
    /// No parse rule handles tokens of this type.
    Unimplemented(TokenType),
    /// An operator, or the `=` of an assignment, has no operand after it.
    MissingRightHand,
    /// A statement was expected where only blank tokens are left.
    UnexpectedEnd,
    /// The text of a numeric literal is not a numeral.
    MalformedNumber(String),
    /// An operator token whose text names no operator.
    UnknownOperator(String),
    /// The cursor would leave the token sequence.
    CursorBounds,
}

/// A parse failure and, where known, the position it refers to.
#[derive(Clone, Debug)]
pub struct ParseError {
    pub kind: ErrorKind,
    pub position: Option<TokenPosition>,
}

pub type Response<T> = Result<T, ParseError>;

pub open spec fn bounds_error() -> ParseError {
    ParseError { kind: ErrorKind::CursorBounds, position: None }
}

/// Tokens left from `top` on.
pub open spec fn spec_remaining(toks: Seq<Token>, top: int) -> int {
    if top >= toks.len() {
        0
    } else {
        toks.len() - top
    }
}

/// The token at `top`, or the last token once `top` has run past the end.
pub open spec fn cursor_token(toks: Seq<Token>, top: int) -> Token {
    if top > toks.len() - 1 {
        toks[toks.len() - 1]
    } else {
        toks[top]
    }
}

pub open spec fn pos(toks: Seq<Token>, top: int) -> TokenPosition {
    cursor_token(toks, top).position
}

/// Where the cursor stops after skipping tokens whose type is in `types`;
/// the last token is never skipped.
pub open spec fn skip_spec(toks: Seq<Token>, top: int, types: Seq<TokenType>) -> int
    decreases toks.len() - top,
{
    if spec_remaining(toks, top) > 1 && types.contains(cursor_token(toks, top).token_type) {
        skip_spec(toks, top + 1, types)
    } else {
        top
    }
}

pub open spec fn blank_types() -> Seq<TokenType> {
    seq![TokenType::EOL, TokenType::Whitespace]
}

pub open spec fn space_types() -> Seq<TokenType> {
    seq![TokenType::Whitespace]
}

pub open spec fn is_end(e: Expression) -> bool {
    e.0 is EOF
}

/// One atom from `top`: a literal, an identifier, or the end marker when no token is left.
pub open spec fn atom_spec(toks: Seq<Token>, top: int) -> Result<(Expression, int), ParseError> {
    let t0 = skip_spec(toks, top, blank_types());
    if spec_remaining(toks, t0) == 0 {
        Ok((Expression(ExpressionNode::EOF, pos(toks, t0)), t0))
    } else {
        let tok = cursor_token(toks, t0);
        let t1 = t0 + 1;
        let p = pos(toks, t1);
        match tok.token_type {
            TokenType::Int => match int_value(tok.content@) {
                Some(v) => Ok((Expression(ExpressionNode::Int(v), p), t1)),
                None => Err(
                    ParseError {
                        kind: ErrorKind::MalformedNumber(tok.content),
                        position: Some(tok.position),
                    },
                ),
            },
            TokenType::Float => if is_float_text(tok.content@) {
                Ok((Expression(ExpressionNode::Float(tok.content), p), t1))
            } else {
                Err(
                    ParseError {
                        kind: ErrorKind::MalformedNumber(tok.content),
                        position: Some(tok.position),
                    },
                )
            },
            TokenType::Str => Ok((Expression(ExpressionNode::Str(tok.content), p), t1)),
            TokenType::Bool => Ok(
                (Expression(ExpressionNode::Bool(tok.content@ == "true"@), p), t1),
            ),
            TokenType::Identifier => Ok((Expression(ExpressionNode::Identifier(tok.content), p), t1)),
            TokenType::Whitespace => Ok((Expression(ExpressionNode::EOF, p), t1)),
            _ => Err(
                ParseError {
                    kind: ErrorKind::Unimplemented(tok.token_type),
                    position: Some(tok.position),
                },
            ),
        }
    }
}

pub open spec fn binary_node(left: Expression, op: Operator, right: Expression, p: TokenPosition) -> Expression {
    Expression(ExpressionNode::Binary { left: Box::new(left), op, right: Box::new(right) }, p)
}

pub open spec fn missing_operand(p: TokenPosition) -> ParseError {
    ParseError { kind: ErrorKind::MissingRightHand, position: Some(p) }
}

/// Precedence climbing from `top`, with `left op right` read so far and not yet combined.
/// An operator whose precedence is not lower than `op`'s first combines `left op right`;
/// one of lower precedence (binding tighter) takes `right` and the next operand.
pub open spec fn binary_loop(
    toks: Seq<Token>,
    top: int,
    left: Expression,
    op: (Operator, u8),
    right: Expression,
) -> Result<(Expression, int), ParseError>
    decreases toks.len() + 2 - top,
{
    let t1 = skip_spec(toks, top, space_types());
    let tok = cursor_token(toks, t1);
    if tok.token_type != TokenType::Operator {
        Ok((binary_node(left, op.0, right, pos(toks, t1)), t1))
    } else if spec_remaining(toks, t1) == 0 {
        Err(missing_operand(pos(toks, t1)))
    } else {
        match operator_of(tok.content@) {
            None => Err(
                ParseError {
                    kind: ErrorKind::UnknownOperator(tok.content),
                    position: Some(tok.position),
                },
            ),
            Some(next) => {
                let t2 = t1 + 1;
                match atom_spec(toks, t2) {
                    Err(e) => Err(e),
                    Ok((a, t3)) => if is_end(a) {
                        Err(missing_operand(tok.position))
                    } else if !(top < t3 <= toks.len()) {
                        Err(bounds_error())
                    } else if next.1 >= op.1 {
                        binary_loop(toks, t3, binary_node(left, op.0, right, pos(toks, t2)), next, a)
                    } else {
                        binary_loop(toks, t3, left, op, binary_node(right, next.0, a, pos(toks, t3)))
                    },
                }
            },
        }
    }
}

/// A binary expression whose first operand is `first`, with the cursor on its first operator.
pub open spec fn binary_spec(toks: Seq<Token>, top: int, first: Expression) -> Result<(Expression, int), ParseError> {
    let tok = cursor_token(toks, top);
    match operator_of(tok.content@) {
        None => Err(
            ParseError { kind: ErrorKind::UnknownOperator(tok.content), position: Some(tok.position) },
        ),
        Some(op) => if top >= toks.len() {
            Err(bounds_error())
        } else {
            match atom_spec(toks, top + 1) {
                Err(e) => Err(e),
                Ok((a, t1)) => if is_end(a) {
                    Err(missing_operand(tok.position))
                } else {
                    binary_loop(toks, t1, first, op, a)
                },
            }
        },
    }
}

/// An atom, followed by a binary-operator chain when an operator comes next.
pub open spec fn expression_spec(toks: Seq<Token>, top: int) -> Result<(Expression, int), ParseError> {
    match atom_spec(toks, top) {
        Err(e) => Err(e),
        Ok((a, t1)) => if is_end(a) {
            Ok((a, t1))
        } else {
            let t2 = skip_spec(toks, t1, space_types());
            if cursor_token(toks, t2).token_type == TokenType::Operator {
                binary_spec(toks, t2, a)
            } else {
                Ok((a, t1))
            }
        },
    }
}

/// One statement: `identifier = expression`, a lone identifier, or an expression.
pub open spec fn statement_spec(toks: Seq<Token>, top: int) -> Result<(Statement, int), ParseError> {
    let t0 = skip_spec(toks, top, blank_types());
    let tok = cursor_token(toks, t0);
    if tok.token_type == TokenType::Identifier {
        if t0 >= toks.len() {
            Err(bounds_error())
        } else {
            let t1 = t0 + 1;
            let ident = Expression(ExpressionNode::Identifier(tok.content), tok.position);
            let t2 = skip_spec(toks, t1, space_types());
            if cursor_token(toks, t2).content@ == "="@ {
                if t2 >= toks.len() {
                    Err(bounds_error())
                } else {
                    match expression_spec(toks, t2 + 1) {
                        Err(e) => Err(e),
                        Ok((right, t3)) => if is_end(right) {
                            Err(missing_operand(pos(toks, t2)))
                        } else if spec_remaining(toks, t3) > 0
                            && cursor_token(toks, t3).token_type != TokenType::EOL {
                            Err(
                                ParseError {
                                    kind: ErrorKind::ExpectedType {
                                        expected: TokenType::EOL,
                                        found: cursor_token(toks, t3).content,
                                    },
                                    position: Some(pos(toks, t3)),
                                },
                            )
                        } else {
                            Ok(
                                (
                                    Statement(
                                        StatementNode::Assignment { left: ident, right },
                                        pos(toks, t3),
                                    ),
                                    t3,
                                ),
                            )
                        },
                    }
                }
            } else {
                Ok((Statement(StatementNode::Expression(ident), pos(toks, t1)), t1))
            }
        }
    } else {
        match expression_spec(toks, t0) {
            Err(e) => Err(e),
            Ok((e, t1)) => if is_end(e) {
                Err(ParseError { kind: ErrorKind::UnexpectedEnd, position: Some(pos(toks, t1)) })
            } else {
                Ok((Statement(StatementNode::Expression(e), pos(toks, t1)), t1))
            },
        }
    }
}

/// The statements from `top` on, while more than the final token is left,
/// and where the cursor stops.
pub open spec fn parse_spec(toks: Seq<Token>, top: int) -> Result<(Seq<Statement>, int), ParseError>
    decreases toks.len() + 2 - top,
{
    if spec_remaining(toks, top) > 1 {
        match statement_spec(toks, top) {
            Err(e) => Err(e),
            Ok((s, t1)) => if !(top < t1 <= toks.len()) {
                Err(bounds_error())
            } else {
                match parse_spec(toks, t1) {
                    Err(e) => Err(e),
                    Ok((rest, end)) => Ok((seq![s] + rest, end)),
                }
            },
        }
    } else {
        Ok((Seq::empty(), top))
    }
}

/// No part of `e` is the end marker.
pub open spec fn end_free(e: Expression) -> bool
    decreases e,
{
    match e.0 {
        ExpressionNode::EOF => false,
        ExpressionNode::Binary { left, op, right } => end_free(*left) && end_free(*right),
        _ => true,
    }
}

/// No expression of `s` holds the end marker.
pub open spec fn statement_end_free(s: Statement) -> bool {
    match s.0 {
        StatementNode::Expression(e) => end_free(e),
        StatementNode::Assignment { left, right } => end_free(left) && end_free(right),
    }
}

/// `r` is the outcome that `s` describes, with the cursor left at `top`.
pub open spec fn follows<T>(r: Response<T>, s: Result<(T, int), ParseError>, top: usize) -> bool {
    match r {
        Ok(v) => s == Ok::<(T, int), ParseError>((v, top as int)),
        Err(e) => s == Err::<(T, int), ParseError>(e),
    }
}

/// Whether `types` holds `t`.
fn type_in(types: &Vec<TokenType>, t: TokenType) -> (r: bool)
    ensures
        r == types@.contains(t),
{
    let mut i: usize = 0;
    while i < types.len()
        invariant
            i <= types@.len(),
            forall|j: int| 0 <= j < i ==> types@[j] != t,
        decreases types@.len() - i,
    {
        if types[i] == t {
            return true;
        }
        i = i + 1;
    }
    false
}

/// A recursive-descent parser over a lexed token sequence.
pub struct Parser<'p> {
    pub tokens: Vec<Token>,
    pub top: usize,
    pub lines: &'p Vec<String>,
    pub path: &'p str,
}

impl<'p> Parser<'p> {
    /// The token sequence is non-empty and the cursor never passes its end.
    pub open spec fn wf(&self) -> bool {
        &&& 0 < self.tokens@.len()
        &&& self.top <= self.tokens@.len()
    }

    /// `self` and `other` hold the same tokens and context.
    pub open spec fn same_input(&self, other: &Self) -> bool {
        &&& self.tokens == other.tokens
        &&& self.lines == other.lines
        &&& self.path == other.path
    }

    /// A parser at the start of `tokens`; `lines` and `path` serve diagnostics.
    pub fn new(tokens: Vec<Token>, lines: &'p Vec<String>, path: &'p str) -> (r: Self)
        requires
            0 < tokens@.len(),
        ensures
            r.wf(),
            r.tokens == tokens,
            r.top == 0,
            r.lines == lines,
            r.path == path,
    {
        Parser { tokens, top: 0, lines, path }
    }

    /// Parses statements while more than the final token is left.
    pub fn parse(&mut self) -> (r: Response<Vec<Statement>>)
        requires
            old(self).wf(),
        ensures
            final(self).wf(),
            final(self).same_input(old(self)),
            match r {
                Ok(v) => parse_spec(old(self).tokens@, old(self).top as int) == Ok::<
                    (Seq<Statement>, int),
                    ParseError,
                >((v@, final(self).top as int)),
                Err(e) => parse_spec(old(self).tokens@, old(self).top as int) == Err::<
                    (Seq<Statement>, int),
                    ParseError,
                >(e),
            },
            r is Ok ==> spec_remaining(final(self).tokens@, final(self).top as int) <= 1,
            r matches Ok(v) ==> forall|i: int| 0 <= i < v@.len() ==> statement_end_free(#[trigger] v@[i]),
    {
        let ghost toks = self.tokens@;
        let mut statements: Vec<Statement> = Vec::new();
        while self.remaining() > 1
            invariant
                self.wf(),
                self.same_input(old(self)),
                toks == self.tokens@,
                parse_spec(toks, old(self).top as int) == match parse_spec(toks, self.top as int) {
                    Ok((rest, end)) => Ok((statements@ + rest, end)),
                    Err(e) => Err(e),
                },
                forall|i: int| 0 <= i < statements@.len() ==> statement_end_free(#[trigger] statements@[i]),
            decreases toks.len() + 2 - self.top,
        {
            let start = self.top;
            let s = match self.statement() {
                Ok(s) => s,
                Err(e) => {
                    return Err(e);
                },
            };
            if !(start < self.top && self.top <= self.tokens.len()) {
                return Err(ParseError { kind: ErrorKind::CursorBounds, position: None });
            }
            let ghost before = statements@;
            statements.push(s);
            proof {
                lemma_statement_end_free(toks, start as int);
                match parse_spec(toks, self.top as int) {
                    Ok((rest, end)) => {
                        assert(before + (seq![s] + rest) =~= statements@ + rest);
                    },
                    Err(e) => {},
                }
            }
        }
        proof {
            assert(statements@ + Seq::<Statement>::empty() =~= statements@);
        }
        Ok(statements)
    }

    fn statement(&mut self) -> (r: Response<Statement>)
        requires
            old(self).wf(),
        ensures
            final(self).wf(),
            final(self).same_input(old(self)),
            follows(r, statement_spec(old(self).tokens@, old(self).top as int), final(self).top),
    {
        let mut blank: Vec<TokenType> = Vec::new();
        blank.push(TokenType::EOL);
        blank.push(TokenType::Whitespace);
        assert(blank@ =~= blank_types());
        let _ = self.skip_types(blank);
        if self.current_type() == TokenType::Identifier {
            let position = self.position();
            let name = match self.consume_type(TokenType::Identifier) {
                Ok(name) => name,
                Err(e) => {
                    return Err(e);
                },
            };
            let identifier = Expression::new(ExpressionNode::Identifier(name), position);
            let backup = self.top;
            let mut space: Vec<TokenType> = Vec::new();
            space.push(TokenType::Whitespace);
            assert(space@ =~= space_types());
            let _ = self.skip_types(space);
            if str_eq(self.current().content.as_str(), "=") {
                let assign_position = self.position();
                match self.next() {
                    Ok(()) => {},
                    Err(e) => {
                        return Err(e);
                    },
                }
                let right = match self.expression() {
                    Ok(right) => right,
                    Err(e) => {
                        return Err(e);
                    },
                };
                if let ExpressionNode::EOF = right.0 {
                    return Err(
                        ParseError {
                            kind: ErrorKind::MissingRightHand,
                            position: Some(assign_position),
                        },
                    );
                }
                if self.remaining() > 0 {
                    match self.expect_type(TokenType::EOL) {
                        Ok(()) => {},
                        Err(e) => {
                            return Err(e);
                        },
                    }
                }
                let node = StatementNode::Assignment { left: identifier, right };
                Ok(Statement::new(node, self.position()))
            } else {
                self.top = backup;
                Ok(Statement::new(StatementNode::Expression(identifier), self.position()))
            }
        } else {
            let expression = match self.expression() {
                Ok(expression) => expression,
                Err(e) => {
                    return Err(e);
                },
            };
            if let ExpressionNode::EOF = expression.0 {
                return Err(ParseError { kind: ErrorKind::UnexpectedEnd, position: Some(self.position()) });
            }
            Ok(Statement::new(StatementNode::Expression(expression), self.position()))
        }
    }

    fn expression(&mut self) -> (r: Response<Expression>)
        requires
            old(self).wf(),
        ensures
            final(self).wf(),
            final(self).same_input(old(self)),
            follows(r, expression_spec(old(self).tokens@, old(self).top as int), final(self).top),
    {
        let expression = match self.atom() {
            Ok(expression) => expression,
            Err(e) => {
                return Err(e);
            },
        };
        if let ExpressionNode::EOF = expression.0 {
            return Ok(expression);
        }
        let backup = self.top;
        let mut space: Vec<TokenType> = Vec::new();
        space.push(TokenType::Whitespace);
        assert(space@ =~= space_types());
        let _ = self.skip_types(space);
        if self.current_type() == TokenType::Operator {
            self.binary(expression)
        } else {
            self.top = backup;
            Ok(expression)
        }
    }

    fn atom(&mut self) -> (r: Response<Expression>)
        requires
            old(self).wf(),
        ensures
            final(self).wf(),
            final(self).same_input(old(self)),
            follows(r, atom_spec(old(self).tokens@, old(self).top as int), final(self).top),
    {
        let mut blank: Vec<TokenType> = Vec::new();
        blank.push(TokenType::EOL);
        blank.push(TokenType::Whitespace);
        assert(blank@ =~= blank_types());
        let _ = self.skip_types(blank);
        if self.remaining() == 0 {
            return Ok(Expression::new(ExpressionNode::EOF, self.position()));
        }
        let position = self.position();
        let token_type = self.current_type();
        let node = match token_type {
            TokenType::Int => {
                let text = match self.consume_type(TokenType::Int) {
                    Ok(text) => text,
                    Err(e) => {
                        return Err(e);
                    },
                };
                match parse_int(text.as_str()) {
                    Some(v) => ExpressionNode::Int(v),
                    None => {
                        return Err(
                            ParseError {
                                kind: ErrorKind::MalformedNumber(text),
                                position: Some(position),
                            },
                        );
                    },
                }
            },
            TokenType::Float => {
                let text = match self.consume_type(TokenType::Float) {
                    Ok(text) => text,
                    Err(e) => {
                        return Err(e);
                    },
                };
                if check_float_text(text.as_str()) {
                    ExpressionNode::Float(text)
                } else {
                    return Err(
                        ParseError { kind: ErrorKind::MalformedNumber(text), position: Some(position) },
                    );
                }
            },
            TokenType::Str => match self.consume_type(TokenType::Str) {
                Ok(text) => ExpressionNode::Str(text),
                Err(e) => {
                    return Err(e);
                },
            },
            TokenType::Bool => match self.consume_type(TokenType::Bool) {
                Ok(text) => ExpressionNode::Bool(str_eq(text.as_str(), "true")),
                Err(e) => {
                    return Err(e);
                },
            },
            TokenType::Identifier => match self.consume_type(TokenType::Identifier) {
                Ok(text) => ExpressionNode::Identifier(text),
                Err(e) => {
                    return Err(e);
                },
            },
            TokenType::Whitespace => {
                match self.next() {
                    Ok(()) => {},
                    Err(e) => {
                        return Err(e);
                    },
                }
                ExpressionNode::EOF
            },
            t => {
                return Err(ParseError { kind: ErrorKind::Unimplemented(t), position: Some(position) });
            },
        };
        Ok(Expression::new(node, self.position()))
    }

    /// Precedence climbing. The operand stack never holds more than two
    /// expressions between steps, so it is kept as `left` and `right`, with
    /// `op` the one operator between them that is still to be applied.
    fn binary(&mut self, expression: Expression) -> (r: Response<Expression>)
        requires
            old(self).wf(),
        ensures
            final(self).wf(),
            final(self).same_input(old(self)),
            follows(r, binary_spec(old(self).tokens@, old(self).top as int, expression), final(self).top),
    {
        let ghost toks = self.tokens@;
        let operator_position = self.position();
        let first = match Operator::from(self.current().content.as_str()) {
            Some(first) => first,
            None => {
                return Err(
                    ParseError {
                        kind: ErrorKind::UnknownOperator(self.current_content()),
                        position: Some(operator_position),
                    },
                );
            },
        };
        match self.next() {
            Ok(()) => {},
            Err(e) => {
                return Err(e);
            },
        }
        let term = match self.atom() {
            Ok(term) => term,
            Err(e) => {
                return Err(e);
            },
        };
        if let ExpressionNode::EOF = term.0 {
            return Err(
                ParseError { kind: ErrorKind::MissingRightHand, position: Some(operator_position) },
            );
        }
        let mut left = expression;
        let mut op = first;
        let mut right = term;
        loop
            invariant
                self.wf(),
                self.same_input(old(self)),
                toks == self.tokens@,
                binary_spec(toks, old(self).top as int, expression) == binary_loop(
                    toks,
                    self.top as int,
                    left,
                    op,
                    right,
                ),
            decreases toks.len() + 2 - self.top,
        {
            let start = self.top;
            let mut space: Vec<TokenType> = Vec::new();
            space.push(TokenType::Whitespace);
            assert(space@ =~= space_types());
            let _ = self.skip_types(space);
            if self.current_type() != TokenType::Operator {
                let node = ExpressionNode::Binary { left: Box::new(left), op: op.0, right: Box::new(right) };
                return Ok(Expression::new(node, self.position()));
            }
            if self.remaining() == 0 {
                return Err(
                    ParseError { kind: ErrorKind::MissingRightHand, position: Some(self.position()) },
                );
            }
            let operator_position = self.position();
            let next = match Operator::from(self.current().content.as_str()) {
                Some(next) => next,
                None => {
                    return Err(
                        ParseError {
                            kind: ErrorKind::UnknownOperator(self.current_content()),
                            position: Some(operator_position),
                        },
                    );
                },
            };
            match self.next() {
                Ok(()) => {},
                Err(e) => {
                    return Err(e);
                },
            }
            let middle = self.position();
            let term = match self.atom() {
                Ok(term) => term,
                Err(e) => {
                    return Err(e);
                },
            };
            if let ExpressionNode::EOF = term.0 {
                return Err(
                    ParseError { kind: ErrorKind::MissingRightHand, position: Some(operator_position) },
                );
            }
            if !(start < self.top && self.top <= self.tokens.len()) {
                return Err(ParseError { kind: ErrorKind::CursorBounds, position: None });
            }
            if next.1 >= op.1 {
                let node = ExpressionNode::Binary { left: Box::new(left), op: op.0, right: Box::new(right) };
                left = Expression::new(node, middle);
                op = next;
                right = term;
            } else {
                let node = ExpressionNode::Binary { left: Box::new(right), op: next.0, right: Box::new(term) };
                right = Expression::new(node, self.position());
            }
        }
    }

    /// Moves the cursor forward one token.
    fn next(&mut self) -> (r: Response<()>)
        requires
            old(self).wf(),
        ensures
            final(self).wf(),
            final(self).same_input(old(self)),
            old(self).top < old(self).tokens@.len() ==> r is Ok && final(self).top == old(self).top
                + 1,
            old(self).top >= old(self).tokens@.len() ==> r == Err::<(), ParseError>(bounds_error())
                && final(self).top == old(self).top,
    {
        if self.top < self.tokens.len() {
            self.top = self.top + 1;
            Ok(())
        } else {
            Err(ParseError { kind: ErrorKind::CursorBounds, position: None })
        }
    }

    /// Moves the cursor back one token.
    pub fn back(&mut self) -> (r: Response<()>)
        requires
            old(self).wf(),
        ensures
            final(self).wf(),
            final(self).same_input(old(self)),
            old(self).top > 0 ==> r is Ok && final(self).top == old(self).top - 1,
            old(self).top == 0 ==> r == Err::<(), ParseError>(bounds_error()) && final(self).top
                == 0,
    {
        if self.top > 0 {
            self.top = self.top - 1;
            Ok(())
        } else {
            Err(ParseError { kind: ErrorKind::CursorBounds, position: None })
        }
    }

    fn skip_types(&mut self, tokens: Vec<TokenType>) -> (r: Response<()>)
        requires
            old(self).wf(),
        ensures
            final(self).wf(),
            final(self).same_input(old(self)),
            r is Ok,
            final(self).top == skip_spec(old(self).tokens@, old(self).top as int, tokens@),
    {
        let ghost toks = self.tokens@;
        let n: usize = self.tokens.len();
        let mut more = self.remaining() > 1 && type_in(&tokens, self.current_type());
        while more
            invariant
                more == (spec_remaining(toks, self.top as int) > 1 && tokens@.contains(
                    cursor_token(toks, self.top as int).token_type,
                )),
                self.wf(),
                self.same_input(old(self)),
                toks == self.tokens@,
                n == toks.len(),
                skip_spec(toks, self.top as int, tokens@) == skip_spec(
                    toks,
                    old(self).top as int,
                    tokens@,
                ),
            decreases toks.len() - self.top,
        {
            self.top = self.top + 1;
            more = self.remaining() > 1 && type_in(&tokens, self.current_type());
        }
        Ok(())
    }

    fn remaining(&self) -> (r: usize)
        requires
            self.wf(),
        ensures
            r == spec_remaining(self.tokens@, self.top as int),
    {
        if self.top >= self.tokens.len() {
            0
        } else {
            self.tokens.len() - self.top
        }
    }

    /// The token under the cursor; past the end, the last token.
    pub fn current(&self) -> (r: &Token)
        requires
            self.tokens@.len() > 0,
        ensures
            *r == cursor_token(self.tokens@, self.top as int),
    {
        if self.top > self.tokens.len() - 1 {
            return &self.tokens[self.tokens.len() - 1];
        }
        &self.tokens[self.top]
    }

    /// The text of the token under the cursor.
    pub fn current_content(&self) -> (r: String)
        requires
            self.tokens@.len() > 0,
        ensures
            r == cursor_token(self.tokens@, self.top as int).content,
    {
        self.current().content.clone()
    }

    /// The type of the token under the cursor.
    pub fn current_type(&self) -> (r: TokenType)
        requires
            self.tokens@.len() > 0,
        ensures
            r == cursor_token(self.tokens@, self.top as int).token_type,
    {
        self.current().token_type
    }

    /// The position of the token under the cursor.
    pub fn position(&self) -> (r: TokenPosition)
        requires
            self.tokens@.len() > 0,
        ensures
            r == pos(self.tokens@, self.top as int),
    {
        self.current().position
    }

    /// Succeeds when the token under the cursor has type `token`.
    pub fn expect_type(&self, token: TokenType) -> (r: Response<()>)
        requires
            self.wf(),
        ensures
            r is Ok <==> cursor_token(self.tokens@, self.top as int).token_type == token,
            r is Err ==> r == Err::<(), ParseError>(
                ParseError {
                    kind: ErrorKind::ExpectedType {
                        expected: token,
                        found: cursor_token(self.tokens@, self.top as int).content,
                    },
                    position: Some(pos(self.tokens@, self.top as int)),
                },
            ),
    {
        if self.current().token_type == token {
            Ok(())
        } else {
            Err(
                ParseError {
                    kind: ErrorKind::ExpectedType { expected: token, found: self.current_content() },
                    position: Some(self.current().position),
                },
            )
        }
    }

    /// Takes the token under the cursor, which must have type `token`, and returns its text.
    pub fn consume_type(&mut self, token: TokenType) -> (r: Response<String>)
        requires
            old(self).wf(),
        ensures
            final(self).wf(),
            final(self).same_input(old(self)),
            ({
                let toks = old(self).tokens@;
                let top = old(self).top as int;
                let tok = cursor_token(toks, top);
                if tok.token_type != token {
                    r == Err::<String, ParseError>(
                        ParseError {
                            kind: ErrorKind::ExpectedType { expected: token, found: tok.content },
                            position: Some(tok.position),
                        },
                    ) && final(self).top == old(self).top
                } else if top >= toks.len() {
                    r == Err::<String, ParseError>(bounds_error()) && final(self).top == old(self).top
                } else {
                    r == Ok::<String, ParseError>(tok.content) && final(self).top == top + 1
                }
            }),
    {
        if self.current().token_type == token {
            let content = self.current_content();
            match self.next() {
                Ok(()) => Ok(content),
                Err(e) => Err(e),
            }
        } else {
            Err(
                ParseError {
                    kind: ErrorKind::ExpectedType { expected: token, found: self.current_content() },
                    position: Some(self.current().position),
                },
            )
        }
    }

    /// Succeeds when the text of the token under the cursor is `content`.
    pub fn expect_content(&self, content: &str) -> (r: Response<()>)
        requires
            self.wf(),
        ensures
            r is Ok <==> cursor_token(self.tokens@, self.top as int).content@ == content@,
            match r {
                Ok(_) => true,
                Err(e) => e.position == Some(pos(self.tokens@, self.top as int)) && match e.kind {
                    ErrorKind::ExpectedContent { wanted, found } => wanted@ == content@ && found
                        == cursor_token(self.tokens@, self.top as int).content,
                    _ => false,
                },
            },
    {
        if str_eq(self.current().content.as_str(), content) {
            Ok(())
        } else {
            Err(
                ParseError {
                    kind: ErrorKind::ExpectedContent {
                        wanted: content.to_owned(),
                        found: self.current_content(),
                    },
                    position: Some(self.current().position),
                },
            )
        }
    }

    /// Takes the token under the cursor, whose text must be `content`, and returns its text.
    pub fn consume_content(&mut self, content: &str) -> (r: Response<String>)
        requires
            old(self).wf(),
        ensures
            final(self).wf(),
            final(self).same_input(old(self)),
            ({
                let toks = old(self).tokens@;
                let top = old(self).top as int;
                let tok = cursor_token(toks, top);
                if tok.content@ != content@ {
                    final(self).top == old(self).top && match r {
                        Ok(_) => false,
                        Err(e) => e.position == Some(tok.position) && match e.kind {
                            ErrorKind::ExpectedContent { wanted, found } => wanted@ == content@
                                && found == tok.content,
                            _ => false,
                        },
                    }
                } else if top >= toks.len() {
                    r == Err::<String, ParseError>(bounds_error()) && final(self).top == old(self).top
                } else {
                    r == Ok::<String, ParseError>(tok.content) && final(self).top == top + 1
                }
            }),
    {
        if str_eq(self.current().content.as_str(), content) {
            let content = self.current_content();
            match self.next() {
                Ok(()) => Ok(content),
                Err(e) => Err(e),
            }
        } else {
            Err(
                ParseError {
                    kind: ErrorKind::ExpectedContent {
                        wanted: content.to_owned(),
                        found: self.current_content(),
                    },
                    position: Some(self.current().position),
                },
            )
        }
    }
}


/// An atom other than the end marker is a leaf.
proof fn lemma_atom_end_free(toks: Seq<Token>, top: int)
    ensures
        atom_spec(toks, top) matches Ok((a, _)) ==> is_end(a) || end_free(a),
{
}

/// Precedence climbing over end-free operands builds an end-free tree.
proof fn lemma_binary_loop_end_free(
    toks: Seq<Token>,
    top: int,
    left: Expression,
    op: (Operator, u8),
    right: Expression,
)
    requires
        end_free(left),
        end_free(right),
    ensures
        binary_loop(toks, top, left, op, right) matches Ok((e, _)) ==> end_free(e),
    decreases toks.len() + 2 - top,
{
    let t1 = skip_spec(toks, top, space_types());
    let tok = cursor_token(toks, t1);
    if tok.token_type == TokenType::Operator && spec_remaining(toks, t1) != 0 {
        if let Some(next) = operator_of(tok.content@) {
            let t2 = t1 + 1;
            lemma_atom_end_free(toks, t2);
            if let Ok((a, t3)) = atom_spec(toks, t2) {
                if !is_end(a) && top < t3 <= toks.len() {
                    if next.1 >= op.1 {
                        lemma_binary_loop_end_free(
                            toks,
                            t3,
                            binary_node(left, op.0, right, pos(toks, t2)),
                            next,
                            a,
                        );
                    } else {
                        lemma_binary_loop_end_free(
                            toks,
                            t3,
                            left,
                            op,
                            binary_node(right, next.0, a, pos(toks, t3)),
                        );
                    }
                }
            }
        }
    }
}

/// An expression other than the end marker holds no end marker.
proof fn lemma_expression_end_free(toks: Seq<Token>, top: int)
    ensures
        expression_spec(toks, top) matches Ok((e, _)) ==> is_end(e) || end_free(e),
{
    lemma_atom_end_free(toks, top);
    if let Ok((a, t1)) = atom_spec(toks, top) {
        if !is_end(a) {
            let t2 = skip_spec(toks, t1, space_types());
            lemma_atom_end_free(toks, t2 + 1);
            if let Some(op) = operator_of(cursor_token(toks, t2).content@) {
                if let Ok((b, t3)) = atom_spec(toks, t2 + 1) {
                    if !is_end(b) {
                        lemma_binary_loop_end_free(toks, t3, a, op, b);
                    }
                }
            }
        }
    }
}

/// A parsed statement holds no end marker.
proof fn lemma_statement_end_free(toks: Seq<Token>, top: int)
    ensures
        statement_spec(toks, top) matches Ok((s, _)) ==> statement_end_free(s),
{
    let t0 = skip_spec(toks, top, blank_types());
    lemma_expression_end_free(toks, t0);
    let t2 = skip_spec(toks, t0 + 1, space_types());
    lemma_expression_end_free(toks, t2 + 1);
}

/// The expression of an expression statement.
pub open spec fn statement_expression(s: Statement) -> Option<Expression> {
    match s.0 {
        StatementNode::Expression(e) => Some(e),
        _ => None,
    }
}

/// `e` applies `op`.
pub open spec fn applies(e: Expression, op: Operator) -> bool {
    e.0 matches ExpressionNode::Binary { op: o, .. } && o == op
}

/// The left operand of a binary expression.
pub open spec fn lhs(e: Expression) -> Expression {
    match e.0 {
        ExpressionNode::Binary { left, .. } => *left,
        _ => e,
    }
}

/// The right operand of a binary expression.
pub open spec fn rhs(e: Expression) -> Expression {
    match e.0 {
        ExpressionNode::Binary { right, .. } => *right,
        _ => e,
    }
}

/// `e` is the integer literal `v`.
pub open spec fn is_int(e: Expression, v: i64) -> bool {
    e.0 == ExpressionNode::Int(v)
}

/// `toks` is the line `a o1 b o2 c` followed by an end of line, with integer
/// operands and known operators.
pub open spec fn three_operand_line(
    toks: Seq<Token>,
    a: i64,
    o1: (Operator, u8),
    b: i64,
    o2: (Operator, u8),
    c: i64,
) -> bool {
    &&& toks.len() == 6
    &&& toks[0].token_type == TokenType::Int && int_value(toks[0].content@) == Some(a)
    &&& toks[1].token_type == TokenType::Operator && operator_of(toks[1].content@) == Some(o1)
    &&& toks[2].token_type == TokenType::Int && int_value(toks[2].content@) == Some(b)
    &&& toks[3].token_type == TokenType::Operator && operator_of(toks[3].content@) == Some(o2)
    &&& toks[4].token_type == TokenType::Int && int_value(toks[4].content@) == Some(c)
    &&& toks[5].token_type == TokenType::EOL
}

/// `e` is `a o1 (b o2 c)` when `tighter`, else `(a o1 b) o2 c`.
pub open spec fn grouped(e: Expression, a: i64, o1: Operator, b: i64, o2: Operator, c: i64, tighter: bool) -> bool {
    if tighter {
        &&& applies(e, o1)
        &&& is_int(lhs(e), a)
        &&& applies(rhs(e), o2)
        &&& is_int(lhs(rhs(e)), b)
        &&& is_int(rhs(rhs(e)), c)
    } else {
        &&& applies(e, o2)
        &&& applies(lhs(e), o1)
        &&& is_int(lhs(lhs(e)), a)
        &&& is_int(rhs(lhs(e)), b)
        &&& is_int(rhs(e), c)
    }
}

proof fn lemma_skip_sets()
    ensures
        forall|t: TokenType| #[trigger] blank_types().contains(t) <==> (t == TokenType::EOL || t
            == TokenType::Whitespace),
        forall|t: TokenType| #[trigger] space_types().contains(t) <==> t == TokenType::Whitespace,
{
    assert forall|t: TokenType| #[trigger] blank_types().contains(t) <==> (t == TokenType::EOL || t
        == TokenType::Whitespace) by {
        if t == TokenType::EOL {
            assert(blank_types()[0] == t);
        }
        if t == TokenType::Whitespace {
            assert(blank_types()[1] == t);
        }
    }
    assert forall|t: TokenType| #[trigger] space_types().contains(t) <==> t == TokenType::Whitespace by {
        if t == TokenType::Whitespace {
            assert(space_types()[0] == t);
        }
    }
}

/// Operator precedence and grouping: in `a o1 b o2 c`, an `o2` that binds
/// tighter than `o1` groups as `a o1 (b o2 c)`; otherwise, equal precedence
/// included, the line groups to the left as `(a o1 b) o2 c`. The operands keep
/// their order, and the line is one expression statement.
pub proof fn lemma_precedence_and_grouping(
    toks: Seq<Token>,
    a: i64,
    o1: (Operator, u8),
    b: i64,
    o2: (Operator, u8),
    c: i64,
)
    requires
        three_operand_line(toks, a, o1, b, o2, c),
    ensures
        parse_spec(toks, 0) matches Ok((v, end)) && (v.len() == 1 && end == 5 && (statement_expression(
            v[0],
        ) matches Some(e) && grouped(e, a, o1.0, b, o2.0, c, o2.1 < o1.1))),
{
    lemma_skip_sets();
    let ea = Expression(ExpressionNode::Int(a), toks[1].position);
    let eb = Expression(ExpressionNode::Int(b), toks[3].position);
    let ec = Expression(ExpressionNode::Int(c), toks[5].position);
    assert(skip_spec(toks, 0, blank_types()) == 0);
    assert(atom_spec(toks, 0) == Ok::<(Expression, int), ParseError>((ea, 1)));
    assert(skip_spec(toks, 1, space_types()) == 1);
    assert(skip_spec(toks, 2, blank_types()) == 2);
    assert(atom_spec(toks, 2) == Ok::<(Expression, int), ParseError>((eb, 3)));
    assert(skip_spec(toks, 3, space_types()) == 3);
    assert(skip_spec(toks, 4, blank_types()) == 4);
    assert(atom_spec(toks, 4) == Ok::<(Expression, int), ParseError>((ec, 5)));
    assert(skip_spec(toks, 5, space_types()) == 5);
    let e = if o2.1 >= o1.1 {
        binary_node(binary_node(ea, o1.0, eb, toks[4].position), o2.0, ec, toks[5].position)
    } else {
        binary_node(ea, o1.0, binary_node(eb, o2.0, ec, toks[5].position), toks[5].position)
    };
    if o2.1 >= o1.1 {
        assert(binary_loop(toks, 5, binary_node(ea, o1.0, eb, toks[4].position), o2, ec) == Ok::<
            (Expression, int),
            ParseError,
        >((e, 5)));
    } else {
        assert(binary_loop(toks, 5, ea, o1, binary_node(eb, o2.0, ec, toks[5].position)) == Ok::<
            (Expression, int),
            ParseError,
        >((e, 5)));
    }
    assert(binary_loop(toks, 3, ea, o1, eb) == Ok::<(Expression, int), ParseError>((e, 5)));
    assert(binary_spec(toks, 1, ea) == Ok::<(Expression, int), ParseError>((e, 5)));
    assert(expression_spec(toks, 0) == Ok::<(Expression, int), ParseError>((e, 5)));
    let st = Statement(StatementNode::Expression(e), toks[5].position);
    assert(statement_spec(toks, 0) == Ok::<(Statement, int), ParseError>((st, 5)));
    assert(parse_spec(toks, 5) == Ok::<(Seq<Statement>, int), ParseError>((Seq::empty(), 5)));
    assert(seq![st] + Seq::<Statement>::empty() =~= seq![st]);
    assert(parse_spec(toks, 0) == Ok::<(Seq<Statement>, int), ParseError>((seq![st], 5)));
}

proof fn lemma_skip_bounds(toks: Seq<Token>, top: int, types: Seq<TokenType>)
    requires
        0 <= top <= toks.len(),
    ensures
        top <= skip_spec(toks, top, types) <= toks.len(),
        skip_spec(toks, top, types) > top ==> skip_spec(toks, top, types) < toks.len(),
    decreases toks.len() - top,
{
    if spec_remaining(toks, top) > 1 && types.contains(cursor_token(toks, top).token_type) {
        lemma_skip_bounds(toks, top + 1, types);
    }
}

proof fn lemma_atom_advances(toks: Seq<Token>, top: int)
    requires
        0 <= top <= toks.len(),
    ensures
        atom_spec(toks, top) matches Ok((a, t)) ==> top <= t <= toks.len() && (!is_end(a) ==> top < t),
{
    lemma_skip_bounds(toks, top, blank_types());
}

proof fn lemma_binary_loop_advances(
    toks: Seq<Token>,
    top: int,
    left: Expression,
    op: (Operator, u8),
    right: Expression,
)
    requires
        0 <= top <= toks.len(),
    ensures
        binary_loop(toks, top, left, op, right) matches Ok((e, t)) ==> top <= t <= toks.len(),
    decreases toks.len() + 2 - top,
{
    lemma_skip_bounds(toks, top, space_types());
    let t1 = skip_spec(toks, top, space_types());
    if cursor_token(toks, t1).token_type == TokenType::Operator && spec_remaining(toks, t1) != 0 {
        lemma_atom_advances(toks, t1 + 1);
        if let Ok((a, t3)) = atom_spec(toks, t1 + 1) {
            if let Some(next) = operator_of(cursor_token(toks, t1).content@) {
                if !is_end(a) && top < t3 <= toks.len() {
                    if next.1 >= op.1 {
                        lemma_binary_loop_advances(
                            toks,
                            t3,
                            binary_node(left, op.0, right, pos(toks, t1 + 1)),
                            next,
                            a,
                        );
                    } else {
                        lemma_binary_loop_advances(
                            toks,
                            t3,
                            left,
                            op,
                            binary_node(right, next.0, a, pos(toks, t3)),
                        );
                    }
                }
            }
        }
    }
}

/// Each step of precedence climbing moves the cursor forward within the
/// tokens, so the loop's cursor guard never fires.
pub proof fn lemma_binary_step_in_bounds(toks: Seq<Token>, top: int)
    requires
        0 <= top <= toks.len(),
    ensures
        ({
            let t1 = skip_spec(toks, top, space_types());
            cursor_token(toks, t1).token_type == TokenType::Operator && spec_remaining(toks, t1) != 0
                ==> (atom_spec(toks, t1 + 1) matches Ok((a, t3)) ==> (!is_end(a) ==> top < t3
                <= toks.len()))
        }),
{
    lemma_skip_bounds(toks, top, space_types());
    let t1 = skip_spec(toks, top, space_types());
    if spec_remaining(toks, t1) != 0 {
        lemma_atom_advances(toks, t1 + 1);
    }
}

/// A statement parsed where more than the final token is left moves the
/// cursor forward within the tokens, so the statement loop's guard never fires.
pub proof fn lemma_statement_advances(toks: Seq<Token>, top: int)
    requires
        0 <= top,
        spec_remaining(toks, top) > 1,
    ensures
        statement_spec(toks, top) matches Ok((s, t)) ==> top < t <= toks.len(),
{
    lemma_skip_bounds(toks, top, blank_types());
    let t0 = skip_spec(toks, top, blank_types());
    lemma_atom_advances(toks, t0);
    if let Ok((a, t1)) = atom_spec(toks, t0) {
        lemma_skip_bounds(toks, t1, space_types());
        let t2 = skip_spec(toks, t1, space_types());
        if t2 < toks.len() {
            lemma_atom_advances(toks, t2 + 1);
            if let Ok((b, t3)) = atom_spec(toks, t2 + 1) {
                if let Some(op) = operator_of(cursor_token(toks, t2).content@) {
                    lemma_binary_loop_advances(toks, t3, a, op, b);
                }
            }
        }
    }
    if t0 < toks.len() {
        lemma_skip_bounds(toks, t0 + 1, space_types());
        let t2 = skip_spec(toks, t0 + 1, space_types());
        if t2 < toks.len() {
            lemma_skip_bounds(toks, t2 + 1, blank_types());
            lemma_atom_advances(toks, t2 + 1);
            if let Ok((a, t3)) = atom_spec(toks, t2 + 1) {
                lemma_skip_bounds(toks, t3, space_types());
                let t4 = skip_spec(toks, t3, space_types());
                if t4 < toks.len() {
                    lemma_atom_advances(toks, t4 + 1);
                    if let Ok((b, t5)) = atom_spec(toks, t4 + 1) {
                        if let Some(op) = operator_of(cursor_token(toks, t4).content@) {
                            lemma_binary_loop_advances(toks, t5, a, op, b);
                        }
                    }
                }
            }
        }
    }
}

/// Parsing depends on the tokens and the starting cursor alone: two parsers
/// that hold the same tokens and start at the same place produce the same
/// statements and stop at the same place, or fail with the same error.
pub proof fn lemma_parse_deterministic(a: Parser, b: Parser)
    requires
        a.tokens@ == b.tokens@,
        a.top == b.top,
    ensures
        parse_spec(a.tokens@, a.top as int) == parse_spec(b.tokens@, b.top as int),
{
}

} // verus!
