//! Tokens, expression trees, statements and error values, together with
//! their mathematical views.
//!
//! Identifier names travel as byte strings (`Vec<u8>`), and numeric
//! literals as exact rationals. Each executable type has a view type over
//! `Seq<u8>` used by the specifications.

use crate::bytes::bytes_eq;
use crate::rat::Rat;
use vstd::prelude::*;

verus! {

/// The smallest lexical unit of source text.
#[derive(Debug)]
pub enum Token {
    /// A numeric literal, as the exact rational it denotes.
    Number(Rat),
    /// A name: a letter followed by letters and digits.
    Identifier(Vec<u8>),
    Plus,
    Minus,
    Star,
    Slash,
    /// The `^` operator.
    Power,
    LParen,
    RParen,
    Equal,
    /// A statement terminator: `;` or a newline.
    End,
    /// The keyword `print`.
    Print,
    /// The postfix `!` operator.
    Factorial,
}

/// The view of a [`Token`]: identifier names become byte sequences.
pub enum TokenView {
    Number(Rat),
    Identifier(Seq<u8>),
    Plus,
    Minus,
    Star,
    Slash,
    Power,
    LParen,
    RParen,
    Equal,
    End,
    Print,
    Factorial,
}

impl View for Token {
    type V = TokenView;

    open spec fn view(&self) -> TokenView {
        match self {
            Token::Number(r) => TokenView::Number(*r),
            Token::Identifier(n) => TokenView::Identifier(n@),
            Token::Plus => TokenView::Plus,
            Token::Minus => TokenView::Minus,
            Token::Star => TokenView::Star,
            Token::Slash => TokenView::Slash,
            Token::Power => TokenView::Power,
            Token::LParen => TokenView::LParen,
            Token::RParen => TokenView::RParen,
            Token::Equal => TokenView::Equal,
            Token::End => TokenView::End,
            Token::Print => TokenView::Print,
            Token::Factorial => TokenView::Factorial,
        }
    }
}

/// The views of a sequence of tokens.
pub open spec fn token_views(ts: Seq<Token>) -> Seq<TokenView> {
    ts.map_values(|t: Token| t@)
}

/// A failure of the lexer: tokenization stops at the first one.
#[derive(Debug, PartialEq, Eq, Structural)]
pub enum LexError {
    /// A digit run with two dots, or one that ends in a dot.
    MalformedNumber,
    /// A literal whose numerator or denominator does not fit in an `i64`.
    NumberTooLarge,
    /// A byte that starts no token.
    UnrecognizedChar(u8),
}

/// An immutable expression tree.
#[derive(Debug)]
pub enum Expression {
    /// A numeric literal leaf.
    Number(Rat),
    /// A sum of two sub-expressions.
    Plus(Box<Expression>, Box<Expression>),
    /// A difference of two sub-expressions.
    Minus(Box<Expression>, Box<Expression>),
    /// A product of two sub-expressions.
    Asterisk(Box<Expression>, Box<Expression>),
    /// A quotient of two sub-expressions.
    Slash(Box<Expression>, Box<Expression>),
    /// A reference to a named binding, resolved at evaluation time.
    Variable(Vec<u8>),
    /// Exponentiation: base and exponent.
    Power(Box<Expression>, Box<Expression>),
    /// The unary postfix factorial.
    Factorial(Box<Expression>),
    /// A parenthesized sub-expression, kept as a distinct node.
    Group(Box<Expression>),
    /// The absent expression; it evaluates to zero.
    Empty,
}

/// The view of an [`Expression`].
pub enum ExprView {
    Number(Rat),
    Plus(Box<ExprView>, Box<ExprView>),
    Minus(Box<ExprView>, Box<ExprView>),
    Asterisk(Box<ExprView>, Box<ExprView>),
    Slash(Box<ExprView>, Box<ExprView>),
    Variable(Seq<u8>),
    Power(Box<ExprView>, Box<ExprView>),
    Factorial(Box<ExprView>),
    Group(Box<ExprView>),
    Empty,
}

/// The view of an expression tree: names become byte sequences.
pub open spec fn expr_view(e: Expression) -> ExprView
    decreases e,
{
    match e {
        Expression::Number(r) => ExprView::Number(r),
        Expression::Plus(l, r) => ExprView::Plus(
            Box::new(expr_view(*l)),
            Box::new(expr_view(*r)),
        ),
        Expression::Minus(l, r) => ExprView::Minus(
            Box::new(expr_view(*l)),
            Box::new(expr_view(*r)),
        ),
        Expression::Asterisk(l, r) => ExprView::Asterisk(
            Box::new(expr_view(*l)),
            Box::new(expr_view(*r)),
        ),
        Expression::Slash(l, r) => ExprView::Slash(
            Box::new(expr_view(*l)),
            Box::new(expr_view(*r)),
        ),
        Expression::Variable(n) => ExprView::Variable(n@),
        Expression::Power(l, r) => ExprView::Power(
            Box::new(expr_view(*l)),
            Box::new(expr_view(*r)),
        ),
        Expression::Factorial(b) => ExprView::Factorial(Box::new(expr_view(*b))),
        Expression::Group(b) => ExprView::Group(Box::new(expr_view(*b))),
        Expression::Empty => ExprView::Empty,
    }
}

impl View for Expression {
    type V = ExprView;

    open spec fn view(&self) -> ExprView {
        expr_view(*self)
    }
}

/// One top-level unit of execution.
#[derive(Debug)]
pub enum Statement {
    /// A bare expression: evaluated, result discarded.
    Expression(Expression),
    /// `name = expression`: binds a variable.
    Assignment(Vec<u8>, Expression),
    /// `print expression`: evaluates and emits the value.
    Print(Expression),
}

/// The view of a [`Statement`].
pub enum StmtView {
    Expression(ExprView),
    Assignment(Seq<u8>, ExprView),
    Print(ExprView),
}

impl View for Statement {
    type V = StmtView;

    open spec fn view(&self) -> StmtView {
        match self {
            Statement::Expression(e) => StmtView::Expression(expr_view(*e)),
            Statement::Assignment(n, e) => StmtView::Assignment(n@, expr_view(*e)),
            Statement::Print(e) => StmtView::Print(expr_view(*e)),
        }
    }
}

/// The views of a sequence of statements.
pub open spec fn stmt_views(ss: Seq<Statement>) -> Seq<StmtView> {
    ss.map_values(|s: Statement| s@)
}

/// A failure of the parser: parsing stops at the first one.
#[derive(Debug)]
pub enum ParseError {
    /// A token with no grammar rule at its position.
    UnexpectedToken(Token),
    /// The token stream ended where an operand was required.
    UnexpectedEnd,
    /// A parenthesized group without its closing parenthesis.
    UnbalancedParentheses,
}

/// The view of a [`ParseError`].
pub enum ParseErrView {
    UnexpectedToken(TokenView),
    UnexpectedEnd,
    UnbalancedParentheses,
}

impl View for ParseError {
    type V = ParseErrView;

    open spec fn view(&self) -> ParseErrView {
        match self {
            ParseError::UnexpectedToken(t) => ParseErrView::UnexpectedToken(t@),
            ParseError::UnexpectedEnd => ParseErrView::UnexpectedEnd,
            ParseError::UnbalancedParentheses => ParseErrView::UnbalancedParentheses,
        }
    }
}

/// A failure of the evaluator: interpretation stops at the first one,
/// keeping the effects of the statements already executed.
#[derive(Debug)]
pub enum EvalError {
    /// A variable read before any assignment to it, with its name.
    UndefinedVariable(Vec<u8>),
    /// A division whose right operand evaluates to zero, or a negative
    /// power of zero.
    DivisionByZero,
    /// An exponent that is not an exact integer.
    NonIntegerExponent,
    /// A factorial operand that is not an exact integer.
    NonIntegerFactorial,
    /// A factorial operand below zero.
    NegativeFactorial,
    /// An exact result with a component outside the `i64` range.
    Overflow,
}

/// The view of an [`EvalError`].
pub enum EvalErrView {
    UndefinedVariable(Seq<u8>),
    DivisionByZero,
    NonIntegerExponent,
    NonIntegerFactorial,
    NegativeFactorial,
    Overflow,
}

impl View for EvalError {
    type V = EvalErrView;

    open spec fn view(&self) -> EvalErrView {
        match self {
            EvalError::UndefinedVariable(n) => EvalErrView::UndefinedVariable(n@),
            EvalError::DivisionByZero => EvalErrView::DivisionByZero,
            EvalError::NonIntegerExponent => EvalErrView::NonIntegerExponent,
            EvalError::NonIntegerFactorial => EvalErrView::NonIntegerFactorial,
            EvalError::NegativeFactorial => EvalErrView::NegativeFactorial,
            EvalError::Overflow => EvalErrView::Overflow,
        }
    }
}

/// A well-formed token: a numeric literal carries a well-formed rational.
pub open spec fn token_wf(tv: TokenView) -> bool {
    match tv {
        TokenView::Number(r) => r.wf(),
        _ => true,
    }
}

/// Every token of the sequence is well-formed.
pub open spec fn toks_wf(t: Seq<TokenView>) -> bool {
    forall|i: int| 0 <= i < t.len() ==> token_wf(t[i])
}

/// A well-formed expression: every numeric leaf carries a well-formed
/// rational.
pub open spec fn expr_wf(e: ExprView) -> bool
    decreases e,
{
    match e {
        ExprView::Number(r) => r.wf(),
        ExprView::Variable(_) => true,
        ExprView::Empty => true,
        ExprView::Plus(l, r) => expr_wf(*l) && expr_wf(*r),
        ExprView::Minus(l, r) => expr_wf(*l) && expr_wf(*r),
        ExprView::Asterisk(l, r) => expr_wf(*l) && expr_wf(*r),
        ExprView::Slash(l, r) => expr_wf(*l) && expr_wf(*r),
        ExprView::Power(l, r) => expr_wf(*l) && expr_wf(*r),
        ExprView::Factorial(b) => expr_wf(*b),
        ExprView::Group(b) => expr_wf(*b),
    }
}

/// A well-formed statement: its expression is well-formed.
pub open spec fn stmt_wf(s: StmtView) -> bool {
    match s {
        StmtView::Expression(e) => expr_wf(e),
        StmtView::Assignment(_, e) => expr_wf(e),
        StmtView::Print(e) => expr_wf(e),
    }
}

/// Every statement of the sequence is well-formed.
pub open spec fn stmts_wf(ss: Seq<StmtView>) -> bool {
    forall|i: int| 0 <= i < ss.len() ==> stmt_wf(ss[i])
}

/// An owned copy of a token with the same view.
pub fn clone_token(t: &Token) -> (r: Token)
    ensures
        r@ == t@,
{
    match t {
        Token::Number(x) => Token::Number(*x),
        Token::Identifier(n) => Token::Identifier(crate::bytes::clone_bytes(n)),
        Token::Plus => Token::Plus,
        Token::Minus => Token::Minus,
        Token::Star => Token::Star,
        Token::Slash => Token::Slash,
        Token::Power => Token::Power,
        Token::LParen => Token::LParen,
        Token::RParen => Token::RParen,
        Token::Equal => Token::Equal,
        Token::End => Token::End,
        Token::Print => Token::Print,
        Token::Factorial => Token::Factorial,
    }
}

/// Token equality: numeric literals compare by value, identifiers by
/// their bytes, every other variant by its tag.
pub open spec fn spec_token_eq(a: Token, b: Token) -> bool {
    match (a, b) {
        (Token::Number(x), Token::Number(y)) => x.same_value(y),
        (Token::Identifier(x), Token::Identifier(y)) => x@ == y@,
        (Token::Plus, Token::Plus) => true,
        (Token::Minus, Token::Minus) => true,
        (Token::Star, Token::Star) => true,
        (Token::Slash, Token::Slash) => true,
        (Token::Power, Token::Power) => true,
        (Token::LParen, Token::LParen) => true,
        (Token::RParen, Token::RParen) => true,
        (Token::Equal, Token::Equal) => true,
        (Token::End, Token::End) => true,
        (Token::Print, Token::Print) => true,
        (Token::Factorial, Token::Factorial) => true,
        _ => false,
    }
}

impl PartialEq for Token {
    fn eq(&self, other: &Token) -> bool {
        match (self, other) {
            (Token::Number(x), Token::Number(y)) => *x == *y,
            (Token::Identifier(x), Token::Identifier(y)) => bytes_eq(x, y),
            (Token::Plus, Token::Plus) => true,
            (Token::Minus, Token::Minus) => true,
            (Token::Star, Token::Star) => true,
            (Token::Slash, Token::Slash) => true,
            (Token::Power, Token::Power) => true,
            (Token::LParen, Token::LParen) => true,
            (Token::RParen, Token::RParen) => true,
            (Token::Equal, Token::Equal) => true,
            (Token::End, Token::End) => true,
            (Token::Print, Token::Print) => true,
            (Token::Factorial, Token::Factorial) => true,
            _ => false,
        }
    }
}

impl vstd::std_specs::cmp::PartialEqSpecImpl for Token {
    open spec fn obeys_eq_spec() -> bool {
        true
    }

    open spec fn eq_spec(&self, other: &Token) -> bool {
        spec_token_eq(*self, *other)
    }
}

/// Structural equality of expression trees, with numeric leaves compared
/// by value and names by their bytes.
pub open spec fn spec_expr_eq(a: Expression, b: Expression) -> bool
    decreases a,
{
    match (a, b) {
        (Expression::Number(x), Expression::Number(y)) => x.same_value(y),
        (Expression::Variable(x), Expression::Variable(y)) => x@ == y@,
        (Expression::Plus(a1, a2), Expression::Plus(b1, b2)) => spec_expr_eq(*a1, *b1)
            && spec_expr_eq(*a2, *b2),
        (Expression::Minus(a1, a2), Expression::Minus(b1, b2)) => spec_expr_eq(*a1, *b1)
            && spec_expr_eq(*a2, *b2),
        (Expression::Asterisk(a1, a2), Expression::Asterisk(b1, b2)) => spec_expr_eq(*a1, *b1)
            && spec_expr_eq(*a2, *b2),
        (Expression::Slash(a1, a2), Expression::Slash(b1, b2)) => spec_expr_eq(*a1, *b1)
            && spec_expr_eq(*a2, *b2),
        (Expression::Power(a1, a2), Expression::Power(b1, b2)) => spec_expr_eq(*a1, *b1)
            && spec_expr_eq(*a2, *b2),
        (Expression::Factorial(a1), Expression::Factorial(b1)) => spec_expr_eq(*a1, *b1),
        (Expression::Group(a1), Expression::Group(b1)) => spec_expr_eq(*a1, *b1),
        (Expression::Empty, Expression::Empty) => true,
        _ => false,
    }
}

/// Decides [`spec_expr_eq`].
pub fn expr_eq(a: &Expression, b: &Expression) -> (r: bool)
    ensures
        r == spec_expr_eq(*a, *b),
    decreases *a,
{
    match (a, b) {
        (Expression::Number(x), Expression::Number(y)) => *x == *y,
        (Expression::Variable(x), Expression::Variable(y)) => bytes_eq(x, y),
        (Expression::Plus(a1, a2), Expression::Plus(b1, b2)) => expr_eq(a1, b1) && expr_eq(
            a2,
            b2,
        ),
        (Expression::Minus(a1, a2), Expression::Minus(b1, b2)) => expr_eq(a1, b1) && expr_eq(
            a2,
            b2,
        ),
        (Expression::Asterisk(a1, a2), Expression::Asterisk(b1, b2)) => expr_eq(a1, b1)
            && expr_eq(a2, b2),
        (Expression::Slash(a1, a2), Expression::Slash(b1, b2)) => expr_eq(a1, b1) && expr_eq(
            a2,
            b2,
        ),
        (Expression::Power(a1, a2), Expression::Power(b1, b2)) => expr_eq(a1, b1) && expr_eq(
            a2,
            b2,
        ),
        (Expression::Factorial(a1), Expression::Factorial(b1)) => expr_eq(a1, b1),
        (Expression::Group(a1), Expression::Group(b1)) => expr_eq(a1, b1),
        (Expression::Empty, Expression::Empty) => true,
        _ => false,
    }
}

impl PartialEq for Expression {
    fn eq(&self, other: &Expression) -> bool {
        expr_eq(self, other)
    }
}

impl vstd::std_specs::cmp::PartialEqSpecImpl for Expression {
    open spec fn obeys_eq_spec() -> bool {
        true
    }

    open spec fn eq_spec(&self, other: &Expression) -> bool {
        spec_expr_eq(*self, *other)
    }
}

/// Statement equality, component-wise over [`spec_expr_eq`].
pub open spec fn spec_stmt_eq(a: Statement, b: Statement) -> bool {
    match (a, b) {
        (Statement::Expression(x), Statement::Expression(y)) => spec_expr_eq(x, y),
        (Statement::Assignment(n, x), Statement::Assignment(m, y)) => n@ == m@ && spec_expr_eq(
            x,
            y,
        ),
        (Statement::Print(x), Statement::Print(y)) => spec_expr_eq(x, y),
        _ => false,
    }
}

impl PartialEq for Statement {
    fn eq(&self, other: &Statement) -> bool {
        match (self, other) {
            (Statement::Expression(x), Statement::Expression(y)) => expr_eq(x, y),
            (Statement::Assignment(n, x), Statement::Assignment(m, y)) => bytes_eq(n, m)
                && expr_eq(x, y),
            (Statement::Print(x), Statement::Print(y)) => expr_eq(x, y),
            _ => false,
        }
    }
}

impl vstd::std_specs::cmp::PartialEqSpecImpl for Statement {
    open spec fn obeys_eq_spec() -> bool {
        true
    }

    open spec fn eq_spec(&self, other: &Statement) -> bool {
        spec_stmt_eq(*self, *other)
    }
}

} // verus!
