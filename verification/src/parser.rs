//! The recursive-descent parser: consumes a token sequence and builds
//! statement trees.
//!
//! Grammar, lowest precedence first:
//! `expression -> term (('+'|'-') term)*`,
//! `term -> factor (('*'|'/') factor)*`,
//! `factor -> postfix ('^' postfix)*`,
//! `postfix -> value '!'*`,
//! `value -> number | identifier | '(' expression ')'`.
//! Binary operators chain left-associatively. A statement is
//! `identifier '=' expression`, `print expression`, or a bare
//! expression; end-of-statement tokens separate statements.

use crate::bytes::clone_bytes;
use crate::enums::clone_token;
use crate::enums::token_views;
use crate::enums::expr_wf;
use crate::enums::stmt_wf;
use crate::enums::stmts_wf;
use crate::enums::token_wf;
use crate::enums::toks_wf;
use crate::enums::stmt_views;
use crate::enums::Expression;
use crate::enums::ExprView;
use crate::enums::ParseError;
use crate::enums::ParseErrView;
use crate::enums::Statement;
use crate::enums::StmtView;
use crate::enums::Token;
use crate::enums::TokenView;
use vstd::prelude::*;

verus! {

/// Parse the value (a number, a variable, or a parenthesized group) that
/// starts at `i`, returning the expression and the position after it.
pub open spec fn sp_value(t: Seq<TokenView>, i: int) -> Result<(ExprView, int), ParseErrView>
    decreases t.len() - i, 0int,
{
    if !(0 <= i < t.len()) {
        Err(ParseErrView::UnexpectedEnd)
    } else {
        match t[i] {
            TokenView::Number(r) => Ok((ExprView::Number(r), i + 1)),
            TokenView::Identifier(n) => Ok((ExprView::Variable(n), i + 1)),
            TokenView::LParen => match sp_expr(t, i + 1) {
                Err(e) => Err(e),
                Ok((e, j)) => if 0 <= j < t.len() && t[j] == TokenView::RParen {
                    Ok((ExprView::Group(Box::new(e)), j + 1))
                } else {
                    Err(ParseErrView::UnbalancedParentheses)
                },
            },
            _ => Err(ParseErrView::UnexpectedToken(t[i])),
        }
    }
}

/// Wrap `e` in one factorial node per `!` token at or after `i`.
pub open spec fn sp_bangs(t: Seq<TokenView>, i: int, e: ExprView) -> (ExprView, int)
    decreases t.len() - i,
{
    if 0 <= i < t.len() && t[i] == TokenView::Factorial {
        sp_bangs(t, i + 1, ExprView::Factorial(Box::new(e)))
    } else {
        (e, i)
    }
}

/// Parse a value followed by its postfix factorials.
pub open spec fn sp_postfix(t: Seq<TokenView>, i: int) -> Result<(ExprView, int), ParseErrView>
    decreases t.len() - i, 1int,
{
    match sp_value(t, i) {
        Err(e) => Err(e),
        Ok((e, j)) => Ok(sp_bangs(t, j, e)),
    }
}

/// Left-associatively extend `acc` with `'^' postfix` steps from `j` on.
pub open spec fn sp_factor_more(t: Seq<TokenView>, j: int, acc: ExprView) -> Result<
    (ExprView, int),
    ParseErrView,
>
    decreases t.len() - j, 3int,
{
    if 0 <= j < t.len() && t[j] == TokenView::Power {
        match sp_postfix(t, j + 1) {
            Err(e) => Err(e),
            Ok((rhs, k)) => {
                let combined = ExprView::Power(Box::new(acc), Box::new(rhs));
                if j < k <= t.len() {
                    sp_factor_more(t, k, combined)
                } else {
                    Ok((combined, k))
                }
            },
        }
    } else {
        Ok((acc, j))
    }
}

/// Parse a factor: a postfix expression and its `'^'` chain.
pub open spec fn sp_factor(t: Seq<TokenView>, i: int) -> Result<(ExprView, int), ParseErrView>
    decreases t.len() - i, 2int,
{
    match sp_postfix(t, i) {
        Err(e) => Err(e),
        Ok((e, j)) => if i < j <= t.len() {
            sp_factor_more(t, j, e)
        } else {
            Ok((e, j))
        },
    }
}

/// Left-associatively extend `acc` with `('*'|'/') factor` steps from `j`
/// on.
pub open spec fn sp_term_more(t: Seq<TokenView>, j: int, acc: ExprView) -> Result<
    (ExprView, int),
    ParseErrView,
>
    decreases t.len() - j, 5int,
{
    if 0 <= j < t.len() && (t[j] == TokenView::Star || t[j] == TokenView::Slash) {
        match sp_factor(t, j + 1) {
            Err(e) => Err(e),
            Ok((rhs, k)) => {
                let combined = if t[j] == TokenView::Star {
                    ExprView::Asterisk(Box::new(acc), Box::new(rhs))
                } else {
                    ExprView::Slash(Box::new(acc), Box::new(rhs))
                };
                if j < k <= t.len() {
                    sp_term_more(t, k, combined)
                } else {
                    Ok((combined, k))
                }
            },
        }
    } else {
        Ok((acc, j))
    }
}

/// Parse a term: a factor and its `'*'`/`'/'` chain.
pub open spec fn sp_term(t: Seq<TokenView>, i: int) -> Result<(ExprView, int), ParseErrView>
    decreases t.len() - i, 4int,
{
    match sp_factor(t, i) {
        Err(e) => Err(e),
        Ok((e, j)) => if i < j <= t.len() {
            sp_term_more(t, j, e)
        } else {
            Ok((e, j))
        },
    }
}

/// Left-associatively extend `acc` with `('+'|'-') term` steps from `j`
/// on.
pub open spec fn sp_expr_more(t: Seq<TokenView>, j: int, acc: ExprView) -> Result<
    (ExprView, int),
    ParseErrView,
>
    decreases t.len() - j, 7int,
{
    if 0 <= j < t.len() && (t[j] == TokenView::Plus || t[j] == TokenView::Minus) {
        match sp_term(t, j + 1) {
            Err(e) => Err(e),
            Ok((rhs, k)) => {
                let combined = if t[j] == TokenView::Plus {
                    ExprView::Plus(Box::new(acc), Box::new(rhs))
                } else {
                    ExprView::Minus(Box::new(acc), Box::new(rhs))
                };
                if j < k <= t.len() {
                    sp_expr_more(t, k, combined)
                } else {
                    Ok((combined, k))
                }
            },
        }
    } else {
        Ok((acc, j))
    }
}

/// Parse an expression: a term and its `'+'`/`'-'` chain.
pub open spec fn sp_expr(t: Seq<TokenView>, i: int) -> Result<(ExprView, int), ParseErrView>
    decreases t.len() - i, 6int,
{
    match sp_term(t, i) {
        Err(e) => Err(e),
        Ok((e, j)) => if i < j <= t.len() {
            sp_expr_more(t, j, e)
        } else {
            Ok((e, j))
        },
    }
}

/// Parse one statement that starts at `i` (which must hold a token other
/// than end-of-statement).
pub open spec fn sp_statement(t: Seq<TokenView>, i: int) -> Result<(StmtView, int), ParseErrView>
    decreases t.len() - i, 8int,
{
    if !(0 <= i < t.len()) {
        Err(ParseErrView::UnexpectedEnd)
    } else if t[i] == TokenView::Print {
        match sp_expr(t, i + 1) {
            Err(e) => Err(e),
            Ok((e, j)) => Ok((StmtView::Print(e), j)),
        }
    } else {
        let is_assign = t[i] is Identifier && i + 1 < t.len() && t[i + 1] == TokenView::Equal;
        if is_assign {
            match sp_expr(t, i + 2) {
                Err(e) => Err(e),
                Ok((e, j)) => Ok((StmtView::Assignment(t[i]->Identifier_0, e), j)),
            }
        } else {
            match sp_expr(t, i) {
                Err(e) => Err(e),
                Ok((e, j)) => Ok((StmtView::Expression(e), j)),
            }
        }
    }
}

/// Parse the whole token sequence from `i` on into statements.
/// End-of-statement tokens between statements are skipped; each parsed
/// statement must end at an end-of-statement token or at the end of the
/// stream.
pub open spec fn sp_statements(t: Seq<TokenView>, i: int) -> Result<Seq<StmtView>, ParseErrView>
    decreases t.len() - i, 9int,
{
    if !(0 <= i < t.len()) {
        Ok(Seq::empty())
    } else if t[i] == TokenView::End {
        sp_statements(t, i + 1)
    } else {
        match sp_statement(t, i) {
            Err(e) => Err(e),
            Ok((st, j)) => if j >= t.len() {
                Ok(seq![st])
            } else if 0 <= j && t[j] == TokenView::End {
                if i <= j {
                    match sp_statements(t, j + 1) {
                        Err(e) => Err(e),
                        Ok(rest) => Ok(seq![st] + rest),
                    }
                } else {
                    Ok(seq![st])
                }
            } else {
                Err(ParseErrView::UnexpectedToken(t[j]))
            },
        }
    }
}

/// How an executable expression parse relates to its specification.
pub open spec fn expr_result_matches(
    r: Result<Expression, ParseError>,
    s: Result<(ExprView, int), ParseErrView>,
    pos_after: int,
) -> bool {
    match (r, s) {
        (Ok(e), Ok((ev, j))) => e@ == ev && pos_after == j,
        (Err(a), Err(b)) => a@ == b,
        _ => false,
    }
}

/// How an executable statement parse relates to its specification.
pub open spec fn stmt_result_matches(
    r: Result<Statement, ParseError>,
    s: Result<(StmtView, int), ParseErrView>,
    pos_after: int,
) -> bool {
    match (r, s) {
        (Ok(st), Ok((sv, j))) => st@ == sv && pos_after == j,
        (Err(a), Err(b)) => a@ == b,
        _ => false,
    }
}

/// How a whole parse relates to its specification.
pub open spec fn parse_result_matches(
    r: Result<Vec<Statement>, ParseError>,
    s: Result<Seq<StmtView>, ParseErrView>,
) -> bool {
    match (r, s) {
        (Ok(v), Ok(sv)) => stmt_views(v@) == sv,
        (Err(a), Err(b)) => a@ == b,
        _ => false,
    }
}

/// A parsed value is well-formed when the tokens are.
pub proof fn lemma_value_wf(t: Seq<TokenView>, i: int)
    requires
        toks_wf(t),
    ensures
        sp_value(t, i) matches Ok(p) ==> expr_wf(p.0),
    decreases t.len() - i, 0int,
{
    if 0 <= i < t.len() {
        assert(token_wf(t[i]));
        if t[i] is LParen {
            lemma_expr_wf(t, i + 1);
        }
    }
}

/// Factorial wrapping keeps an expression well-formed.
pub proof fn lemma_bangs_wf(t: Seq<TokenView>, i: int, e: ExprView)
    requires
        expr_wf(e),
    ensures
        expr_wf(sp_bangs(t, i, e).0),
    decreases t.len() - i,
{
    if 0 <= i < t.len() && t[i] == TokenView::Factorial {
        lemma_bangs_wf(t, i + 1, ExprView::Factorial(Box::new(e)));
    }
}

/// A parsed postfix expression is well-formed when the tokens are.
pub proof fn lemma_postfix_wf(t: Seq<TokenView>, i: int)
    requires
        toks_wf(t),
    ensures
        sp_postfix(t, i) matches Ok(p) ==> expr_wf(p.0),
    decreases t.len() - i, 1int,
{
    lemma_value_wf(t, i);
    match sp_value(t, i) {
        Err(_) => {},
        Ok((e, j)) => {
            lemma_bangs_wf(t, j, e);
        },
    }
}

/// A `^` chain keeps an expression well-formed.
pub proof fn lemma_factor_more_wf(t: Seq<TokenView>, j: int, acc: ExprView)
    requires
        toks_wf(t),
        expr_wf(acc),
    ensures
        sp_factor_more(t, j, acc) matches Ok(p) ==> expr_wf(p.0),
    decreases t.len() - j, 3int,
{
    if 0 <= j < t.len() && t[j] == TokenView::Power {
        lemma_postfix_wf(t, j + 1);
        match sp_postfix(t, j + 1) {
            Err(_) => {},
            Ok((rhs, k)) => {
                let combined = ExprView::Power(Box::new(acc), Box::new(rhs));
                if j < k <= t.len() {
                    lemma_factor_more_wf(t, k, combined);
                }
            },
        }
    }
}

/// A parsed factor is well-formed when the tokens are.
pub proof fn lemma_factor_wf(t: Seq<TokenView>, i: int)
    requires
        toks_wf(t),
    ensures
        sp_factor(t, i) matches Ok(p) ==> expr_wf(p.0),
    decreases t.len() - i, 2int,
{
    lemma_postfix_wf(t, i);
    match sp_postfix(t, i) {
        Err(_) => {},
        Ok((e, j)) => {
            if i < j <= t.len() {
                lemma_factor_more_wf(t, j, e);
            }
        },
    }
}

/// A `*`/`/` chain keeps an expression well-formed.
pub proof fn lemma_term_more_wf(t: Seq<TokenView>, j: int, acc: ExprView)
    requires
        toks_wf(t),
        expr_wf(acc),
    ensures
        sp_term_more(t, j, acc) matches Ok(p) ==> expr_wf(p.0),
    decreases t.len() - j, 5int,
{
    if 0 <= j < t.len() && (t[j] == TokenView::Star || t[j] == TokenView::Slash) {
        lemma_factor_wf(t, j + 1);
        match sp_factor(t, j + 1) {
            Err(_) => {},
            Ok((rhs, k)) => {
                let combined = if t[j] == TokenView::Star {
                    ExprView::Asterisk(Box::new(acc), Box::new(rhs))
                } else {
                    ExprView::Slash(Box::new(acc), Box::new(rhs))
                };
                if j < k <= t.len() {
                    lemma_term_more_wf(t, k, combined);
                }
            },
        }
    }
}

/// A parsed term is well-formed when the tokens are.
pub proof fn lemma_term_wf(t: Seq<TokenView>, i: int)
    requires
        toks_wf(t),
    ensures
        sp_term(t, i) matches Ok(p) ==> expr_wf(p.0),
    decreases t.len() - i, 4int,
{
    lemma_factor_wf(t, i);
    match sp_factor(t, i) {
        Err(_) => {},
        Ok((e, j)) => {
            if i < j <= t.len() {
                lemma_term_more_wf(t, j, e);
            }
        },
    }
}

/// A `+`/`-` chain keeps an expression well-formed.
pub proof fn lemma_expr_more_wf(t: Seq<TokenView>, j: int, acc: ExprView)
    requires
        toks_wf(t),
        expr_wf(acc),
    ensures
        sp_expr_more(t, j, acc) matches Ok(p) ==> expr_wf(p.0),
    decreases t.len() - j, 7int,
{
    if 0 <= j < t.len() && (t[j] == TokenView::Plus || t[j] == TokenView::Minus) {
        lemma_term_wf(t, j + 1);
        match sp_term(t, j + 1) {
            Err(_) => {},
            Ok((rhs, k)) => {
                let combined = if t[j] == TokenView::Plus {
                    ExprView::Plus(Box::new(acc), Box::new(rhs))
                } else {
                    ExprView::Minus(Box::new(acc), Box::new(rhs))
                };
                if j < k <= t.len() {
                    lemma_expr_more_wf(t, k, combined);
                }
            },
        }
    }
}

/// A parsed expression is well-formed when the tokens are.
pub proof fn lemma_expr_wf(t: Seq<TokenView>, i: int)
    requires
        toks_wf(t),
    ensures
        sp_expr(t, i) matches Ok(p) ==> expr_wf(p.0),
    decreases t.len() - i, 6int,
{
    lemma_term_wf(t, i);
    match sp_term(t, i) {
        Err(_) => {},
        Ok((e, j)) => {
            if i < j <= t.len() {
                lemma_expr_more_wf(t, j, e);
            }
        },
    }
}

/// A parsed statement is well-formed when the tokens are.
pub proof fn lemma_statement_wf(t: Seq<TokenView>, i: int)
    requires
        toks_wf(t),
    ensures
        sp_statement(t, i) matches Ok(p) ==> stmt_wf(p.0),
    decreases t.len() - i, 8int,
{
    if 0 <= i < t.len() {
        if t[i] == TokenView::Print {
            lemma_expr_wf(t, i + 1);
        } else {
            lemma_expr_wf(t, i + 2);
            lemma_expr_wf(t, i);
        }
    }
}

/// Every parsed statement is well-formed when the tokens are.
pub proof fn lemma_statements_wf(t: Seq<TokenView>, i: int)
    requires
        toks_wf(t),
    ensures
        sp_statements(t, i) matches Ok(ss) ==> stmts_wf(ss),
    decreases t.len() - i, 9int,
{
    if !(0 <= i < t.len()) {
    } else if t[i] == TokenView::End {
        lemma_statements_wf(t, i + 1);
    } else {
        lemma_statement_wf(t, i);
        match sp_statement(t, i) {
            Err(_) => {},
            Ok((st, j)) => {
                if j >= t.len() {
                } else if 0 <= j && t[j] == TokenView::End {
                    if i <= j {
                        lemma_statements_wf(t, j + 1);
                        match sp_statements(t, j + 1) {
                            Err(_) => {},
                            Ok(rest) => {
                                let whole = seq![st] + rest;
                                assert forall|m: int| 0 <= m < whole.len() implies stmt_wf(
                                    whole[m],
                                ) by {
                                    if m == 0 {
                                        assert(whole[0] == st);
                                    } else {
                                        assert(whole[m] == rest[m - 1]);
                                    }
                                }
                            },
                        }
                    }
                }
            },
        }
    }
}

fn tok_is_factorial(t: &Token) -> (r: bool)
    ensures
        r == (t@ is Factorial),
{
    matches!(t, Token::Factorial)
}

fn tok_is_power(t: &Token) -> (r: bool)
    ensures
        r == (t@ is Power),
{
    matches!(t, Token::Power)
}

fn tok_is_star(t: &Token) -> (r: bool)
    ensures
        r == (t@ is Star),
{
    matches!(t, Token::Star)
}

fn tok_is_slash(t: &Token) -> (r: bool)
    ensures
        r == (t@ is Slash),
{
    matches!(t, Token::Slash)
}

fn tok_is_plus(t: &Token) -> (r: bool)
    ensures
        r == (t@ is Plus),
{
    matches!(t, Token::Plus)
}

fn tok_is_minus(t: &Token) -> (r: bool)
    ensures
        r == (t@ is Minus),
{
    matches!(t, Token::Minus)
}

fn tok_is_rparen(t: &Token) -> (r: bool)
    ensures
        r == (t@ is RParen),
{
    matches!(t, Token::RParen)
}

fn tok_is_end(t: &Token) -> (r: bool)
    ensures
        r == (t@ is End),
{
    matches!(t, Token::End)
}

fn tok_is_print(t: &Token) -> (r: bool)
    ensures
        r == (t@ is Print),
{
    matches!(t, Token::Print)
}

fn tok_is_equal(t: &Token) -> (r: bool)
    ensures
        r == (t@ is Equal),
{
    matches!(t, Token::Equal)
}

fn tok_is_identifier(t: &Token) -> (r: bool)
    ensures
        r == (t@ is Identifier),
{
    matches!(t, Token::Identifier(_))
}

/// A recursive-descent parser over a token sequence.
pub struct Parser {
    /// The tokens to parse.
    pub tokens: Vec<Token>,
    /// The position of the next token to examine.
    pub pos: usize,
}

impl Parser {
    /// The cursor lies within the token sequence.
    pub open spec fn wf(self) -> bool {
        self.pos <= self.tokens@.len()
    }

    /// The views of the tokens.
    pub open spec fn toks(self) -> Seq<TokenView> {
        token_views(self.tokens@)
    }

    /// A parser at the start of `tokens`.
    pub fn new(tokens: Vec<Token>) -> (r: Parser)
        ensures
            r.wf(),
            r.toks() == token_views(tokens@),
            r.pos == 0,
    {
        Parser { tokens, pos: 0 }
    }

    /// Parse a value: a number, a variable, or a parenthesized group.
    pub fn parse_value(&mut self) -> (r: Result<Expression, ParseError>)
        requires
            old(self).wf(),
        ensures
            final(self).wf(),
            final(self).tokens@ == old(self).tokens@,
            expr_result_matches(r, sp_value(old(self).toks(), old(self).pos as int), final(self).pos as int),
            r is Ok ==> old(self).pos < final(self).pos,
        decreases old(self).tokens@.len() - old(self).pos, 0int,
    {
        let ghost t = self.toks();
        let ghost i = self.pos as int;
        if self.pos >= self.tokens.len() {
            return Err(ParseError::UnexpectedEnd);
        }
        let tok = &self.tokens[self.pos];
        match tok {
            Token::Number(x) => {
                let val = *x;
                self.pos = self.pos + 1;
                Ok(Expression::Number(val))
            },
            Token::Identifier(n) => {
                let name = clone_bytes(n);
                self.pos = self.pos + 1;
                Ok(Expression::Variable(name))
            },
            Token::LParen => {
                self.pos = self.pos + 1;
                match self.parse_expression() {
                    Err(e) => Err(e),
                    Ok(inner) => {
                        if self.pos < self.tokens.len() && tok_is_rparen(
                            &self.tokens[self.pos],
                        ) {
                            self.pos = self.pos + 1;
                            Ok(Expression::Group(Box::new(inner)))
                        } else {
                            Err(ParseError::UnbalancedParentheses)
                        }
                    },
                }
            },
            _ => Err(ParseError::UnexpectedToken(clone_token(tok))),
        }
    }

    /// Parse a value and its postfix factorials.
    pub fn parse_postfix(&mut self) -> (r: Result<Expression, ParseError>)
        requires
            old(self).wf(),
        ensures
            final(self).wf(),
            final(self).tokens@ == old(self).tokens@,
            expr_result_matches(r, sp_postfix(old(self).toks(), old(self).pos as int), final(self).pos as int),
            r is Ok ==> old(self).pos < final(self).pos,
        decreases old(self).tokens@.len() - old(self).pos, 1int,
    {
        let ghost t = self.toks();
        let ghost i = self.pos as int;
        let base = match self.parse_value() {
            Err(e) => {
                return Err(e);
            },
            Ok(e) => e,
        };
        let mut acc = base;
        let ghost j0 = self.pos as int;
        while self.pos < self.tokens.len() && tok_is_factorial(&self.tokens[self.pos])
            invariant
                self.wf(),
                self.tokens@ == old(self).tokens@,
                self.toks() == t,
                old(self).toks() == t,
                old(self).pos == i,
                i < self.pos,
                sp_bangs(t, self.pos as int, acc@) == sp_bangs(t, j0, base@),
            decreases t.len() - self.pos,
        {
            acc = Expression::Factorial(Box::new(acc));
            self.pos = self.pos + 1;
        }
        Ok(acc)
    }

    /// Parse a factor: a postfix expression and its `^` chain.
    pub fn parse_factor(&mut self) -> (r: Result<Expression, ParseError>)
        requires
            old(self).wf(),
        ensures
            final(self).wf(),
            final(self).tokens@ == old(self).tokens@,
            expr_result_matches(r, sp_factor(old(self).toks(), old(self).pos as int), final(self).pos as int),
            r is Ok ==> old(self).pos < final(self).pos,
        decreases old(self).tokens@.len() - old(self).pos, 2int,
    {
        let ghost t = self.toks();
        let ghost i = self.pos as int;
        let first = match self.parse_postfix() {
            Err(e) => {
                return Err(e);
            },
            Ok(e) => e,
        };
        let mut acc = first;
        while self.pos < self.tokens.len() && tok_is_power(&self.tokens[self.pos])
            invariant
                self.wf(),
                self.tokens@ == old(self).tokens@,
                self.toks() == t,
                old(self).toks() == t,
                old(self).pos == i,
                i < self.pos,
                sp_factor_more(t, self.pos as int, acc@) == sp_factor(t, i),
            decreases t.len() - self.pos,
        {
            self.pos = self.pos + 1;
            let rhs = match self.parse_postfix() {
                Err(e) => {
                    return Err(e);
                },
                Ok(e) => e,
            };
            acc = Expression::Power(Box::new(acc), Box::new(rhs));
        }
        Ok(acc)
    }

    /// Parse a term: a factor and its `*`/`/` chain.
    pub fn parse_term(&mut self) -> (r: Result<Expression, ParseError>)
        requires
            old(self).wf(),
        ensures
            final(self).wf(),
            final(self).tokens@ == old(self).tokens@,
            expr_result_matches(r, sp_term(old(self).toks(), old(self).pos as int), final(self).pos as int),
            r is Ok ==> old(self).pos < final(self).pos,
        decreases old(self).tokens@.len() - old(self).pos, 4int,
    {
        let ghost t = self.toks();
        let ghost i = self.pos as int;
        let first = match self.parse_factor() {
            Err(e) => {
                return Err(e);
            },
            Ok(e) => e,
        };
        let mut acc = first;
        while self.pos < self.tokens.len() && (tok_is_star(&self.tokens[self.pos]) || tok_is_slash(
            &self.tokens[self.pos],
        ))
            invariant
                self.wf(),
                self.tokens@ == old(self).tokens@,
                self.toks() == t,
                old(self).toks() == t,
                old(self).pos == i,
                i < self.pos,
                sp_term_more(t, self.pos as int, acc@) == sp_term(t, i),
            decreases t.len() - self.pos,
        {
            let is_star = tok_is_star(&self.tokens[self.pos]);
            self.pos = self.pos + 1;
            let rhs = match self.parse_factor() {
                Err(e) => {
                    return Err(e);
                },
                Ok(e) => e,
            };
            acc = if is_star {
                Expression::Asterisk(Box::new(acc), Box::new(rhs))
            } else {
                Expression::Slash(Box::new(acc), Box::new(rhs))
            };
        }
        Ok(acc)
    }

    /// Parse an expression: a term and its `+`/`-` chain.
    pub fn parse_expression(&mut self) -> (r: Result<Expression, ParseError>)
        requires
            old(self).wf(),
        ensures
            final(self).wf(),
            final(self).tokens@ == old(self).tokens@,
            expr_result_matches(r, sp_expr(old(self).toks(), old(self).pos as int), final(self).pos as int),
            r is Ok ==> old(self).pos < final(self).pos,
        decreases old(self).tokens@.len() - old(self).pos, 6int,
    {
        let ghost t = self.toks();
        let ghost i = self.pos as int;
        let first = match self.parse_term() {
            Err(e) => {
                return Err(e);
            },
            Ok(e) => e,
        };
        let mut acc = first;
        while self.pos < self.tokens.len() && (tok_is_plus(&self.tokens[self.pos]) || tok_is_minus(
            &self.tokens[self.pos],
        ))
            invariant
                self.wf(),
                self.tokens@ == old(self).tokens@,
                self.toks() == t,
                old(self).toks() == t,
                old(self).pos == i,
                i < self.pos,
                sp_expr_more(t, self.pos as int, acc@) == sp_expr(t, i),
            decreases t.len() - self.pos,
        {
            let is_plus = tok_is_plus(&self.tokens[self.pos]);
            self.pos = self.pos + 1;
            let rhs = match self.parse_term() {
                Err(e) => {
                    return Err(e);
                },
                Ok(e) => e,
            };
            acc = if is_plus {
                Expression::Plus(Box::new(acc), Box::new(rhs))
            } else {
                Expression::Minus(Box::new(acc), Box::new(rhs))
            };
        }
        Ok(acc)
    }

    /// Parse one statement: an assignment, a print, or a bare expression.
    pub fn parse_statement(&mut self) -> (r: Result<Statement, ParseError>)
        requires
            old(self).wf(),
        ensures
            final(self).wf(),
            final(self).tokens@ == old(self).tokens@,
            stmt_result_matches(r, sp_statement(old(self).toks(), old(self).pos as int), final(self).pos as int),
            r is Ok ==> old(self).pos < final(self).pos,
        decreases old(self).tokens@.len() - old(self).pos, 8int,
    {
        let ghost t = self.toks();
        let ghost i = self.pos as int;
        if self.pos >= self.tokens.len() {
            return Err(ParseError::UnexpectedEnd);
        }
        if tok_is_print(&self.tokens[self.pos]) {
            self.pos = self.pos + 1;
            match self.parse_expression() {
                Err(e) => Err(e),
                Ok(e) => Ok(Statement::Print(e)),
            }
        } else {
            let is_assign = tok_is_identifier(&self.tokens[self.pos]) && self.pos + 1
                < self.tokens.len() && tok_is_equal(&self.tokens[self.pos + 1]);
            if is_assign {
                let name = match &self.tokens[self.pos] {
                    Token::Identifier(n) => clone_bytes(n),
                    _ => {
                        proof {
                            assert(false);
                        }
                        Vec::new()
                    },
                };
                self.pos = self.pos + 2;
                match self.parse_expression() {
                    Err(e) => Err(e),
                    Ok(e) => Ok(Statement::Assignment(name, e)),
                }
            } else {
                match self.parse_expression() {
                    Err(e) => Err(e),
                    Ok(e) => Ok(Statement::Expression(e)),
                }
            }
        }
    }

    /// Parse the whole token sequence into its statements, or fail on the
    /// first structurally invalid input.
    pub fn parse(&mut self) -> (r: Result<Vec<Statement>, ParseError>)
        requires
            old(self).wf(),
        ensures
            final(self).wf(),
            final(self).tokens@ == old(self).tokens@,
            parse_result_matches(r, sp_statements(old(self).toks(), old(self).pos as int)),
    {
        let ghost t = self.toks();
        let ghost i0 = self.pos as int;
        let mut stmts: Vec<Statement> = Vec::new();
        loop
            invariant
                self.wf(),
                self.tokens@ == old(self).tokens@,
                self.toks() == t,
                old(self).toks() == t,
                old(self).pos == i0,
                i0 <= self.pos,
                match sp_statements(t, self.pos as int) {
                    Ok(rest) => sp_statements(t, i0) == Ok::<Seq<StmtView>, ParseErrView>(
                        stmt_views(stmts@) + rest,
                    ),
                    Err(e) => sp_statements(t, i0) == Err::<Seq<StmtView>, ParseErrView>(e),
                },
            decreases t.len() - self.pos,
        {
            if self.pos >= self.tokens.len() {
                proof {
                    assert(stmt_views(stmts@) + Seq::<StmtView>::empty() =~= stmt_views(stmts@));
                }
                return Ok(stmts);
            }
            if tok_is_end(&self.tokens[self.pos]) {
                self.pos = self.pos + 1;
            } else {
                let ghost p0 = self.pos as int;
                match self.parse_statement() {
                    Err(e) => {
                        return Err(e);
                    },
                    Ok(st) => {
                        proof {
                            assert(stmt_views(stmts@.push(st)) =~= stmt_views(stmts@) + seq![
                                st@,
                            ]);
                        }
                        if self.pos >= self.tokens.len() {
                            stmts.push(st);
                            return Ok(stmts);
                        } else if tok_is_end(&self.tokens[self.pos]) {
                            proof {
                                if sp_statements(t, self.pos as int + 1) is Ok {
                                    let rest = sp_statements(t, self.pos as int + 1)->Ok_0;
                                    assert(stmt_views(stmts@) + (seq![st@] + rest) =~= (stmt_views(
                                        stmts@,
                                    ) + seq![st@]) + rest);
                                }
                            }
                            self.pos = self.pos + 1;
                            stmts.push(st);
                        } else {
                            let e = clone_token(&self.tokens[self.pos]);
                            return Err(ParseError::UnexpectedToken(e));
                        }
                    },
                }
            }
        }
    }
}

} // verus!
