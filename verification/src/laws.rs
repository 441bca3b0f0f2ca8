//! Laws of the pipeline, stated and proved over the specification
//! functions that the executable contracts are pinned to.

use crate::enums::ExprView;
use crate::enums::ParseError;
use crate::enums::ParseErrView;
use crate::enums::Statement;
use crate::enums::StmtView;
use crate::enums::TokenView;
use crate::enums::stmt_views;
use crate::interpreter::lift_arith;
use crate::interpreter::spec_eval;
use crate::lexer::dot_count;
use crate::lexer::is_digit;
use crate::lexer::is_num_char;
use crate::lexer::lit_den;
use crate::lexer::lit_num;
use crate::lexer::num_run_end;
use crate::lexer::spec_lex;
use crate::lexer::valid_number_run;
use crate::parser::parse_result_matches;
use crate::parser::sp_statements;
use crate::rat::spec_add;
use crate::rat::spec_div;
use crate::rat::spec_mul;
use crate::rat::spec_sub;
use crate::rat::Rat;
use vstd::prelude::*;

verus! {

proof fn lemma_num_run_all(s: Seq<u8>, i: int)
    requires
        0 <= i <= s.len(),
        forall|m: int| 0 <= m < s.len() ==> is_num_char(s[m]),
    ensures
        num_run_end(s, i) == s.len(),
    decreases s.len() - i,
{
    if i < s.len() {
        lemma_num_run_all(s, i + 1);
    }
}

/// Lexing a well-formed numeric literal that fits the machine yields
/// exactly one number token, equal to the literal's value.
pub proof fn lemma_lex_number_literal(s: Seq<u8>)
    requires
        s.len() > 0,
        forall|m: int| 0 <= m < s.len() ==> is_num_char(s[m]),
        is_digit(s[0]),
        is_digit(s[s.len() - 1]),
        dot_count(s) <= 1,
        lit_num(s) <= i64::MAX as int,
        lit_den(s) <= i64::MAX as int,
    ensures
        spec_lex(s, 0) == Ok::<Seq<TokenView>, crate::enums::LexError>(
            seq![TokenView::Number(Rat { num: lit_num(s) as i64, den: lit_den(s) as i64 })],
        ),
{
    lemma_num_run_all(s, 0);
    assert(s.subrange(0, s.len() as int) =~= s);
    assert(valid_number_run(s));
    let tv = TokenView::Number(Rat { num: lit_num(s) as i64, den: lit_den(s) as i64 });
    assert(crate::lexer::spec_next_token(s, 0) == Ok::<Option<(TokenView, int)>,
        crate::enums::LexError>(Some((tv, s.len() as int))));
    assert(spec_lex(s, s.len() as int) == Ok::<Seq<TokenView>, crate::enums::LexError>(
        Seq::empty(),
    ));
    assert(seq![tv] + Seq::<TokenView>::empty() =~= seq![tv]);
}

/// Parsing `a op b` for a binary operator and evaluating the tree yields
/// the same result as applying the operator to `a` and `b` directly.
pub proof fn lemma_binary_round_trip(a: Rat, b: Rat, op: TokenView, env: Map<Seq<u8>, Rat>)
    requires
        a.wf(),
        b.wf(),
        op == TokenView::Plus || op == TokenView::Minus || op == TokenView::Star || op
            == TokenView::Slash,
    ensures
        ({
            let toks = seq![TokenView::Number(a), op, TokenView::Number(b)];
            let node = if op == TokenView::Plus {
                ExprView::Plus(Box::new(ExprView::Number(a)), Box::new(ExprView::Number(b)))
            } else if op == TokenView::Minus {
                ExprView::Minus(Box::new(ExprView::Number(a)), Box::new(ExprView::Number(b)))
            } else if op == TokenView::Star {
                ExprView::Asterisk(Box::new(ExprView::Number(a)), Box::new(ExprView::Number(b)))
            } else {
                ExprView::Slash(Box::new(ExprView::Number(a)), Box::new(ExprView::Number(b)))
            };
            sp_statements(toks, 0) == Ok::<Seq<StmtView>, ParseErrView>(
                seq![StmtView::Expression(node)],
            ) && spec_eval(node, env) == (if op == TokenView::Plus {
                lift_arith(spec_add(a, b))
            } else if op == TokenView::Minus {
                lift_arith(spec_sub(a, b))
            } else if op == TokenView::Star {
                lift_arith(spec_mul(a, b))
            } else if b.num == 0 {
                Err::<Rat, crate::enums::EvalErrView>(crate::enums::EvalErrView::DivisionByZero)
            } else {
                lift_arith(spec_div(a, b))
            })
        }),
{
    let toks = seq![TokenView::Number(a), op, TokenView::Number(b)];
    assert(crate::parser::sp_value(toks, 0) == Ok::<(ExprView, int), ParseErrView>((
        ExprView::Number(a),
        1,
    )));
    assert(crate::parser::sp_value(toks, 2) == Ok::<(ExprView, int), ParseErrView>((
        ExprView::Number(b),
        3,
    )));
    assert(crate::parser::sp_postfix(toks, 0) == Ok::<(ExprView, int), ParseErrView>((
        ExprView::Number(a),
        1,
    )));
    assert(crate::parser::sp_postfix(toks, 2) == Ok::<(ExprView, int), ParseErrView>((
        ExprView::Number(b),
        3,
    )));
    assert(crate::parser::sp_factor(toks, 0) == Ok::<(ExprView, int), ParseErrView>((
        ExprView::Number(a),
        1,
    )));
    assert(crate::parser::sp_factor(toks, 2) == Ok::<(ExprView, int), ParseErrView>((
        ExprView::Number(b),
        3,
    )));
    assert(crate::parser::sp_term(toks, 2) == Ok::<(ExprView, int), ParseErrView>((
        ExprView::Number(b),
        3,
    )));
    assert(spec_eval(ExprView::Number(a), env) == Ok::<Rat, crate::enums::EvalErrView>(a));
    assert(spec_eval(ExprView::Number(b), env) == Ok::<Rat, crate::enums::EvalErrView>(b));
}

/// Chained `+`/`-` operators parse left-associatively: `a op1 b op2 c`
/// parses as `(a op1 b) op2 c`.
pub proof fn lemma_left_associative(a: Rat, b: Rat, c: Rat, op1: TokenView, op2: TokenView)
    requires
        op1 == TokenView::Plus || op1 == TokenView::Minus,
        op2 == TokenView::Plus || op2 == TokenView::Minus,
    ensures
        ({
            let toks = seq![
                TokenView::Number(a),
                op1,
                TokenView::Number(b),
                op2,
                TokenView::Number(c),
            ];
            let inner = if op1 == TokenView::Plus {
                ExprView::Plus(Box::new(ExprView::Number(a)), Box::new(ExprView::Number(b)))
            } else {
                ExprView::Minus(Box::new(ExprView::Number(a)), Box::new(ExprView::Number(b)))
            };
            let outer = if op2 == TokenView::Plus {
                ExprView::Plus(Box::new(inner), Box::new(ExprView::Number(c)))
            } else {
                ExprView::Minus(Box::new(inner), Box::new(ExprView::Number(c)))
            };
            sp_statements(toks, 0) == Ok::<Seq<StmtView>, ParseErrView>(
                seq![StmtView::Expression(outer)],
            )
        }),
{
    let toks = seq![TokenView::Number(a), op1, TokenView::Number(b), op2, TokenView::Number(c)];
    assert(crate::parser::sp_value(toks, 0) == Ok::<(ExprView, int), ParseErrView>((
        ExprView::Number(a),
        1,
    )));
    assert(crate::parser::sp_value(toks, 2) == Ok::<(ExprView, int), ParseErrView>((
        ExprView::Number(b),
        3,
    )));
    assert(crate::parser::sp_value(toks, 4) == Ok::<(ExprView, int), ParseErrView>((
        ExprView::Number(c),
        5,
    )));
    assert(crate::parser::sp_term(toks, 0) == Ok::<(ExprView, int), ParseErrView>((
        ExprView::Number(a),
        1,
    )));
    assert(crate::parser::sp_term(toks, 2) == Ok::<(ExprView, int), ParseErrView>((
        ExprView::Number(b),
        3,
    )));
    assert(crate::parser::sp_term(toks, 4) == Ok::<(ExprView, int), ParseErrView>((
        ExprView::Number(c),
        5,
    )));
}

/// `*` binds tighter than `+`: `a + b * c` parses as `a + (b * c)`.
pub proof fn lemma_precedence(a: Rat, b: Rat, c: Rat)
    ensures
        ({
            let toks = seq![
                TokenView::Number(a),
                TokenView::Plus,
                TokenView::Number(b),
                TokenView::Star,
                TokenView::Number(c),
            ];
            let prod = ExprView::Asterisk(
                Box::new(ExprView::Number(b)),
                Box::new(ExprView::Number(c)),
            );
            let sum = ExprView::Plus(Box::new(ExprView::Number(a)), Box::new(prod));
            sp_statements(toks, 0) == Ok::<Seq<StmtView>, ParseErrView>(
                seq![StmtView::Expression(sum)],
            )
        }),
{
    let toks = seq![
        TokenView::Number(a),
        TokenView::Plus,
        TokenView::Number(b),
        TokenView::Star,
        TokenView::Number(c),
    ];
    assert(crate::parser::sp_value(toks, 0) == Ok::<(ExprView, int), ParseErrView>((
        ExprView::Number(a),
        1,
    )));
    assert(crate::parser::sp_value(toks, 2) == Ok::<(ExprView, int), ParseErrView>((
        ExprView::Number(b),
        3,
    )));
    assert(crate::parser::sp_value(toks, 4) == Ok::<(ExprView, int), ParseErrView>((
        ExprView::Number(c),
        5,
    )));
    assert(crate::parser::sp_factor(toks, 2) == Ok::<(ExprView, int), ParseErrView>((
        ExprView::Number(b),
        3,
    )));
    assert(crate::parser::sp_factor(toks, 4) == Ok::<(ExprView, int), ParseErrView>((
        ExprView::Number(c),
        5,
    )));
}

/// A variable with no binding evaluates to the undefined-variable error
/// naming it, never to a default value.
pub proof fn lemma_undefined_variable(n: Seq<u8>, env: Map<Seq<u8>, Rat>)
    requires
        !env.contains_key(n),
    ensures
        spec_eval(ExprView::Variable(n), env) == Err::<Rat, crate::enums::EvalErrView>(
            crate::enums::EvalErrView::UndefinedVariable(n),
        ),
{
}

/// A group that is never closed is a parse error, whatever stands inside
/// it: the parser does not silently close it.
pub proof fn lemma_unclosed_group(a: Rat, b: Rat)
    ensures
        sp_statements(
            seq![TokenView::LParen, TokenView::Number(a), TokenView::Plus, TokenView::Number(b)],
            0,
        ) == Err::<Seq<StmtView>, ParseErrView>(ParseErrView::UnbalancedParentheses),
{
    let toks = seq![TokenView::LParen, TokenView::Number(a), TokenView::Plus, TokenView::Number(
        b,
    )];
    assert(crate::parser::sp_value(toks, 1) == Ok::<(ExprView, int), ParseErrView>((
        ExprView::Number(a),
        2,
    )));
    assert(crate::parser::sp_value(toks, 3) == Ok::<(ExprView, int), ParseErrView>((
        ExprView::Number(b),
        4,
    )));
    assert(crate::parser::sp_term(toks, 1) == Ok::<(ExprView, int), ParseErrView>((
        ExprView::Number(a),
        2,
    )));
    assert(crate::parser::sp_term(toks, 3) == Ok::<(ExprView, int), ParseErrView>((
        ExprView::Number(b),
        4,
    )));
    assert(crate::parser::sp_expr(toks, 1) is Ok);
}

/// Parsing is deterministic: two parses of the same token sequence yield
/// structurally equal statement trees, or the same error.
pub proof fn lemma_parse_deterministic(
    t: Seq<TokenView>,
    r1: Result<Vec<Statement>, ParseError>,
    r2: Result<Vec<Statement>, ParseError>,
)
    requires
        parse_result_matches(r1, sp_statements(t, 0)),
        parse_result_matches(r2, sp_statements(t, 0)),
    ensures
        r1 is Ok <==> r2 is Ok,
        r1 is Ok ==> stmt_views(r1->Ok_0@) == stmt_views(r2->Ok_0@),
        r1 is Err ==> r1->Err_0@ == r2->Err_0@,
{
}

} // verus!
