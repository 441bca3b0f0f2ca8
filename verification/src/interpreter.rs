//! The tree-walking evaluator: runs statements in order against a
//! mutable variable environment and collects printed values.
//!
//! Arithmetic is exact over rationals. Division by zero, a non-integer
//! exponent or factorial operand, a negative factorial operand, an
//! undefined variable, and a result outside the `i64` range are
//! evaluation errors; the first error halts the run and the effects of
//! the statements already executed are kept.

use crate::bytes::bytes_eq;
use crate::bytes::clone_bytes;
use crate::enums::expr_wf;
use crate::enums::stmt_views;
use crate::enums::stmt_wf;
use crate::enums::stmts_wf;
use crate::enums::EvalErrView;
use crate::enums::EvalError;
use crate::enums::ExprView;
use crate::enums::Expression;
use crate::enums::Statement;
use crate::enums::StmtView;
use crate::rat::abs_i;
use crate::rat::fact_i64;
use crate::rat::spec_add;
use crate::rat::spec_div;
use crate::rat::spec_fact;
use crate::rat::spec_mul;
use crate::rat::spec_pow;
use crate::rat::spec_recip;
use crate::rat::spec_sub;
use crate::rat::Rat;
use vstd::prelude::*;

verus! {

/// The mapping an entry list denotes: later entries shadow earlier ones.
pub open spec fn env_map(es: Seq<(Vec<u8>, Rat)>) -> Map<Seq<u8>, Rat>
    decreases es.len(),
{
    if es.len() == 0 {
        Map::empty()
    } else {
        env_map(es.drop_last()).insert(es.last().0@, es.last().1)
    }
}

/// The variable environment: an ordered record of assignments whose view
/// maps each name to its latest value.
pub struct Env {
    /// The assignments, in the order they were made.
    pub entries: Vec<(Vec<u8>, Rat)>,
}

impl View for Env {
    type V = Map<Seq<u8>, Rat>;

    open spec fn view(&self) -> Map<Seq<u8>, Rat> {
        env_map(self.entries@)
    }
}

impl Env {
    /// Every stored value is a well-formed rational.
    pub open spec fn wf(self) -> bool {
        forall|i: int| 0 <= i < self.entries@.len() ==> (#[trigger] self.entries@[i].1).wf()
    }

    /// An empty environment.
    pub fn new() -> (r: Env)
        ensures
            r@ == Map::<Seq<u8>, Rat>::empty(),
            r.wf(),
    {
        Env { entries: Vec::new() }
    }

    /// The current value bound to `name`, if any.
    pub fn get(&self, name: &Vec<u8>) -> (r: Option<Rat>)
        requires
            self.wf(),
        ensures
            match r {
                Some(v) => self@.contains_key(name@) && self@[name@] == v && v.wf(),
                None => !self@.contains_key(name@),
            },
    {
        let ghost es = self.entries@;
        proof {
            assert(es.take(es.len() as int) =~= es);
        }
        let mut idx: usize = self.entries.len();
        while idx > 0
            invariant
                idx <= es.len(),
                es == self.entries@,
                self.wf(),
                env_map(es).contains_key(name@) == env_map(es.take(idx as int)).contains_key(
                    name@,
                ),
                env_map(es).contains_key(name@) ==> env_map(es)[name@] == env_map(
                    es.take(idx as int),
                )[name@],
            decreases idx,
        {
            let ghost pfx = es.take(idx as int);
            proof {
                assert(pfx.drop_last() =~= es.take(idx as int - 1));
                assert(pfx.last() == es[idx as int - 1]);
            }
            let ent = &self.entries[idx - 1];
            if bytes_eq(&ent.0, name) {
                return Some(ent.1);
            }
            idx = idx - 1;
        }
        proof {
            assert(es.take(0) =~= Seq::<(Vec<u8>, Rat)>::empty());
        }
        None
    }

    /// Bind `name` to `value`, shadowing any earlier binding.
    pub fn set(&mut self, name: Vec<u8>, value: Rat)
        requires
            old(self).wf(),
            value.wf(),
        ensures
            final(self).wf(),
            final(self)@ == old(self)@.insert(name@, value),
    {
        let ghost es0 = self.entries@;
        let ghost n = name@;
        self.entries.push((name, value));
        proof {
            assert(self.entries@.drop_last() =~= es0);
            assert(self.entries@.last().0@ == n);
        }
    }
}

/// Lift a checked arithmetic result into an evaluation outcome.
pub open spec fn lift_arith(o: Option<Rat>) -> Result<Rat, EvalErrView> {
    match o {
        Some(c) => Ok(c),
        None => Err(EvalErrView::Overflow),
    }
}

/// The value of raising `a` to the power `b`: the exponent must be an
/// exact integer; a negative exponent inverts a non-zero base.
pub open spec fn spec_power_value(a: Rat, b: Rat) -> Result<Rat, EvalErrView> {
    if abs_i(b.num as int) % (b.den as int) != 0 {
        Err(EvalErrView::NonIntegerExponent)
    } else if b.num >= 0 {
        lift_arith(spec_pow(a, (b.num as int / b.den as int) as nat))
    } else if a.num == 0 {
        Err(EvalErrView::DivisionByZero)
    } else {
        match spec_recip(a) {
            None => Err(EvalErrView::Overflow),
            Some(ra) => lift_arith(spec_pow(ra, (abs_i(b.num as int) / b.den as int) as nat)),
        }
    }
}

/// The value of `v!`: the operand must be an exact non-negative integer,
/// and the mathematical factorial must fit in an `i64`.
pub open spec fn spec_fact_value(v: Rat) -> Result<Rat, EvalErrView> {
    if abs_i(v.num as int) % (v.den as int) != 0 {
        Err(EvalErrView::NonIntegerFactorial)
    } else if v.num < 0 {
        Err(EvalErrView::NegativeFactorial)
    } else {
        let k = (v.num as int / v.den as int) as nat;
        if spec_fact(k) <= i64::MAX as int {
            Ok(Rat { num: spec_fact(k) as i64, den: 1 })
        } else {
            Err(EvalErrView::Overflow)
        }
    }
}

/// The value of an expression in an environment, or the first evaluation
/// error; the left operand of a binary operator is evaluated first.
pub open spec fn spec_eval(e: ExprView, env: Map<Seq<u8>, Rat>) -> Result<Rat, EvalErrView>
    decreases e,
{
    match e {
        ExprView::Number(r) => Ok(r),
        ExprView::Variable(n) => if env.contains_key(n) {
            Ok(env[n])
        } else {
            Err(EvalErrView::UndefinedVariable(n))
        },
        ExprView::Plus(l, r) => match spec_eval(*l, env) {
            Err(er) => Err(er),
            Ok(a) => match spec_eval(*r, env) {
                Err(er) => Err(er),
                Ok(b) => lift_arith(spec_add(a, b)),
            },
        },
        ExprView::Minus(l, r) => match spec_eval(*l, env) {
            Err(er) => Err(er),
            Ok(a) => match spec_eval(*r, env) {
                Err(er) => Err(er),
                Ok(b) => lift_arith(spec_sub(a, b)),
            },
        },
        ExprView::Asterisk(l, r) => match spec_eval(*l, env) {
            Err(er) => Err(er),
            Ok(a) => match spec_eval(*r, env) {
                Err(er) => Err(er),
                Ok(b) => lift_arith(spec_mul(a, b)),
            },
        },
        ExprView::Slash(l, r) => match spec_eval(*l, env) {
            Err(er) => Err(er),
            Ok(a) => match spec_eval(*r, env) {
                Err(er) => Err(er),
                Ok(b) => if b.num == 0 {
                    Err(EvalErrView::DivisionByZero)
                } else {
                    lift_arith(spec_div(a, b))
                },
            },
        },
        ExprView::Power(l, r) => match spec_eval(*l, env) {
            Err(er) => Err(er),
            Ok(a) => match spec_eval(*r, env) {
                Err(er) => Err(er),
                Ok(b) => spec_power_value(a, b),
            },
        },
        ExprView::Factorial(b) => match spec_eval(*b, env) {
            Err(er) => Err(er),
            Ok(v) => spec_fact_value(v),
        },
        ExprView::Group(b) => spec_eval(*b, env),
        ExprView::Empty => Ok(Rat { num: 0, den: 1 }),
    }
}

/// How an executable evaluation relates to its specification.
pub open spec fn eval_result_matches(
    r: Result<Rat, EvalError>,
    s: Result<Rat, EvalErrView>,
) -> bool {
    match (r, s) {
        (Ok(a), Ok(b)) => a == b,
        (Err(e1), Err(e2)) => e1@ == e2,
        _ => false,
    }
}

/// Run one statement: the environment, the output list, and the error if
/// the statement failed.
pub open spec fn spec_step(st: StmtView, env: Map<Seq<u8>, Rat>, out: Seq<Rat>) -> (
    Map<Seq<u8>, Rat>,
    Seq<Rat>,
    Option<EvalErrView>,
) {
    match st {
        StmtView::Expression(e) => match spec_eval(e, env) {
            Ok(_) => (env, out, None),
            Err(er) => (env, out, Some(er)),
        },
        StmtView::Assignment(n, e) => match spec_eval(e, env) {
            Ok(v) => (env.insert(n, v), out, None),
            Err(er) => (env, out, Some(er)),
        },
        StmtView::Print(e) => match spec_eval(e, env) {
            Ok(v) => (env, out.push(v), None),
            Err(er) => (env, out, Some(er)),
        },
    }
}

/// Run statements in order until the first error: the final environment,
/// the printed values, and the error if one occurred. Effects of the
/// statements before the error are kept.
pub open spec fn spec_run(ss: Seq<StmtView>, env: Map<Seq<u8>, Rat>, out: Seq<Rat>) -> (
    Map<Seq<u8>, Rat>,
    Seq<Rat>,
    Option<EvalErrView>,
)
    decreases ss.len(),
{
    if ss.len() == 0 {
        (env, out, None)
    } else {
        let step = spec_step(ss[0], env, out);
        if step.2 is Some {
            step
        } else {
            spec_run(ss.subrange(1, ss.len() as int), step.0, step.1)
        }
    }
}

/// The interpreter: a variable environment and the values printed so
/// far. One instance may be threaded through several `interpret` calls
/// to persist variables across them.
pub struct Interpreter {
    /// The variable bindings.
    pub variables: Env,
    /// The values emitted by `print`, in order.
    pub outputs: Vec<Rat>,
}

impl Interpreter {
    /// The environment holds only well-formed values.
    pub open spec fn wf(self) -> bool {
        self.variables.wf()
    }

    /// A fresh interpreter: no bindings, no output.
    pub fn new() -> (r: Interpreter)
        ensures
            r.wf(),
            r.variables@ == Map::<Seq<u8>, Rat>::empty(),
            r.outputs@ == Seq::<Rat>::empty(),
    {
        Interpreter { variables: Env::new(), outputs: Vec::new() }
    }

    /// Evaluate one expression against the current environment.
    pub fn evaluate_expression(&self, expression: &Expression) -> (r: Result<Rat, EvalError>)
        requires
            self.wf(),
            expr_wf(expression@),
        ensures
            eval_result_matches(r, spec_eval(expression@, self.variables@)),
            r matches Ok(v) ==> v.wf(),
        decreases *expression,
    {
        match expression {
            Expression::Number(x) => Ok(*x),
            Expression::Variable(n) => match self.variables.get(n) {
                Some(v) => Ok(v),
                None => Err(EvalError::UndefinedVariable(clone_bytes(n))),
            },
            Expression::Plus(l, r2) => {
                let a = self.evaluate_expression(l)?;
                let b = self.evaluate_expression(r2)?;
                match a.add(b) {
                    Some(c) => Ok(c),
                    None => Err(EvalError::Overflow),
                }
            },
            Expression::Minus(l, r2) => {
                let a = self.evaluate_expression(l)?;
                let b = self.evaluate_expression(r2)?;
                match a.sub(b) {
                    Some(c) => Ok(c),
                    None => Err(EvalError::Overflow),
                }
            },
            Expression::Asterisk(l, r2) => {
                let a = self.evaluate_expression(l)?;
                let b = self.evaluate_expression(r2)?;
                match a.mul(b) {
                    Some(c) => Ok(c),
                    None => Err(EvalError::Overflow),
                }
            },
            Expression::Slash(l, r2) => {
                let a = self.evaluate_expression(l)?;
                let b = self.evaluate_expression(r2)?;
                if b.num == 0 {
                    Err(EvalError::DivisionByZero)
                } else {
                    match a.div(b) {
                        Some(c) => Ok(c),
                        None => Err(EvalError::Overflow),
                    }
                }
            },
            Expression::Power(l, r2) => {
                let a = self.evaluate_expression(l)?;
                let b = self.evaluate_expression(r2)?;
                match b.as_integer() {
                    None => Err(EvalError::NonIntegerExponent),
                    Some((neg, mag)) => {
                        proof {
                            vstd::arithmetic::div_mod::lemma_div_by_multiple(
                                mag as int,
                                b.den as int,
                            );
                        }
                        if !neg {
                            match a.pow(mag) {
                                Some(c) => Ok(c),
                                None => Err(EvalError::Overflow),
                            }
                        } else if a.num == 0 {
                            Err(EvalError::DivisionByZero)
                        } else {
                            match a.recip() {
                                None => Err(EvalError::Overflow),
                                Some(ra) => match ra.pow(mag) {
                                    Some(c) => Ok(c),
                                    None => Err(EvalError::Overflow),
                                },
                            }
                        }
                    },
                }
            },
            Expression::Factorial(b) => {
                let v = self.evaluate_expression(b)?;
                match v.as_integer() {
                    None => Err(EvalError::NonIntegerFactorial),
                    Some((neg, mag)) => {
                        proof {
                            vstd::arithmetic::div_mod::lemma_div_by_multiple(
                                mag as int,
                                v.den as int,
                            );
                        }
                        if neg {
                            Err(EvalError::NegativeFactorial)
                        } else {
                            match fact_i64(mag) {
                                Some(f) => Ok(Rat::from_int(f)),
                                None => Err(EvalError::Overflow),
                            }
                        }
                    },
                }
            },
            Expression::Group(b) => self.evaluate_expression(b),
            Expression::Empty => Ok(Rat::from_int(0)),
        }
    }

    /// Run statements in order, binding variables and collecting printed
    /// values; the first evaluation error halts the run, and the effects
    /// of the statements already executed are kept.
    pub fn interpret(&mut self, statements: &Vec<Statement>) -> (r: Result<(), EvalError>)
        requires
            old(self).wf(),
            stmts_wf(stmt_views(statements@)),
        ensures
            final(self).wf(),
            ({
                let outcome = spec_run(
                    stmt_views(statements@),
                    old(self).variables@,
                    old(self).outputs@,
                );
                final(self).variables@ == outcome.0 && final(self).outputs@ == outcome.1
                    && (match (r, outcome.2) {
                    (Ok(u), None) => u == (),
                    (Err(e), Some(ev)) => e@ == ev,
                    _ => false,
                })
            }),
    {
        let ghost views = stmt_views(statements@);
        let ghost env0 = self.variables@;
        let ghost out0 = self.outputs@;
        proof {
            assert(views.subrange(0, views.len() as int) =~= views);
        }
        let mut idx: usize = 0;
        while idx < statements.len()
            invariant
                self.wf(),
                idx <= statements@.len(),
                views == stmt_views(statements@),
                stmts_wf(views),
                old(self).variables@ == env0,
                old(self).outputs@ == out0,
                spec_run(views, env0, out0) == spec_run(
                    views.subrange(idx as int, views.len() as int),
                    self.variables@,
                    self.outputs@,
                ),
            decreases statements@.len() - idx,
        {
            let ghost rest = views.subrange(idx as int, views.len() as int);
            proof {
                assert(rest[0] == views[idx as int]);
                assert(rest.subrange(1, rest.len() as int) =~= views.subrange(
                    idx as int + 1,
                    views.len() as int,
                ));
                assert(stmt_wf(views[idx as int]));
            }
            let st = &statements[idx];
            match st {
                Statement::Expression(e) => {
                    match self.evaluate_expression(e) {
                        Ok(_) => {},
                        Err(er) => {
                            return Err(er);
                        },
                    }
                },
                Statement::Assignment(n, e) => {
                    match self.evaluate_expression(e) {
                        Ok(v) => {
                            let name = clone_bytes(n);
                            self.variables.set(name, v);
                        },
                        Err(er) => {
                            return Err(er);
                        },
                    }
                },
                Statement::Print(e) => {
                    match self.evaluate_expression(e) {
                        Ok(v) => {
                            self.outputs.push(v);
                        },
                        Err(er) => {
                            return Err(er);
                        },
                    }
                },
            }
            idx = idx + 1;
        }
        proof {
            assert(views.subrange(views.len() as int, views.len() as int)
                =~= Seq::<StmtView>::empty());
        }
        Ok(())
    }
}

/// A failure of any stage of the pipeline.
#[derive(Debug)]
pub enum RunError {
    Lex(crate::enums::LexError),
    Parse(crate::enums::ParseError),
    Eval(EvalError),
}

/// The view of a [`RunError`].
pub enum RunErrView {
    Lex(crate::enums::LexError),
    Parse(crate::enums::ParseErrView),
    Eval(EvalErrView),
}

impl View for RunError {
    type V = RunErrView;

    open spec fn view(&self) -> RunErrView {
        match self {
            RunError::Lex(e) => RunErrView::Lex(*e),
            RunError::Parse(e) => RunErrView::Parse(e@),
            RunError::Eval(e) => RunErrView::Eval(e@),
        }
    }
}

/// The outcome of running a whole source text from an empty environment:
/// the final bindings, the printed values, and the first error of any
/// stage, if one occurred.
pub open spec fn spec_run_source(s: Seq<u8>) -> (
    Map<Seq<u8>, Rat>,
    Seq<Rat>,
    Option<RunErrView>,
) {
    match crate::lexer::spec_lex(s, 0) {
        Err(le) => (Map::empty(), Seq::empty(), Some(RunErrView::Lex(le))),
        Ok(tvs) => match crate::parser::sp_statements(tvs, 0) {
            Err(pe) => (Map::empty(), Seq::empty(), Some(RunErrView::Parse(pe))),
            Ok(svs) => {
                let o = spec_run(svs, Map::empty(), Seq::empty());
                (
                    o.0,
                    o.1,
                    match o.2 {
                        None => None,
                        Some(ev) => Some(RunErrView::Eval(ev)),
                    },
                )
            },
        },
    }
}

/// Lex, parse and interpret a whole source text from an empty
/// environment. The returned interpreter holds the bindings and printed
/// values of the statements that ran, also when a later one failed.
pub fn run(source: &Vec<u8>) -> (r: (Interpreter, Option<RunError>))
    ensures
        r.0.wf(),
        ({
            let o = spec_run_source(source@);
            r.0.variables@ == o.0 && r.0.outputs@ == o.1 && (match (r.1, o.2) {
                (None, None) => true,
                (Some(e), Some(ev)) => e@ == ev,
                _ => false,
            })
        }),
{
    let toks = match crate::lexer::lex(source) {
        Err(le) => {
            return (Interpreter::new(), Some(RunError::Lex(le)));
        },
        Ok(ts) => ts,
    };
    proof {
        crate::lexer::lemma_lex_wf(source@, 0);
    }
    let mut parser = crate::parser::Parser::new(toks);
    let stmts = match parser.parse() {
        Err(pe) => {
            return (Interpreter::new(), Some(RunError::Parse(pe)));
        },
        Ok(ss) => ss,
    };
    proof {
        crate::parser::lemma_statements_wf(parser.toks(), 0);
    }
    let mut interp = Interpreter::new();
    match interp.interpret(&stmts) {
        Ok(_) => (interp, None),
        Err(ee) => (interp, Some(RunError::Eval(ee))),
    }
}

} // verus!
