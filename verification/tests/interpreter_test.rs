use rustic::enums::EvalError;
use rustic::interpreter::{run, Interpreter, RunError};
use rustic::lexer::lex;
use rustic::parser::Parser;
use rustic::rat::Rat;

fn run_source(source: &[u8]) -> (Interpreter, Option<RunError>) {
    run(&source.to_vec())
}

#[test]
fn test_interpreter() {
    let tokens = lex(&b"a = 1 + 2 * 3 - 4 / 5".to_vec()).unwrap();
    let mut parser = Parser::new(tokens);
    let statements = parser.parse().unwrap();
    let mut interpreter = Interpreter::new();
    interpreter.interpret(&statements).unwrap();
    // 1 + 2 * 3 - 4 / 5 = 7 - 4/5 = 31/5
    assert_eq!(
        interpreter.variables.get(&b"a".to_vec()),
        Some(Rat::new(31, 5))
    );
}

#[test]
fn test_interpreter_print() {
    let tokens = lex(&b"print 1".to_vec()).unwrap();
    let mut parser = Parser::new(tokens);
    let statements = parser.parse().unwrap();
    let mut interpreter = Interpreter::new();
    interpreter.interpret(&statements).unwrap();
    assert_eq!(interpreter.variables.get(&b"a".to_vec()), None);
    assert_eq!(interpreter.outputs, vec![Rat::new(1, 1)]);
}

#[test]
fn test_interpreter_factorial() {
    let tokens = lex(&b"a = 5!".to_vec()).unwrap();
    let mut parser = Parser::new(tokens);
    let statements = parser.parse().unwrap();
    let mut interpreter = Interpreter::new();
    interpreter.interpret(&statements).unwrap();
    assert_eq!(
        interpreter.variables.get(&b"a".to_vec()),
        Some(Rat::new(120, 1))
    );
}

#[test]
fn test_left_associativity_of_subtraction() {
    let (interp, err) = run_source(b"print 10 - 2 - 3");
    assert!(err.is_none());
    assert_eq!(interp.outputs, vec![Rat::new(5, 1)]);
}

#[test]
fn test_precedence_of_multiplication() {
    let (interp, err) = run_source(b"print 2 + 3 * 4");
    assert!(err.is_none());
    assert_eq!(interp.outputs, vec![Rat::new(14, 1)]);
}

#[test]
fn test_precedence_of_grouping() {
    let (interp, err) = run_source(b"print (2 + 3) * 4");
    assert!(err.is_none());
    assert_eq!(interp.outputs, vec![Rat::new(20, 1)]);
}

#[test]
fn test_assignment_then_reference() {
    let (interp, err) = run_source(b"a = 7\nb = a + 1\nprint b");
    assert!(err.is_none());
    assert_eq!(interp.outputs, vec![Rat::new(8, 1)]);
    assert_eq!(interp.variables.get(&b"a".to_vec()), Some(Rat::new(7, 1)));
    assert_eq!(interp.variables.get(&b"b".to_vec()), Some(Rat::new(8, 1)));
}

#[test]
fn test_undefined_variable() {
    let (interp, err) = run_source(b"print x");
    assert!(matches!(
        err,
        Some(RunError::Eval(EvalError::UndefinedVariable(_)))
    ));
    assert!(interp.outputs.is_empty());
}

#[test]
fn test_factorial_of_five_and_zero() {
    let (interp, err) = run_source(b"print 5!\nprint 0!");
    assert!(err.is_none());
    assert_eq!(interp.outputs, vec![Rat::new(120, 1), Rat::new(1, 1)]);
}

#[test]
fn test_division_by_zero() {
    let (_, err) = run_source(b"print 1 / 0");
    assert!(matches!(err, Some(RunError::Eval(EvalError::DivisionByZero))));
}

#[test]
fn test_overflow_is_reported() {
    let (_, err) = run_source(b"print 9000000000000000000 + 9000000000000000000");
    assert!(matches!(err, Some(RunError::Eval(EvalError::Overflow))));
}

#[test]
fn test_non_integer_exponent() {
    let (_, err) = run_source(b"print 2 ^ 1.5");
    assert!(matches!(
        err,
        Some(RunError::Eval(EvalError::NonIntegerExponent))
    ));
}

#[test]
fn test_non_integer_factorial() {
    let (_, err) = run_source(b"print 1.5!");
    assert!(matches!(
        err,
        Some(RunError::Eval(EvalError::NonIntegerFactorial))
    ));
}

#[test]
fn test_negative_factorial() {
    let (_, err) = run_source(b"print (0 - 3)!");
    assert!(matches!(
        err,
        Some(RunError::Eval(EvalError::NegativeFactorial))
    ));
}

#[test]
fn test_power_values() {
    let (interp, err) = run_source(b"print 2 ^ 3\nprint 2 ^ 0\nprint 2 ^ (0 - 2)");
    assert!(err.is_none());
    assert_eq!(
        interp.outputs,
        vec![Rat::new(8, 1), Rat::new(1, 1), Rat::new(1, 4)]
    );
}

#[test]
fn test_decimal_arithmetic_is_exact() {
    let (interp, err) = run_source(b"print 0.1 + 0.2");
    assert!(err.is_none());
    assert_eq!(interp.outputs, vec![Rat::new(3, 10)]);
}

#[test]
fn test_effects_before_error_are_kept() {
    let (interp, err) = run_source(b"a = 1\nprint a\nprint b\na = 2");
    assert!(matches!(
        err,
        Some(RunError::Eval(EvalError::UndefinedVariable(_)))
    ));
    assert_eq!(interp.outputs, vec![Rat::new(1, 1)]);
    assert_eq!(interp.variables.get(&b"a".to_vec()), Some(Rat::new(1, 1)));
}

#[test]
fn test_group_evaluates_to_inner_value() {
    let (interp, err) = run_source(b"print (7)");
    assert!(err.is_none());
    assert_eq!(interp.outputs, vec![Rat::new(7, 1)]);
}

#[test]
fn test_environment_persists_across_interpret_calls() {
    let mut interpreter = Interpreter::new();
    let first = Parser::new(lex(&b"a = 41".to_vec()).unwrap()).parse().unwrap();
    interpreter.interpret(&first).unwrap();
    let second = Parser::new(lex(&b"print a + 1".to_vec()).unwrap())
        .parse()
        .unwrap();
    interpreter.interpret(&second).unwrap();
    assert_eq!(interpreter.outputs, vec![Rat::new(42, 1)]);
}
