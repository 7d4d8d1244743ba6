use minilang::evaluator::Evaluator;
use minilang::interpreter::interpret;
use minilang::lexer::Lexer;
use minilang::parser::Parser;
use minilang::utils::{EvalError, Type, Value};

fn run(source: &str) -> (String, Result<(), EvalError>) {
    let r = interpret(source.to_string(), vec![], true);
    (r.output, r.result)
}

fn run_with_input(source: &str, lines: &[&str], closed: bool) -> (String, Result<(), EvalError>) {
    let lines = lines.iter().map(|l| l.to_string()).collect();
    let r = interpret(source.to_string(), lines, closed);
    (r.output, r.result)
}

#[test]
fn undeclared_assignment_fails() {
    let (_, result) = run("x := 1;");
    assert_eq!(result, Err(EvalError::VariableNotInitialized("x".to_string())));
}

#[test]
fn mismatched_initializer_fails_at_evaluation() {
    let source = "var x : int := \"a\";";
    let lexer = Lexer::new(source.to_string());
    let mut parser = Parser::new(lexer);
    let program = parser.parse_program();
    assert!(parser.get_errors().is_empty());
    let mut evaluator = Evaluator::new(program);
    assert_eq!(evaluator.evaluate_program(), Err(EvalError::MismatchedTypes));
}

#[test]
fn for_loop_prints_inclusive_range() {
    let (output, result) = run("var i : int; for i in 1..3 do print i; end for;");
    assert_eq!(result, Ok(()));
    assert_eq!(output, "123");
}

#[test]
fn binary_chain_evaluates_right_nested() {
    let (output, result) = run("print 1 + 2 - 3;");
    assert_eq!(result, Ok(()));
    assert_eq!(output, "0");
    let (output, _) = run("print 10 - 4 - 3;");
    assert_eq!(output, "9");
}

#[test]
fn failed_assert_does_not_abort() {
    let (output, result) = run("assert (false); print 1;");
    assert_eq!(result, Ok(()));
    assert_eq!(output, "Assertion failed: false\n1");
}

#[test]
fn assert_message_renders_expression() {
    let (output, _) = run("var x : int := 2; assert (x = 3);");
    assert_eq!(output, "Assertion failed: (x = 3)\n");
}

#[test]
fn empty_range_runs_no_iteration() {
    let (output, result) = run("var i : int; for i in 3..1 do print i; end for; print i;");
    assert_eq!(output, "");
    assert_eq!(result, Err(EvalError::VariableNotInitialized("i".to_string())));
}

#[test]
fn loop_variable_must_be_declared_integer() {
    assert_eq!(run("for i in 1..2 do print i; end for;").1, Err(EvalError::VariableNotInitialized("i".to_string())));
    assert_eq!(run("var i : bool; for i in 1..2 do print i; end for;").1, Err(EvalError::MismatchedTypes));
    assert_eq!(run("var i : int; for i in true..2 do print i; end for;").1, Err(EvalError::MismatchedTypes));
}

#[test]
fn nested_loops_and_accumulation() {
    let source = "var i : int; var j : int; var s : int := 0;
        for i in 1..3 do for j in 1..i do s := s + j; end for; end for; print s;";
    let (output, result) = run(source);
    assert_eq!(result, Ok(()));
    assert_eq!(output, "10");
}

#[test]
fn arithmetic_and_comparisons() {
    assert_eq!(run("print 7 / 2;").0, "3");
    assert_eq!(run("var a : int := 0 - 7; print a / 2;").0, "-3");
    assert_eq!(run("print 6 * 7;").0, "42");
    assert_eq!(run("print 3 < 4;").0, "true");
    assert_eq!(run("print 3 > 4;").0, "false");
    assert_eq!(run("print 3 = 3;").0, "true");
    assert_eq!(run("print false < true;").0, "true");
    assert_eq!(run("print true & false;").0, "false");
    assert_eq!(run("print !false;").0, "true");
    assert_eq!(run("print \"ab\" + \"cd\";").0, "abcd");
    assert_eq!(run("print \"ab\" < \"b\";").0, "true");
    assert_eq!(run("print \"ab\" > \"abc\";").0, "false");
    assert_eq!(run("print \"ab\" = \"ab\";").0, "true");
}

#[test]
fn each_runtime_error_kind() {
    assert_eq!(run("print 1 + true;").1, Err(EvalError::MismatchedTypes));
    assert_eq!(run("print 1 & 2;").1, Err(EvalError::UnsupportedOperation));
    assert_eq!(run("print \"a\" - \"b\";").1, Err(EvalError::UnsupportedOperation));
    assert_eq!(run("print true + true;").1, Err(EvalError::UnsupportedOperation));
    assert_eq!(run("print !1;").1, Err(EvalError::MismatchedTypes));
    assert_eq!(run("var x : int; print x;").1, Err(EvalError::VariableNotInitialized("x".to_string())));
    assert_eq!(run("var x : int; var x : bool;").1, Err(EvalError::VariableAlreadyInitialized("x".to_string())));
    assert_eq!(run("var x : int := 1; var x : int := 2;").1, Err(EvalError::VariableAlreadyInitialized("x".to_string())));
    assert_eq!(run("print 1;;").1, Err(EvalError::SyntaxError));
    assert_eq!(run("print 1 / 0;").1, Err(EvalError::DivisionByZero));
    assert_eq!(run("print 2147483647 + 1;").1, Err(EvalError::IntegerOverflow));
    assert_eq!(run("var m : int := 0 - 2147483647 - 1;").1, Ok(()));
    assert_eq!(run("var m : int := (0 - 2147483647) - 1; print m / (0 - 1);").1, Err(EvalError::IntegerOverflow));
    assert_eq!(run("print 65536 * 65536;").1, Err(EvalError::IntegerOverflow));
    assert_eq!(run("assert (1);").1, Err(EvalError::MismatchedTypes));
    assert_eq!(run("var x : int; x := \"s\";").1, Err(EvalError::MismatchedTypes));
}

#[test]
fn first_error_stops_the_run() {
    let (output, result) = run("print 1; print 1 / 0; print 2;");
    assert_eq!(output, "1");
    assert_eq!(result, Err(EvalError::DivisionByZero));
}

#[test]
fn read_statements() {
    let source = "var n : int; var s : string; read n; read s; print n + 1; print s;";
    let (output, result) = run_with_input(source, &["  41 \n", "word\n"], false);
    assert_eq!(result, Ok(()));
    assert_eq!(output, "42word\n");
    let (_, result) = run_with_input("var n : int; read n;", &["4x\n"], false);
    assert_eq!(result, Err(EvalError::MismatchedTypes));
    let (output, result) = run_with_input("var n : int; read n; print n;", &["-2147483648\n"], false);
    assert_eq!(result, Ok(()));
    assert_eq!(output, "-2147483648");
    let (_, result) = run_with_input("var b : bool; read b;", &["true\n"], false);
    assert_eq!(result, Err(EvalError::MismatchedTypes));
    let (_, result) = run_with_input("var n : int; read n;", &[], false);
    assert_eq!(result, Err(EvalError::InputExhausted));
    let (output, result) = run_with_input("var s : string; read s; print s; print 1;", &[], true);
    assert_eq!(result, Ok(()));
    assert_eq!(output, "1");
    assert_eq!(run("read q;").1, Err(EvalError::VariableNotInitialized("q".to_string())));
    let (output, result) = run_with_input("var n : int; read n; print n;", &["\u{3000}+7\u{00A0}\r\n"], false);
    assert_eq!(result, Ok(()));
    assert_eq!(output, "7");
}

#[test]
fn values_and_messages() {
    assert_eq!(Value::Integer(-5).to_string(), "-5");
    assert_eq!(Value::Bool(true).to_string(), "true");
    assert_eq!(Value::String("x y".to_string()).to_string(), "x y");
    assert_eq!(Type::Integer.to_string(), "int");
    assert_eq!(EvalError::MismatchedTypes.to_string(), "Failed with Error: Mismatched types");
    assert_eq!(
        EvalError::VariableNotInitialized("v".to_string()).to_string(),
        "Failed with Error: Variable v not initialized"
    );
}

#[test]
fn syntax_errors_prevent_the_run() {
    let r = interpret("print 1; print (2;".to_string(), vec![], true);
    assert_eq!(r.syntax_errors.len(), 1);
    assert_eq!(r.output, "");
    assert_eq!(r.result, Err(EvalError::SyntaxError));
}
