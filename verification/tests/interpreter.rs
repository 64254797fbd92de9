use rlox::ast::{BinaryOp, Expr, Stmt, UnaryOp};
use rlox::environment::Environment;
use rlox::interpreter::{binary, evaluate, execute, fault_message, interpret, unary, Fault, RuntimeError};
use rlox::number::Number;
use rlox::parser::parse;
use rlox::scanner::scan;
use rlox::value::Value;

const LIMIT: u64 = 1000;

fn number(n: i64) -> Value {
    Value::Number(Number { units: n * 1_000_000 })
}

fn text(s: &str) -> Value {
    Value::Str(s.to_string())
}

fn program(source: &str) -> Vec<Stmt> {
    parse(&scan(source).unwrap()).unwrap()
}

fn value_of(source: &str) -> Result<Value, RuntimeError> {
    let mut statements = program(&format!("{};", source));
    let e = match statements.remove(0) {
        Stmt::Expression(e) => e,
        other => panic!("expected an expression, got {:?}", other),
    };
    let mut env = Environment::new();
    let scope = env.new_scope(None);
    evaluate(&e, &mut env, scope)
}

fn printed(source: &str) -> (Vec<String>, Result<(), Vec<RuntimeError>>) {
    let statements = program(source);
    let mut env = Environment::new();
    let scope = env.new_scope(None);
    let mut output: Vec<String> = Vec::new();
    let result = interpret(&statements, &mut env, scope, LIMIT, &mut output);
    assert_eq!(env.len(), 1);
    (output, result)
}

fn lines(source: &str) -> Vec<String> {
    let (output, result) = printed(source);
    assert_eq!(result, Ok(()));
    output
}

fn messages(source: &str) -> Vec<String> {
    let (_, result) = printed(source);
    result.unwrap_err().into_iter().map(|e| e.message).collect()
}

#[test]
fn one_plus_two_is_three() {
    assert_eq!(value_of("1 + 2"), Ok(number(3)));
}

#[test]
fn strings_concatenate() {
    assert_eq!(value_of("\"a\" + \"b\""), Ok(text("ab")));
}

#[test]
fn number_plus_string_joins_their_texts() {
    assert_eq!(value_of("1 + \"b\""), Ok(text("1b")));
    assert_eq!(value_of("\"a\" + 2.5"), Ok(text("a2.5")));
    assert_eq!(value_of("\"a\" + nil"), Ok(text("anil")));
    assert_eq!(value_of("true + \"!\""), Ok(text("true!")));
    assert_eq!(value_of("\"\" + false"), Ok(text("false")));
}

#[test]
fn plus_without_number_pair_or_string_fails() {
    let err = value_of("1 + nil").unwrap_err();
    assert_eq!(err.message, "Operands must be two numbers or include a string.");
    assert_eq!(err.line, 1);
    assert_eq!(
        err.expr,
        Expr::Binary {
            left: Box::new(Expr::Literal(number(1))),
            op: BinaryOp::Add,
            line: 1,
            right: Box::new(Expr::Literal(Value::Nil))
        }
    );
    assert!(value_of("true + false").is_err());
    assert!(value_of("nil + nil").is_err());
}

#[test]
fn nil_is_not_equal_to_false() {
    assert_eq!(value_of("nil == false"), Ok(Value::Bool(false)));
    assert_eq!(value_of("nil != false"), Ok(Value::Bool(true)));
}

#[test]
fn equality_across_types_is_false_and_never_fails() {
    assert_eq!(value_of("1 == \"1\""), Ok(Value::Bool(false)));
    assert_eq!(value_of("0 == false"), Ok(Value::Bool(false)));
    assert_eq!(value_of("\"\" == nil"), Ok(Value::Bool(false)));
    assert_eq!(value_of("\"true\" == true"), Ok(Value::Bool(false)));
    assert_eq!(value_of("1 != \"1\""), Ok(Value::Bool(true)));
}

#[test]
fn equality_within_a_type_compares_values() {
    assert_eq!(value_of("1 == 1"), Ok(Value::Bool(true)));
    assert_eq!(value_of("1.5 == 1.50"), Ok(Value::Bool(true)));
    assert_eq!(value_of("1 == 2"), Ok(Value::Bool(false)));
    assert_eq!(value_of("\"a\" == \"a\""), Ok(Value::Bool(true)));
    assert_eq!(value_of("\"a\" == \"b\""), Ok(Value::Bool(false)));
    assert_eq!(value_of("nil == nil"), Ok(Value::Bool(true)));
    assert_eq!(value_of("true == true"), Ok(Value::Bool(true)));
    assert_eq!(value_of("true != false"), Ok(Value::Bool(true)));
}

#[test]
fn zero_is_truthy() {
    assert_eq!(lines("if (0) print 1; else print 2;"), vec!["1"]);
}

#[test]
fn only_nil_and_false_are_falsey() {
    assert_eq!(lines("if (nil) print 1; else print 2;"), vec!["2"]);
    assert_eq!(lines("if (false) print 1; else print 2;"), vec!["2"]);
    assert_eq!(lines("if (true) print 1; else print 2;"), vec!["1"]);
    assert_eq!(lines("if (\"\") print 1; else print 2;"), vec!["1"]);
    assert_eq!(lines("if (\"false\") print 1; else print 2;"), vec!["1"]);
    assert_eq!(lines("if (0.0) print 1; else print 2;"), vec!["1"]);
    assert!(!Value::Nil.is_truthy());
    assert!(!Value::Bool(false).is_truthy());
    assert!(Value::Bool(true).is_truthy());
    assert!(number(0).is_truthy());
    assert!(text("").is_truthy());
}

#[test]
fn arithmetic_on_numbers() {
    assert_eq!(value_of("7 - 10"), Ok(number(-3)));
    assert_eq!(value_of("1.5 * 4"), Ok(number(6)));
    assert_eq!(value_of("7 / 2"), Ok(Value::Number(Number { units: 3_500_000 })));
    assert_eq!(value_of("1 / 3"), Ok(Value::Number(Number { units: 333_333 })));
    assert_eq!(value_of("1 + 2 * 3"), Ok(number(7)));
    assert_eq!(value_of("(1 + 2) * 3"), Ok(number(9)));
    assert_eq!(value_of("-(1 + 2)"), Ok(number(-3)));
}

#[test]
fn arithmetic_on_other_values_fails() {
    for source in ["1 - \"a\"", "nil * 2", "true / 1", "\"a\" - \"b\"", "\"a\" * 2"] {
        let err = value_of(source).unwrap_err();
        assert_eq!(err.message, "Operands must be numbers.");
    }
}

#[test]
fn comparison_wants_numbers() {
    assert_eq!(value_of("1 < 2"), Ok(Value::Bool(true)));
    assert_eq!(value_of("2 <= 2"), Ok(Value::Bool(true)));
    assert_eq!(value_of("1 > 2"), Ok(Value::Bool(false)));
    assert_eq!(value_of("2 >= 3"), Ok(Value::Bool(false)));
    for source in ["1 < \"2\"", "\"a\" < \"b\"", "nil >= 1", "true <= false", "1 > nil"] {
        let err = value_of(source).unwrap_err();
        assert_eq!(err.message, "Operands must be numbers.");
    }
}

#[test]
fn division_by_zero_is_a_runtime_error() {
    let err = value_of("1 / 0").unwrap_err();
    assert_eq!(err.message, "Division by zero.");
    assert_eq!(value_of("0 / 0").unwrap_err().message, "Division by zero.");
}

#[test]
fn results_out_of_range_are_runtime_errors() {
    let err = value_of("9000000000000 + 9000000000000").unwrap_err();
    assert_eq!(err.message, "Number out of range.");
    assert_eq!(value_of("9000000000000 * 9000000000000").unwrap_err().message, "Number out of range.");
    assert_eq!(value_of("9000000000000 / 0.000001").unwrap_err().message, "Number out of range.");
    assert_eq!(value_of("-9000000000000 - 9000000000000").unwrap_err().message, "Number out of range.");
}

#[test]
fn unary_operators() {
    assert_eq!(value_of("-3"), Ok(number(-3)));
    assert_eq!(value_of("--3"), Ok(number(3)));
    assert_eq!(value_of("!true"), Ok(Value::Bool(false)));
    assert_eq!(value_of("!nil"), Ok(Value::Bool(true)));
    assert_eq!(value_of("!0"), Ok(Value::Bool(false)));
    assert_eq!(value_of("!\"\""), Ok(Value::Bool(false)));
    let err = value_of("-\"a\"").unwrap_err();
    assert_eq!(err.message, "Operand must be a number.");
    assert_eq!(
        err.expr,
        Expr::Unary { op: UnaryOp::Negate, line: 1, right: Box::new(Expr::Literal(text("a"))) }
    );
}

#[test]
fn logical_operators_give_an_operand() {
    assert_eq!(value_of("nil or 2"), Ok(number(2)));
    assert_eq!(value_of("1 or 2"), Ok(number(1)));
    assert_eq!(value_of("nil and 2"), Ok(Value::Nil));
    assert_eq!(value_of("1 and 2"), Ok(number(2)));
    assert_eq!(value_of("false or false"), Ok(Value::Bool(false)));
}

#[test]
fn logical_operators_short_circuit() {
    assert_eq!(value_of("true or missing"), Ok(Value::Bool(true)));
    assert_eq!(value_of("false and missing"), Ok(Value::Bool(false)));
    assert!(value_of("false or missing").is_err());
    assert!(value_of("true and missing").is_err());
}

#[test]
fn undefined_variable_is_a_runtime_error() {
    let err = value_of("\n\nmissing").unwrap_err();
    assert_eq!(err.message, "Undefined variable 'missing'.");
    assert_eq!(err.line, 3);
    assert_eq!(err.expr, Expr::Variable { name: "missing".to_string(), line: 3 });
    let err = value_of("missing = 1").unwrap_err();
    assert_eq!(err.message, "Undefined variable 'missing'.");
}

#[test]
fn operands_are_evaluated_left_to_right() {
    assert_eq!(value_of("a + (1 / 0)").unwrap_err().message, "Undefined variable 'a'.");
    assert_eq!(value_of("(1 / 0) + a").unwrap_err().message, "Division by zero.");
}

#[test]
fn print_uses_the_text_of_the_value() {
    assert_eq!(
        lines("print 1; print 1.50; print -0.25; print \"hi\"; print nil; print true; print false; print 1 / 3;"),
        vec!["1", "1.5", "-0.25", "hi", "nil", "true", "false", "0.333333"]
    );
}

#[test]
fn variables_hold_values() {
    assert_eq!(lines("var a = 1; var b; print a; print b; a = a + 1; print a;"), vec!["1", "nil", "2"]);
    assert_eq!(lines("var a = 1; print a = 5; print a;"), vec!["5", "5"]);
    assert_eq!(lines("var a = 1; var a = 2; print a;"), vec!["2"]);
}

#[test]
fn blocks_have_their_own_scope() {
    assert_eq!(
        lines("var a = 1; { var a = 2; print a; { var a = 3; print a; } print a; } print a;"),
        vec!["2", "3", "2", "1"]
    );
    assert_eq!(lines("var a = 1; { a = 2; var b = 3; } print a;"), vec!["2"]);
    assert_eq!(messages("{ var b = 3; } print b;"), vec!["Undefined variable 'b'."]);
}

#[test]
fn a_failing_block_is_left_and_its_scope_discarded() {
    let (output, result) = printed("{ var a = 1; print a; print missing; print 2; } print 3;");
    assert_eq!(output, vec!["1", "3"]);
    assert_eq!(result.unwrap_err().len(), 1);
}

#[test]
fn if_runs_one_branch() {
    assert_eq!(lines("if (1 < 2) print \"yes\"; else print \"no\";"), vec!["yes"]);
    assert_eq!(lines("if (1 > 2) print \"yes\"; else print \"no\";"), vec!["no"]);
    assert_eq!(lines("if (1 > 2) print \"yes\"; print \"after\";"), vec!["after"]);
    assert_eq!(messages("if (missing) print 1; else print 2;"), vec!["Undefined variable 'missing'."]);
}

#[test]
fn while_repeats_until_the_condition_is_falsey() {
    assert_eq!(
        lines("var i = 0; while (i < 3) { print i; i = i + 1; } print \"done\";"),
        vec!["0", "1", "2", "done"]
    );
    assert_eq!(lines("while (false) print 1;"), Vec::<String>::new());
    assert_eq!(lines("var n = 3; var f = 1; while (n > 1) { f = f * n; n = n - 1; } print f;"), vec!["6"]);
}

#[test]
fn while_stops_at_a_failing_body() {
    let (output, result) = printed("var i = 0; while (true) { print i; i = i + 1; if (i == 2) missing; }");
    assert_eq!(output, vec!["0", "1"]);
    assert_eq!(result.unwrap_err().len(), 1);
}

#[test]
fn a_loop_that_exceeds_the_limit_fails() {
    let statements = program("var i = 0;\nwhile (i >= 0) i = i + 1;\nprint i;");
    let mut env = Environment::new();
    let scope = env.new_scope(None);
    let mut output: Vec<String> = Vec::new();
    let errors = interpret(&statements, &mut env, scope, 5, &mut output).unwrap_err();
    assert_eq!(errors.len(), 1);
    assert_eq!(errors[0].message, "Loop exceeded the iteration limit.");
    assert_eq!(errors[0].line, 2);
    assert_eq!(output, vec!["5"]);
}

#[test]
fn a_loop_may_run_for_exactly_the_limit() {
    let statements = program("var i = 0; while (i < 5) i = i + 1; print i;");
    let mut env = Environment::new();
    let scope = env.new_scope(None);
    let mut output: Vec<String> = Vec::new();
    assert_eq!(interpret(&statements, &mut env, scope, 5, &mut output), Ok(()));
    assert_eq!(output, vec!["5"]);
    let mut output: Vec<String> = Vec::new();
    let scope = env.new_scope(None);
    assert!(interpret(&statements, &mut env, scope, 4, &mut output).is_err());
}

#[test]
fn the_limit_holds_for_each_loop_on_its_own() {
    let statements = program(
        "var n = 0; var i = 0; while (i < 3) { var j = 0; while (j < 3) { j = j + 1; n = n + 1; } i = i + 1; } print n;",
    );
    let mut env = Environment::new();
    let scope = env.new_scope(None);
    let mut output: Vec<String> = Vec::new();
    assert_eq!(interpret(&statements, &mut env, scope, 3, &mut output), Ok(()));
    assert_eq!(output, vec!["9"]);
}

#[test]
fn runtime_errors_accumulate_across_statements() {
    let (output, result) = printed("print 1;\nprint 1 / 0;\nprint 2;\nprint -nil;\nprint 3;");
    assert_eq!(output, vec!["1", "2", "3"]);
    let errors = result.unwrap_err();
    assert_eq!(errors.len(), 2);
    assert_eq!(errors[0].message, "Division by zero.");
    assert_eq!(errors[0].line, 2);
    assert_eq!(errors[1].message, "Operand must be a number.");
    assert_eq!(errors[1].line, 4);
}

#[test]
fn an_assignment_before_a_failure_is_kept() {
    let (output, result) = printed("var a = 1; (a = 2) + nil; print a;");
    assert_eq!(output, vec!["2"]);
    assert_eq!(result.unwrap_err().len(), 1);
}

#[test]
fn a_failed_initializer_defines_nothing() {
    assert_eq!(
        messages("var a = missing; print a;"),
        vec!["Undefined variable 'missing'.", "Undefined variable 'a'."]
    );
}

#[test]
fn empty_program_does_nothing() {
    assert_eq!(lines(""), Vec::<String>::new());
}

#[test]
fn execute_runs_one_statement() {
    let mut env = Environment::new();
    let scope = env.new_scope(None);
    let mut output: Vec<String> = vec!["before".to_string()];
    let s = Stmt::Print(Expr::Literal(text("x")));
    assert_eq!(execute(&s, &mut env, scope, LIMIT, &mut output), Ok(()));
    assert_eq!(output, vec!["before", "x"]);
}

#[test]
fn operators_apply_to_values() {
    assert_eq!(binary(BinaryOp::Add, &number(1), &number(2)), Ok(number(3)));
    assert_eq!(binary(BinaryOp::Add, &text("a"), &number(2)), Ok(text("a2")));
    assert_eq!(binary(BinaryOp::Add, &Value::Nil, &Value::Nil), Err(Fault::OperandsNotAddable));
    assert_eq!(binary(BinaryOp::Subtract, &number(1), &text("a")), Err(Fault::OperandsNotNumbers));
    assert_eq!(binary(BinaryOp::Divide, &number(1), &number(0)), Err(Fault::DivisionByZero));
    assert_eq!(
        binary(
            BinaryOp::Multiply,
            &Value::Number(Number { units: i64::MAX }),
            &number(2)
        ),
        Err(Fault::OutOfRange)
    );
    assert_eq!(binary(BinaryOp::LessEqual, &number(2), &number(2)), Ok(Value::Bool(true)));
    assert_eq!(binary(BinaryOp::Equal, &Value::Nil, &Value::Bool(false)), Ok(Value::Bool(false)));
    assert_eq!(unary(UnaryOp::Negate, &Value::Nil), Err(Fault::OperandNotNumber));
    assert_eq!(
        unary(UnaryOp::Negate, &Value::Number(Number { units: i64::MIN })),
        Err(Fault::OutOfRange)
    );
    assert_eq!(unary(UnaryOp::Not, &Value::Nil), Ok(Value::Bool(true)));
}

#[test]
fn every_fault_has_its_message() {
    assert_eq!(fault_message(Fault::OperandNotNumber), "Operand must be a number.");
    assert_eq!(fault_message(Fault::OperandsNotNumbers), "Operands must be numbers.");
    assert_eq!(
        fault_message(Fault::OperandsNotAddable),
        "Operands must be two numbers or include a string."
    );
    assert_eq!(fault_message(Fault::DivisionByZero), "Division by zero.");
    assert_eq!(fault_message(Fault::OutOfRange), "Number out of range.");
    assert_eq!(fault_message(Fault::LoopLimit), "Loop exceeded the iteration limit.");
}
