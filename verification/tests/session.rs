use rlox::environment::Environment;
use rlox::number::Number;
use rlox::value::Value;
use rlox::{error, report, run, LoxError};

const LIMIT: u64 = 1000;

#[test]
fn second_input_sees_what_the_first_defined() {
    let mut env = Environment::new();
    let globals = env.new_scope(None);
    let first = run("var x = 1;", &mut env, globals, LIMIT);
    assert_eq!(first.result, Ok(()));
    assert!(first.output.is_empty());
    let second = run("print x;", &mut env, globals, LIMIT);
    assert_eq!(second.result, Ok(()));
    assert_eq!(second.output, vec!["1"]);
    assert!(second.diagnostics.is_empty());
}

#[test]
fn a_fresh_environment_does_not_see_earlier_inputs() {
    let mut env = Environment::new();
    let globals = env.new_scope(None);
    run("var x = 1;", &mut env, globals, LIMIT);
    let mut other = Environment::new();
    let other_globals = other.new_scope(None);
    let second = run("print x;", &mut other, other_globals, LIMIT);
    assert_eq!(second.result, Err(LoxError { exit_code: 70 }));
    assert_eq!(second.diagnostics, vec!["Undefined variable 'x'. [line 1]: x"]);
}

#[test]
fn an_input_that_fails_keeps_the_session_going() {
    let mut env = Environment::new();
    let globals = env.new_scope(None);
    run("var x = 1;", &mut env, globals, LIMIT);
    assert!(run("x = ;", &mut env, globals, LIMIT).result.is_err());
    assert!(run("x = x + nil;", &mut env, globals, LIMIT).result.is_err());
    assert!(run("x = \"open", &mut env, globals, LIMIT).result.is_err());
    run("x = x + 1;", &mut env, globals, LIMIT);
    assert_eq!(env.get(globals, "x").unwrap(), Value::Number(Number { units: 2_000_000 }));
    assert_eq!(env.len(), 1);
}

#[test]
fn successful_run_reports_nothing() {
    let mut env = Environment::new();
    let globals = env.new_scope(None);
    let r = run("print \"a\" + \"b\"; print 1 + 2;", &mut env, globals, LIMIT);
    assert_eq!(r.output, vec!["ab", "3"]);
    assert!(r.diagnostics.is_empty());
    assert_eq!(r.result, Ok(()));
}

#[test]
fn lexical_error_exits_with_65() {
    let mut env = Environment::new();
    let globals = env.new_scope(None);
    let r = run("print 1;\nprint @;", &mut env, globals, LIMIT);
    assert_eq!(r.result, Err(LoxError { exit_code: 65 }));
    assert!(r.output.is_empty());
    assert_eq!(r.diagnostics, vec!["[line 2] Error : Unexpected character @ at 15"]);
}

#[test]
fn unterminated_string_diagnostic() {
    let mut env = Environment::new();
    let globals = env.new_scope(None);
    let r = run("\n\"abc", &mut env, globals, LIMIT);
    assert_eq!(r.result, Err(LoxError { exit_code: 65 }));
    assert_eq!(r.diagnostics, vec!["[line 2] Error : Unterminated string abc at 1"]);
}

#[test]
fn number_diagnostics() {
    let mut env = Environment::new();
    let globals = env.new_scope(None);
    let r = run("12.34.56", &mut env, globals, LIMIT);
    assert_eq!(
        r.diagnostics,
        vec!["[line 1] Error : Could not parse 12.34.56 as a number at 0 (invalid numeral)"]
    );
    let r = run("  99999999999999", &mut env, globals, LIMIT);
    assert_eq!(
        r.diagnostics,
        vec!["[line 1] Error : Could not parse 99999999999999 as a number at 2 (number too large)"]
    );
}

#[test]
fn syntax_errors_exit_with_65_and_run_nothing() {
    let mut env = Environment::new();
    let globals = env.new_scope(None);
    let r = run("print 1;\nvar = 2;\nprint \"a\" 3;\nprint", &mut env, globals, LIMIT);
    assert_eq!(r.result, Err(LoxError { exit_code: 65 }));
    assert!(r.output.is_empty());
    assert_eq!(
        r.diagnostics,
        vec![
            "[line 2] Error : parser error on =: Expect variable name.",
            "[line 3] Error : parser error on 3: Expect ';' after value.",
            "[line 0] Error : parser error on None: Expect expression.",
        ]
    );
}

#[test]
fn two_syntax_errors_give_two_lines_and_change_no_binding() {
    let mut env = Environment::new();
    let globals = env.new_scope(None);
    env.define(globals, "a".to_string(), Value::Bool(true));
    let r = run("var = 1; print ;", &mut env, globals, LIMIT);
    assert_eq!(r.result, Err(LoxError { exit_code: 65 }));
    assert!(r.output.is_empty());
    assert_eq!(
        r.diagnostics,
        vec![
            "[line 1] Error : parser error on =: Expect variable name.",
            "[line 1] Error : parser error on ;: Expect expression.",
        ]
    );
    assert_eq!(env.len(), 1);
    assert_eq!(env.get(globals, "a").unwrap(), Value::Bool(true));
}

#[test]
fn syntax_error_messages_show_the_token() {
    let mut env = Environment::new();
    let globals = env.new_scope(None);
    let r = run("print 1 \"two\";", &mut env, globals, LIMIT);
    assert_eq!(r.diagnostics, vec!["[line 1] Error : parser error on \"two\": Expect ';' after value."]);
    let r = run("print 1 name;", &mut env, globals, LIMIT);
    assert_eq!(r.diagnostics, vec!["[line 1] Error : parser error on name: Expect ';' after value."]);
    let r = run("print 1 while;", &mut env, globals, LIMIT);
    assert_eq!(r.diagnostics, vec!["[line 1] Error : parser error on while: Expect ';' after value."]);
    let r = run("print 1 2.50;", &mut env, globals, LIMIT);
    assert_eq!(r.diagnostics, vec!["[line 1] Error : parser error on 2.5: Expect ';' after value."]);
    let r = run("print 1 >= ;", &mut env, globals, LIMIT);
    assert_eq!(r.diagnostics, vec!["[line 1] Error : parser error on ;: Expect expression."]);
}

#[test]
fn runtime_errors_exit_with_70_and_keep_the_output() {
    let mut env = Environment::new();
    let globals = env.new_scope(None);
    let r = run(
        "print 1;\nprint (1 + 2) * -nil;\nprint 2;\nprint !(a = \"s\") and 1 <= 2 or x;",
        &mut env,
        globals,
        LIMIT,
    );
    assert_eq!(r.result, Err(LoxError { exit_code: 70 }));
    assert_eq!(r.output, vec!["1", "2"]);
    assert_eq!(
        r.diagnostics,
        vec![
            "Operand must be a number. [line 2]: -nil",
            "Undefined variable 'a'. [line 4]: a = \"s\"",
        ]
    );
}

#[test]
fn runtime_diagnostic_shows_the_expression() {
    let mut env = Environment::new();
    let globals = env.new_scope(None);
    let r = run("var a = 1;\nprint (a + 2.5) / (true != nil) - 1;", &mut env, globals, LIMIT);
    assert_eq!(
        r.diagnostics,
        vec!["Operands must be numbers. [line 2]: (a + 2.5) / (true != nil)"]
    );
    let r = run("print nil < 1 == false;", &mut env, globals, LIMIT);
    assert_eq!(r.diagnostics, vec!["Operands must be numbers. [line 1]: nil < 1"]);
}

#[test]
fn loop_limit_is_reported() {
    let mut env = Environment::new();
    let globals = env.new_scope(None);
    let r = run("while (true or false) {}", &mut env, globals, 10);
    assert_eq!(r.result, Err(LoxError { exit_code: 70 }));
    assert_eq!(r.diagnostics, vec!["Loop exceeded the iteration limit. [line 1]: true or false"]);
}

#[test]
fn error_has_an_empty_location() {
    assert_eq!(error(3, "boom".to_string()), "[line 3] Error : boom");
    assert_eq!(error(0, String::new()), "[line 0] Error : ");
    assert_eq!(error(4294967295, "x".to_string()), "[line 4294967295] Error : x");
}

#[test]
fn report_formats_line_location_and_message() {
    assert_eq!(report(12, "at end", "Expect expression.".to_string()), "[line 12] Error at end: Expect expression.");
    assert_eq!(report(100, "", "m".to_string()), "[line 100] Error : m");
    assert_eq!(report(7, "at 'x'", "é".to_string()), "[line 7] Error at 'x': é");
}
