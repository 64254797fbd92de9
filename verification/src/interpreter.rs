//! The evaluator: it walks the statements and runs them against an
//! environment.
//!
//! A runtime error ends the top-level statement it occurs in; the statements
//! after it still run, and `interpret` returns every error in order. Dividing
//! by zero is a runtime error, and so is a result outside the range of
//! numbers. A loop may run for at most a given number of iterations.

use vstd::prelude::*;
use crate::ast::{
    lemma_block_view, stmts_view, BinaryOp, Expr, LogicalOp, SpecExpr, SpecStmt, Stmt, UnaryOp,
};
use crate::environment::{
    assign_in, define_in, lookup, with_scope, without_scope, Environment, ScopeId, SpecScope,
};
use crate::number::{
    difference_of, negation_of, product_of, quotient_of, sum_of, ArithmeticError, Number,
};
use crate::text::{push_str, string_from_chars};
use crate::value::{truthy, value_text, values_equal, SpecValue, Value};

verus! {

/// Why an operator has no result.
#[derive(Clone, Copy, Debug, PartialEq, Eq, Structural)]
pub enum Fault {
    /// The operand of unary minus is no number.
    OperandNotNumber,
    /// An operand of an arithmetic or comparison operator is no number.
    OperandsNotNumbers,
    /// The operands of `+` are neither two numbers nor hold a string.
    OperandsNotAddable,
    /// The divisor is zero.
    DivisionByZero,
    /// The result is outside the range of numbers.
    OutOfRange,
    /// A loop ran for more iterations than allowed.
    LoopLimit,
}

/// The message for each fault.
pub open spec fn fault_text(f: Fault) -> Seq<char> {
    match f {
        Fault::OperandNotNumber => "Operand must be a number."@,
        Fault::OperandsNotNumbers => "Operands must be numbers."@,
        Fault::OperandsNotAddable => "Operands must be two numbers or include a string."@,
        Fault::DivisionByZero => "Division by zero."@,
        Fault::OutOfRange => "Number out of range."@,
        Fault::LoopLimit => "Loop exceeded the iteration limit."@,
    }
}

/// The message for a fault.
pub fn fault_message(f: Fault) -> (s: String)
    ensures
        s@ == fault_text(f),
{
    match f {
        Fault::OperandNotNumber => String::from_str("Operand must be a number."),
        Fault::OperandsNotNumbers => String::from_str("Operands must be numbers."),
        Fault::OperandsNotAddable => String::from_str(
            "Operands must be two numbers or include a string.",
        ),
        Fault::DivisionByZero => String::from_str("Division by zero."),
        Fault::OutOfRange => String::from_str("Number out of range."),
        Fault::LoopLimit => String::from_str("Loop exceeded the iteration limit."),
    }
}

/// The message for a name that no scope of the chain binds.
pub open spec fn undefined_text(name: Seq<char>) -> Seq<char> {
    "Undefined variable '"@ + name + "'."@
}

/// A runtime error: the expression that failed, its line, and a message.
#[derive(Debug, PartialEq, Eq)]
pub struct RuntimeError {
    pub expr: Expr,
    pub line: u32,
    pub message: String,
}

/// The mathematical model of a `RuntimeError`.
pub struct SpecRuntimeError {
    pub expr: SpecExpr,
    pub line: u32,
    pub message: Seq<char>,
}

impl View for RuntimeError {
    type V = SpecRuntimeError;

    open spec fn view(&self) -> SpecRuntimeError {
        SpecRuntimeError { expr: self.expr@, line: self.line, message: self.message@ }
    }
}

/// The models of a sequence of runtime errors.
pub open spec fn runtime_errors_view(v: Seq<RuntimeError>) -> Seq<SpecRuntimeError> {
    Seq::new(v.len(), |i: int| v[i]@)
}

/// The texts of a sequence of strings.
pub open spec fn lines_view(v: Seq<String>) -> Seq<Seq<char>> {
    Seq::new(v.len(), |i: int| v[i]@)
}

/// What a run works on: the scopes and the lines printed so far.
pub struct SpecState {
    pub env: Seq<SpecScope>,
    pub output: Seq<Seq<char>>,
}

/// The number that an arithmetic operation gives, or the fault that stands
/// for its error.
pub open spec fn number_result(r: Result<Number, ArithmeticError>) -> Result<SpecValue, Fault> {
    match r {
        Ok(n) => Ok(SpecValue::Number(n)),
        Err(ArithmeticError::Overflow) => Err(Fault::OutOfRange),
        Err(ArithmeticError::DivisionByZero) => Err(Fault::DivisionByZero),
    }
}

/// The value of `op v`. `!` negates the truthiness of any value; `-` wants a
/// number.
pub open spec fn apply_unary(op: UnaryOp, v: SpecValue) -> Result<SpecValue, Fault> {
    match op {
        UnaryOp::Not => Ok(SpecValue::Bool(!truthy(v))),
        UnaryOp::Negate => match v {
            SpecValue::Number(n) => number_result(negation_of(n)),
            _ => Err(Fault::OperandNotNumber),
        },
    }
}

/// The value of `a op b`.
///
/// `+` adds two numbers; if either operand is a string it joins the texts of
/// the two. `-`, `*`, `/` and the comparisons want two numbers. `==` and `!=`
/// take any two values and never fail; values of different types are unequal.
pub open spec fn apply_binary(op: BinaryOp, a: SpecValue, b: SpecValue) -> Result<SpecValue, Fault> {
    match op {
        BinaryOp::Equal => Ok(SpecValue::Bool(values_equal(a, b))),
        BinaryOp::NotEqual => Ok(SpecValue::Bool(!values_equal(a, b))),
        BinaryOp::Add => match (a, b) {
            (SpecValue::Number(x), SpecValue::Number(y)) => number_result(sum_of(x, y)),
            _ => if a is Str || b is Str {
                Ok(SpecValue::Str(value_text(a) + value_text(b)))
            } else {
                Err(Fault::OperandsNotAddable)
            },
        },
        _ => match (a, b) {
            (SpecValue::Number(x), SpecValue::Number(y)) => match op {
                BinaryOp::Subtract => number_result(difference_of(x, y)),
                BinaryOp::Multiply => number_result(product_of(x, y)),
                BinaryOp::Divide => number_result(quotient_of(x, y)),
                BinaryOp::Greater => Ok(SpecValue::Bool(x.units > y.units)),
                BinaryOp::GreaterEqual => Ok(SpecValue::Bool(x.units >= y.units)),
                BinaryOp::Less => Ok(SpecValue::Bool(x.units < y.units)),
                _ => Ok(SpecValue::Bool(x.units <= y.units)),
            },
            _ => Err(Fault::OperandsNotNumbers),
        },
    }
}

/// The outcome of an operator applied in the expression `e` on line `line`.
pub open spec fn located(r: Result<SpecValue, Fault>, e: SpecExpr, line: u32) -> Result<
    SpecValue,
    SpecRuntimeError,
> {
    match r {
        Ok(v) => Ok(v),
        Err(f) => Err(SpecRuntimeError { expr: e, line, message: fault_text(f) }),
    }
}

/// The value of `e` in `scope`, or the first runtime error, and the
/// environment afterwards. Operands are evaluated from left to right;
/// `and` and `or` evaluate their right operand only if the left one does not
/// decide.
pub open spec fn eval(e: SpecExpr, env: Seq<SpecScope>, scope: nat) -> (
    Result<SpecValue, SpecRuntimeError>,
    Seq<SpecScope>,
)
    decreases e,
{
    match e {
        SpecExpr::Literal(v) => (Ok(v), env),
        SpecExpr::Grouping(inner) => eval(*inner, env, scope),
        SpecExpr::Unary { op, line, right } => {
            let (r, env1) = eval(*right, env, scope);
            match r {
                Err(err) => (Err(err), env1),
                Ok(v) => (located(apply_unary(op, v), e, line), env1),
            }
        },
        SpecExpr::Binary { left, op, line, right } => {
            let (l, env1) = eval(*left, env, scope);
            match l {
                Err(err) => (Err(err), env1),
                Ok(a) => {
                    let (r, env2) = eval(*right, env1, scope);
                    match r {
                        Err(err) => (Err(err), env2),
                        Ok(b) => (located(apply_binary(op, a, b), e, line), env2),
                    }
                },
            }
        },
        SpecExpr::Logical { left, op, right } => {
            let (l, env1) = eval(*left, env, scope);
            match l {
                Err(err) => (Err(err), env1),
                Ok(a) => if (op == LogicalOp::Or && truthy(a)) || (op == LogicalOp::And && !truthy(
                    a,
                )) {
                    (Ok(a), env1)
                } else {
                    eval(*right, env1, scope)
                },
            }
        },
        SpecExpr::Variable { name, line } => match lookup(env, scope, name) {
            Some(v) => (Ok(v), env),
            None => (Err(SpecRuntimeError { expr: e, line, message: undefined_text(name) }), env),
        },
        SpecExpr::Assign { name, line, value } => {
            let (r, env1) = eval(*value, env, scope);
            match r {
                Err(err) => (Err(err), env1),
                Ok(v) => match assign_in(env1, scope, name, v) {
                    Some(env2) => (Ok(v), env2),
                    None => (
                        Err(SpecRuntimeError { expr: e, line, message: undefined_text(name) }),
                        env1,
                    ),
                },
            }
        },
    }
}

/// The runtime error of the statement `s` run in `scope`, if it has one, and
/// the state afterwards. A loop runs for at most `limit` iterations.
pub open spec fn exec_stmt(s: SpecStmt, st: SpecState, scope: nat, limit: nat) -> (
    Option<SpecRuntimeError>,
    SpecState,
)
    decreases s, 0nat,
{
    match s {
        SpecStmt::Expression(e) => {
            let (r, env1) = eval(e, st.env, scope);
            (
                match r {
                    Ok(_) => None,
                    Err(err) => Some(err),
                },
                SpecState { env: env1, output: st.output },
            )
        },
        SpecStmt::Print(e) => {
            let (r, env1) = eval(e, st.env, scope);
            match r {
                Ok(v) => (None, SpecState { env: env1, output: st.output.push(value_text(v)) }),
                Err(err) => (Some(err), SpecState { env: env1, output: st.output }),
            }
        },
        SpecStmt::Var { name, initializer } => match initializer {
            None => (
                None,
                SpecState {
                    env: define_in(st.env, scope, name, SpecValue::Nil),
                    output: st.output,
                },
            ),
            Some(e) => {
                let (r, env1) = eval(e, st.env, scope);
                match r {
                    Ok(v) => (
                        None,
                        SpecState { env: define_in(env1, scope, name, v), output: st.output },
                    ),
                    Err(err) => (Some(err), SpecState { env: env1, output: st.output }),
                }
            },
        },
        SpecStmt::Block(items) => {
            let child = st.env.len();
            let inner = SpecState { env: with_scope(st.env, Some(scope)), output: st.output };
            let (err, st1) = exec_items(items, 0, inner, child, limit);
            (err, SpecState { env: without_scope(st1.env, child), output: st1.output })
        },
        SpecStmt::If { condition, then_branch, else_branch } => {
            let (r, env1) = eval(condition, st.env, scope);
            let st1 = SpecState { env: env1, output: st.output };
            match r {
                Err(err) => (Some(err), st1),
                Ok(v) => if truthy(v) {
                    exec_stmt(*then_branch, st1, scope, limit)
                } else {
                    match else_branch {
                        Some(other) => exec_stmt(*other, st1, scope, limit),
                        None => (None, st1),
                    }
                },
            }
        },
        SpecStmt::While { condition, body, line } => exec_loop(
            condition,
            *body,
            line,
            st,
            scope,
            limit,
            limit,
        ),
    }
}

/// Runs the statements of a block from the `i`-th on, up to the first that
/// fails.
pub open spec fn exec_items(items: Seq<SpecStmt>, i: nat, st: SpecState, scope: nat, limit: nat) -> (
    Option<SpecRuntimeError>,
    SpecState,
)
    decreases items, items.len() - i + 1,
{
    if i >= items.len() {
        (None, st)
    } else {
        let (err, st1) = exec_stmt(items[i as int], st, scope, limit);
        if err is Some {
            (err, st1)
        } else {
            exec_items(items, i + 1, st1, scope, limit)
        }
    }
}

/// Runs a loop that may still take `left` iterations. If the condition is
/// truthy when none is left, the loop fails at its condition.
pub open spec fn exec_loop(
    condition: SpecExpr,
    body: SpecStmt,
    line: u32,
    st: SpecState,
    scope: nat,
    limit: nat,
    left: nat,
) -> (Option<SpecRuntimeError>, SpecState)
    decreases body, left + 1,
{
    let (r, env1) = eval(condition, st.env, scope);
    let st1 = SpecState { env: env1, output: st.output };
    match r {
        Err(err) => (Some(err), st1),
        Ok(v) => if !truthy(v) {
            (None, st1)
        } else if left == 0 {
            (
                Some(
                    SpecRuntimeError {
                        expr: condition,
                        line,
                        message: fault_text(Fault::LoopLimit),
                    },
                ),
                st1,
            )
        } else {
            let (err, st2) = exec_stmt(body, st1, scope, limit);
            if err is Some {
                (err, st2)
            } else {
                exec_loop(condition, body, line, st2, scope, limit, (left - 1) as nat)
            }
        },
    }
}

/// Runs the top-level statements from the `i`-th on. A statement that fails
/// adds its error to `errors`; the next statement runs all the same.
pub open spec fn run_from(
    statements: Seq<SpecStmt>,
    i: nat,
    st: SpecState,
    scope: nat,
    limit: nat,
    errors: Seq<SpecRuntimeError>,
) -> (Seq<SpecRuntimeError>, SpecState)
    decreases statements.len() - i,
{
    if i >= statements.len() {
        (errors, st)
    } else {
        let (err, st1) = exec_stmt(statements[i as int], st, scope, limit);
        run_from(
            statements,
            i + 1,
            st1,
            scope,
            limit,
            match err {
                Some(e) => errors.push(e),
                None => errors,
            },
        )
    }
}

/// The runtime errors of a program run in `scope`, in order, and the state
/// afterwards.
pub open spec fn interpreted(statements: Seq<SpecStmt>, st: SpecState, scope: nat, limit: nat) -> (
    Seq<SpecRuntimeError>,
    SpecState,
) {
    run_from(statements, 0, st, scope, limit, Seq::empty())
}

/// The model of the result of an evaluation.
pub open spec fn value_result_view(r: Result<Value, RuntimeError>) -> Result<
    SpecValue,
    SpecRuntimeError,
> {
    match r {
        Ok(v) => Ok(v@),
        Err(e) => Err(e@),
    }
}

/// The model of the result of a statement.
pub open spec fn unit_result_view(r: Result<(), RuntimeError>) -> Option<SpecRuntimeError> {
    match r {
        Ok(_) => None,
        Err(e) => Some(e@),
    }
}

fn number_value(r: Result<Number, ArithmeticError>) -> (v: Result<Value, Fault>)
    ensures
        match v {
            Ok(x) => number_result(r) == Ok::<SpecValue, Fault>(x@),
            Err(f) => number_result(r) == Err::<SpecValue, Fault>(f),
        },
{
    match r {
        Ok(n) => Ok(Value::Number(n)),
        Err(ArithmeticError::Overflow) => Err(Fault::OutOfRange),
        Err(ArithmeticError::DivisionByZero) => Err(Fault::DivisionByZero),
    }
}

/// Applies a prefix operator.
pub fn unary(op: UnaryOp, v: &Value) -> (r: Result<Value, Fault>)
    ensures
        match r {
            Ok(x) => apply_unary(op, v@) == Ok::<SpecValue, Fault>(x@),
            Err(f) => apply_unary(op, v@) == Err::<SpecValue, Fault>(f),
        },
{
    match op {
        UnaryOp::Not => Ok(Value::Bool(!v.is_truthy())),
        UnaryOp::Negate => match v {
            Value::Number(n) => number_value(n.negated()),
            _ => Err(Fault::OperandNotNumber),
        },
    }
}

/// Applies an arithmetic, comparison or equality operator.
pub fn binary(op: BinaryOp, a: &Value, b: &Value) -> (r: Result<Value, Fault>)
    ensures
        match r {
            Ok(x) => apply_binary(op, a@, b@) == Ok::<SpecValue, Fault>(x@),
            Err(f) => apply_binary(op, a@, b@) == Err::<SpecValue, Fault>(f),
        },
{
    match op {
        BinaryOp::Equal => Ok(Value::Bool(a.equals(b))),
        BinaryOp::NotEqual => Ok(Value::Bool(!a.equals(b))),
        BinaryOp::Add => match (a, b) {
            (Value::Number(x), Value::Number(y)) => number_value(x.plus(*y)),
            _ => {
                let joins: bool = match a {
                    Value::Str(_) => true,
                    _ => match b {
                        Value::Str(_) => true,
                        _ => false,
                    },
                };
                if joins {
                    let mut buffer: Vec<char> = Vec::new();
                    a.push_text(&mut buffer);
                    b.push_text(&mut buffer);
                    assert(buffer@ =~= value_text(a@) + value_text(b@));
                    Ok(Value::Str(string_from_chars(&buffer)))
                } else {
                    Err(Fault::OperandsNotAddable)
                }
            },
        },
        _ => match (a, b) {
            (Value::Number(x), Value::Number(y)) => match op {
                BinaryOp::Subtract => number_value(x.minus(*y)),
                BinaryOp::Multiply => number_value(x.times(*y)),
                BinaryOp::Divide => number_value(x.divided_by(*y)),
                BinaryOp::Greater => Ok(Value::Bool(x.units > y.units)),
                BinaryOp::GreaterEqual => Ok(Value::Bool(x.units >= y.units)),
                BinaryOp::Less => Ok(Value::Bool(x.units < y.units)),
                _ => Ok(Value::Bool(x.units <= y.units)),
            },
            _ => Err(Fault::OperandsNotNumbers),
        },
    }
}

fn fault_at(f: Fault, e: &Expr, line: u32) -> (err: RuntimeError)
    ensures
        err@ == (SpecRuntimeError { expr: e@, line, message: fault_text(f) }),
{
    RuntimeError { expr: e.clone(), line, message: fault_message(f) }
}

fn undefined_at(name: &String, e: &Expr, line: u32) -> (err: RuntimeError)
    ensures
        err@ == (SpecRuntimeError { expr: e@, line, message: undefined_text(name@) }),
{
    let mut buffer: Vec<char> = Vec::new();
    push_str("Undefined variable '", &mut buffer);
    push_str(name.as_str(), &mut buffer);
    push_str("'.", &mut buffer);
    assert(buffer@ =~= undefined_text(name@));
    RuntimeError { expr: e.clone(), line, message: string_from_chars(&buffer) }
}

/// Evaluates `e` in `scope`.
#[verifier::rlimit(40)]
pub fn evaluate(e: &Expr, env: &mut Environment, scope: ScopeId) -> (r: Result<Value, RuntimeError>)
    ensures
        (value_result_view(r), final(env)@) == eval(e@, old(env)@, scope as nat),
    decreases e,
{
    match e {
        Expr::Literal(v) => Ok(v.clone()),
        Expr::Grouping(inner) => evaluate(&**inner, env, scope),
        Expr::Unary { op, line, right } => {
            match evaluate(&**right, env, scope) {
                Err(err) => Err(err),
                Ok(v) => match unary(*op, &v) {
                    Ok(x) => Ok(x),
                    Err(f) => Err(fault_at(f, e, *line)),
                },
            }
        },
        Expr::Binary { left, op, line, right } => {
            match evaluate(&**left, env, scope) {
                Err(err) => Err(err),
                Ok(a) => match evaluate(&**right, env, scope) {
                    Err(err) => Err(err),
                    Ok(b) => match binary(*op, &a, &b) {
                        Ok(x) => Ok(x),
                        Err(f) => Err(fault_at(f, e, *line)),
                    },
                },
            }
        },
        Expr::Logical { left, op, right } => {
            match evaluate(&**left, env, scope) {
                Err(err) => Err(err),
                Ok(a) => {
                    let t: bool = a.is_truthy();
                    if (*op == LogicalOp::Or && t) || (*op == LogicalOp::And && !t) {
                        Ok(a)
                    } else {
                        evaluate(&**right, env, scope)
                    }
                },
            }
        },
        Expr::Variable { name, line } => {
            match env.get(scope, name.as_str()) {
                Ok(v) => Ok(v),
                Err(_) => Err(undefined_at(name, e, *line)),
            }
        },
        Expr::Assign { name, line, value } => {
            match evaluate(&**value, env, scope) {
                Err(err) => Err(err),
                Ok(v) => match env.assign(scope, name.as_str(), v.clone()) {
                    Ok(_) => Ok(v),
                    Err(_) => Err(undefined_at(name, e, *line)),
                },
            }
        },
    }
}

/// The state that `env` and `output` stand for.
pub open spec fn state_of(env: Environment, output: Vec<String>) -> SpecState {
    SpecState { env: env@, output: lines_view(output@) }
}

proof fn lemma_push_line(v: Seq<String>, s: String)
    ensures
        lines_view(v.push(s)) == lines_view(v).push(s@),
{
    assert(lines_view(v.push(s)) =~= lines_view(v).push(s@));
}

proof fn lemma_push_runtime_error(v: Seq<RuntimeError>, e: RuntimeError)
    ensures
        runtime_errors_view(v.push(e)) == runtime_errors_view(v).push(e@),
{
    assert(runtime_errors_view(v.push(e)) =~= runtime_errors_view(v).push(e@));
}

/// Runs the statement `s` in `scope`. What it prints is added to `output`,
/// one string for each `print`.
#[verifier::loop_isolation(false)]
#[verifier::rlimit(40)]
pub fn execute(
    s: &Stmt,
    env: &mut Environment,
    scope: ScopeId,
    limit: u64,
    output: &mut Vec<String>,
) -> (r: Result<(), RuntimeError>)
    ensures
        (unit_result_view(r), state_of(*final(env), *final(output))) == exec_stmt(
            s@,
            state_of(*old(env), *old(output)),
            scope as nat,
            limit as nat,
        ),
    decreases s, 0nat,
{
    match s {
        Stmt::Expression(e) => {
            match evaluate(e, env, scope) {
                Ok(_) => Ok(()),
                Err(err) => Err(err),
            }
        },
        Stmt::Print(e) => {
            match evaluate(e, env, scope) {
                Ok(v) => {
                    let mut buffer: Vec<char> = Vec::new();
                    v.push_text(&mut buffer);
                    assert(buffer@ =~= value_text(v@));
                    let line: String = string_from_chars(&buffer);
                    proof {
                        lemma_push_line(output@, line);
                    }
                    output.push(line);
                    Ok(())
                },
                Err(err) => Err(err),
            }
        },
        Stmt::Var { name, initializer } => {
            match initializer {
                None => {
                    env.define(scope, name.clone(), Value::Nil);
                    Ok(())
                },
                Some(e) => match evaluate(e, env, scope) {
                    Ok(v) => {
                        env.define(scope, name.clone(), v);
                        Ok(())
                    },
                    Err(err) => Err(err),
                },
            }
        },
        Stmt::Block(items) => {
            proof {
                lemma_block_view(*items);
            }
            let ghost models = stmts_view(items@);
            let ghost start = SpecState {
                env: with_scope(env@, Some(scope as nat)),
                output: lines_view(output@),
            };
            let child: ScopeId = env.new_scope(Some(scope));
            let mut result: Result<(), RuntimeError> = Ok(());
            let mut i: usize = 0;
            while i < items.len() && result.is_ok()
                invariant
                    i <= items.len(),
                    models == stmts_view(items@),
                    match result {
                        Ok(_) => exec_items(models, 0, start, child as nat, limit as nat)
                            == exec_items(
                            models,
                            i as nat,
                            state_of(*env, *output),
                            child as nat,
                            limit as nat,
                        ),
                        Err(err) => exec_items(models, 0, start, child as nat, limit as nat) == (
                            Some(err@),
                            state_of(*env, *output),
                        ),
                    },
                decreases items.len() - i,
            {
                result = execute(&items[i], env, child, limit, output);
                i += 1;
            }
            env.discard(child);
            result
        },
        Stmt::If { condition, then_branch, else_branch } => {
            match evaluate(condition, env, scope) {
                Err(err) => Err(err),
                Ok(v) => {
                    if v.is_truthy() {
                        execute(&**then_branch, env, scope, limit, output)
                    } else {
                        match else_branch {
                            Some(other) => execute(&**other, env, scope, limit, output),
                            None => Ok(()),
                        }
                    }
                },
            }
        },
        Stmt::While { condition, body, line } => {
            let ghost start = state_of(*env, *output);
            let mut left: u64 = limit;
            loop
                invariant
                    exec_loop(
                        condition@,
                        (**body)@,
                        *line,
                        start,
                        scope as nat,
                        limit as nat,
                        limit as nat,
                    ) == exec_loop(
                        condition@,
                        (**body)@,
                        *line,
                        state_of(*env, *output),
                        scope as nat,
                        limit as nat,
                        left as nat,
                    ),
                decreases left,
            {
                match evaluate(condition, env, scope) {
                    Err(err) => {
                        return Err(err);
                    },
                    Ok(v) => {
                        if !v.is_truthy() {
                            return Ok(());
                        }
                        if left == 0 {
                            return Err(fault_at(Fault::LoopLimit, condition, *line));
                        }
                        match execute(&**body, env, scope, limit, output) {
                            Err(err) => {
                                return Err(err);
                            },
                            Ok(_) => {},
                        }
                        left -= 1;
                    },
                }
            }
        },
    }
}

/// The model of what `interpret` returns.
pub open spec fn interpret_result_view(r: Result<(), Vec<RuntimeError>>) -> Seq<SpecRuntimeError> {
    match r {
        Ok(_) => Seq::empty(),
        Err(errors) => runtime_errors_view(errors@),
    }
}

/// Runs `statements` in order in `scope` of `env`. What they print is added
/// to `output`. A statement that fails with a runtime error is abandoned and
/// the next one runs; the result is `Ok` if none failed, else every error in
/// order. Each loop may run for at most `limit` iterations.
pub fn interpret(
    statements: &Vec<Stmt>,
    env: &mut Environment,
    scope: ScopeId,
    limit: u64,
    output: &mut Vec<String>,
) -> (r: Result<(), Vec<RuntimeError>>)
    ensures
        (interpret_result_view(r), state_of(*final(env), *final(output))) == interpreted(
            stmts_view(statements@),
            state_of(*old(env), *old(output)),
            scope as nat,
            limit as nat,
        ),
        r is Ok <==> interpreted(
            stmts_view(statements@),
            state_of(*old(env), *old(output)),
            scope as nat,
            limit as nat,
        ).0.len() == 0,
{
    let ghost models = stmts_view(statements@);
    let ghost start = state_of(*env, *output);
    let mut errors: Vec<RuntimeError> = Vec::new();
    let mut i: usize = 0;
    assert(runtime_errors_view(errors@) =~= Seq::empty());
    while i < statements.len()
        invariant
            i <= statements.len(),
            models == stmts_view(statements@),
            interpreted(models, start, scope as nat, limit as nat) == run_from(
                models,
                i as nat,
                state_of(*env, *output),
                scope as nat,
                limit as nat,
                runtime_errors_view(errors@),
            ),
        decreases statements.len() - i,
    {
        match execute(&statements[i], env, scope, limit, output) {
            Ok(_) => {},
            Err(e) => {
                proof {
                    lemma_push_runtime_error(errors@, e);
                }
                errors.push(e);
            },
        }
        i += 1;
    }
    if errors.len() == 0 {
        Ok(())
    } else {
        Err(errors)
    }
}

/// Whether two values are of the same type.
pub open spec fn same_type(a: SpecValue, b: SpecValue) -> bool {
    (a is Nil && b is Nil) || (a is Bool && b is Bool) || (a is Number && b is Number) || (a is Str
        && b is Str)
}

/// Equality never fails, and values of different types are unequal.
pub proof fn lemma_equality_never_fails(a: SpecValue, b: SpecValue)
    ensures
        apply_binary(BinaryOp::Equal, a, b) is Ok,
        apply_binary(BinaryOp::NotEqual, a, b) is Ok,
        !same_type(a, b) ==> apply_binary(BinaryOp::Equal, a, b) == Ok::<SpecValue, Fault>(
            SpecValue::Bool(false),
        ),
        !same_type(a, b) ==> apply_binary(BinaryOp::NotEqual, a, b) == Ok::<SpecValue, Fault>(
            SpecValue::Bool(true),
        ),
{
}

/// Evaluating an expression adds and removes no scope.
pub proof fn lemma_eval_keeps_scopes(e: SpecExpr, env: Seq<SpecScope>, scope: nat)
    ensures
        eval(e, env, scope).1.len() == env.len(),
    decreases e,
{
    match e {
        SpecExpr::Literal(v) => {},
        SpecExpr::Grouping(inner) => {
            lemma_eval_keeps_scopes(*inner, env, scope);
        },
        SpecExpr::Unary { op, line, right } => {
            lemma_eval_keeps_scopes(*right, env, scope);
        },
        SpecExpr::Binary { left, op, line, right } => {
            lemma_eval_keeps_scopes(*left, env, scope);
            lemma_eval_keeps_scopes(*right, eval(*left, env, scope).1, scope);
        },
        SpecExpr::Logical { left, op, right } => {
            lemma_eval_keeps_scopes(*left, env, scope);
            lemma_eval_keeps_scopes(*right, eval(*left, env, scope).1, scope);
        },
        SpecExpr::Variable { name, line } => {},
        SpecExpr::Assign { name, line, value } => {
            lemma_eval_keeps_scopes(*value, env, scope);
        },
    }
}

/// Running a statement adds and removes no scope: a block discards the scope
/// that it made, whether it failed or not.
pub proof fn lemma_statement_keeps_scopes(s: SpecStmt, st: SpecState, scope: nat, limit: nat)
    ensures
        exec_stmt(s, st, scope, limit).1.env.len() == st.env.len(),
    decreases s, 0nat,
{
    match s {
        SpecStmt::Expression(e) => {
            lemma_eval_keeps_scopes(e, st.env, scope);
        },
        SpecStmt::Print(e) => {
            lemma_eval_keeps_scopes(e, st.env, scope);
        },
        SpecStmt::Var { name, initializer } => {
            if let Some(e) = initializer {
                lemma_eval_keeps_scopes(e, st.env, scope);
            }
        },
        SpecStmt::Block(items) => {
            let inner = SpecState { env: with_scope(st.env, Some(scope)), output: st.output };
            lemma_items_keep_scopes(items, 0, inner, st.env.len(), limit);
        },
        SpecStmt::If { condition, then_branch, else_branch } => {
            lemma_eval_keeps_scopes(condition, st.env, scope);
            let st1 = SpecState { env: eval(condition, st.env, scope).1, output: st.output };
            lemma_statement_keeps_scopes(*then_branch, st1, scope, limit);
            if let Some(other) = else_branch {
                lemma_statement_keeps_scopes(*other, st1, scope, limit);
            }
        },
        SpecStmt::While { condition, body, line } => {
            lemma_loop_keeps_scopes(condition, *body, line, st, scope, limit, limit);
        },
    }
}

proof fn lemma_items_keep_scopes(items: Seq<SpecStmt>, i: nat, st: SpecState, scope: nat, limit: nat)
    ensures
        exec_items(items, i, st, scope, limit).1.env.len() == st.env.len(),
    decreases items, items.len() - i + 1,
{
    if i < items.len() {
        lemma_statement_keeps_scopes(items[i as int], st, scope, limit);
        let (err, st1) = exec_stmt(items[i as int], st, scope, limit);
        if err is None {
            lemma_items_keep_scopes(items, i + 1, st1, scope, limit);
        }
    }
}

proof fn lemma_loop_keeps_scopes(
    condition: SpecExpr,
    body: SpecStmt,
    line: u32,
    st: SpecState,
    scope: nat,
    limit: nat,
    left: nat,
)
    ensures
        exec_loop(condition, body, line, st, scope, limit, left).1.env.len() == st.env.len(),
    decreases body, left + 1,
{
    lemma_eval_keeps_scopes(condition, st.env, scope);
    let (r, env1) = eval(condition, st.env, scope);
    let st1 = SpecState { env: env1, output: st.output };
    if let Ok(v) = r {
        if truthy(v) && left > 0 {
            lemma_statement_keeps_scopes(body, st1, scope, limit);
            let (err, st2) = exec_stmt(body, st1, scope, limit);
            if err is None {
                lemma_loop_keeps_scopes(condition, body, line, st2, scope, limit, (left - 1) as nat);
            }
        }
    }
}

proof fn lemma_run_keeps_scopes(
    statements: Seq<SpecStmt>,
    i: nat,
    st: SpecState,
    scope: nat,
    limit: nat,
    errors: Seq<SpecRuntimeError>,
)
    ensures
        run_from(statements, i, st, scope, limit, errors).1.env.len() == st.env.len(),
    decreases statements.len() - i,
{
    if i < statements.len() {
        lemma_statement_keeps_scopes(statements[i as int], st, scope, limit);
        let (err, st1) = exec_stmt(statements[i as int], st, scope, limit);
        lemma_run_keeps_scopes(
            statements,
            i + 1,
            st1,
            scope,
            limit,
            match err {
                Some(e) => errors.push(e),
                None => errors,
            },
        );
    }
}

/// A program leaves as many scopes as it found.
pub proof fn lemma_program_keeps_scopes(
    statements: Seq<SpecStmt>,
    st: SpecState,
    scope: nat,
    limit: nat,
)
    ensures
        interpreted(statements, st, scope, limit).1.env.len() == st.env.len(),
{
    lemma_run_keeps_scopes(statements, 0, st, scope, limit, Seq::empty());
}

/// A variable that one program declares at top level with a value is seen by
/// the next program that runs in the same scope of the same environment.
pub proof fn lemma_declaration_outlives_program(
    name: Seq<char>,
    value: SpecValue,
    st: SpecState,
    scope: nat,
    limit: nat,
    line: u32,
)
    requires
        scope < st.env.len(),
    ensures
        ({
            let declaration = SpecStmt::Var {
                name,
                initializer: Some(SpecExpr::Literal(value)),
            };
            let first = interpreted(seq![declaration], st, scope, limit);
            let second = interpreted(
                seq![SpecStmt::Print(SpecExpr::Variable { name, line })],
                SpecState { env: first.1.env, output: Seq::empty() },
                scope,
                limit,
            );
            &&& first.0.len() == 0
            &&& second.0.len() == 0
            &&& second.1.output == seq![value_text(value)]
        }),
{
    let declaration = SpecStmt::Var { name, initializer: Some(SpecExpr::Literal(value)) };
    let print = SpecStmt::Print(SpecExpr::Variable { name, line });
    reveal_with_fuel(run_from, 3);
    let first = interpreted(seq![declaration], st, scope, limit);
    assert(first.1.env == define_in(st.env, scope, name, value));
    let st2 = SpecState { env: first.1.env, output: Seq::<Seq<char>>::empty() };
    assert(lookup(st2.env, scope, name) == Some(value));
    let second = interpreted(seq![print], st2, scope, limit);
    assert(second.1.output =~= seq![value_text(value)]);
}

} // verus!
