//! A tree-walking interpreter for a small dynamically typed scripting
//! language: scanner, parser, environment and evaluator.
//!
//! `run` takes source text through the whole pipeline against an environment
//! that outlives the call, so that an interactive session keeps its
//! variables from one input to the next. Nothing here prints: what a program
//! prints and the diagnostics of its errors come back as strings.

use vstd::prelude::*;
use crate::diagnostics::{
    parse_diagnostic, parse_diagnostic_text, push_report, report_text, runtime_diagnostic,
    runtime_diagnostic_text, scan_diagnostic, scan_diagnostic_text,
};
use crate::environment::{Environment, ScopeId, SpecScope};
use crate::interpreter::{
    interpret, interpreted, lines_view, runtime_errors_view, RuntimeError, SpecRuntimeError,
    SpecState,
};
use crate::parser::{errors_view, parse, parsed, ParseError, SpecParseError};
use crate::scanner::{scan, tokens_of};
use crate::text::string_from_chars;
use crate::token::tokens_view;

pub mod ast;
pub mod diagnostics;
pub mod environment;
pub mod grammar;
pub mod interpreter;
pub mod number;
pub mod parser;
pub mod scanner;
pub mod text;
pub mod token;
pub mod unparse;
pub mod value;

verus! {

/// The exit status for a source that does not scan or parse.
pub const EXIT_SYNTAX: i32 = 65;

/// The exit status for a program that failed while it ran.
pub const EXIT_RUNTIME: i32 = 70;

/// A failed run, with the exit status that stands for it.
#[derive(Clone, Copy, Debug, PartialEq, Eq, Structural)]
pub struct LoxError {
    pub exit_code: i32,
}

/// What a run produced: the lines that the program printed, the lines that
/// report its errors, and whether it failed.
#[derive(Debug, PartialEq, Eq)]
pub struct RunReport {
    pub output: Vec<String>,
    pub diagnostics: Vec<String>,
    pub result: Result<(), LoxError>,
}

/// The mathematical model of a run: what it printed, what it reported, its
/// result, and the environment that it left.
pub struct SpecRun {
    pub output: Seq<Seq<char>>,
    pub diagnostics: Seq<Seq<char>>,
    pub result: Result<(), LoxError>,
    pub env: Seq<SpecScope>,
}

/// The line that reports `message` on line `line`, without a location.
pub fn error(line: u32, message: String) -> (s: String)
    ensures
        s@ == report_text(line, Seq::empty(), message@),
{
    let s: String = report(line, "", message);
    assert(""@ =~= Seq::<char>::empty()) by {
        reveal_strlit("");
    }
    s
}

/// The line that reports `message` on line `line` at `location`:
/// `[line N] Error <location>: <message>`.
pub fn report(line: u32, location: &str, message: String) -> (s: String)
    ensures
        s@ == report_text(line, location@, message@),
{
    let mut out: Vec<char> = Vec::new();
    push_report(line, location, message.as_str(), &mut out);
    assert(out@ =~= report_text(line, location@, message@));
    string_from_chars(&out)
}

/// The run of `source` in `scope` of `env`, with at most `limit` iterations
/// for each loop.
///
/// A source with a lexical error reports that error and runs nothing; so does
/// one with syntax errors, which reports each of them. Both fail with status
/// 65. Otherwise the program runs; if any statement fails, the run reports
/// each runtime error and fails with status 70.
pub open spec fn run_model(source: Seq<char>, env: Seq<SpecScope>, scope: nat, limit: nat) -> SpecRun {
    match tokens_of(source) {
        Err(e) => SpecRun {
            output: Seq::empty(),
            diagnostics: seq![scan_diagnostic_text(e)],
            result: Err(LoxError { exit_code: EXIT_SYNTAX }),
            env,
        },
        Ok(tokens) => match parsed(tokens) {
            Err(errors) => SpecRun {
                output: Seq::empty(),
                diagnostics: Seq::new(errors.len(), |i: int| parse_diagnostic_text(errors[i])),
                result: Err(LoxError { exit_code: EXIT_SYNTAX }),
                env,
            },
            Ok(statements) => {
                let (errors, state) = interpreted(
                    statements,
                    SpecState { env, output: Seq::empty() },
                    scope,
                    limit,
                );
                SpecRun {
                    output: state.output,
                    diagnostics: Seq::new(
                        errors.len(),
                        |i: int| runtime_diagnostic_text(errors[i]),
                    ),
                    result: if errors.len() == 0 {
                        Ok(())
                    } else {
                        Err(LoxError { exit_code: EXIT_RUNTIME })
                    },
                    env: state.env,
                }
            },
        },
    }
}

fn parse_diagnostics(errors: &Vec<ParseError>) -> (lines: Vec<String>)
    ensures
        lines_view(lines@) == Seq::new(
            errors@.len(),
            |i: int| parse_diagnostic_text(errors_view(errors@)[i]),
        ),
{
    let mut lines: Vec<String> = Vec::new();
    let mut i: usize = 0;
    while i < errors.len()
        invariant
            i <= errors.len(),
            lines@.len() == i,
            forall|j: int| 0 <= j < i ==> (#[trigger] lines@[j])@ == parse_diagnostic_text(errors@[j]@),
        decreases errors.len() - i,
    {
        lines.push(parse_diagnostic(&errors[i]));
        i += 1;
    }
    assert(lines_view(lines@) =~= Seq::new(
        errors@.len(),
        |i: int| parse_diagnostic_text(errors_view(errors@)[i]),
    ));
    lines
}

fn runtime_diagnostics(errors: &Vec<RuntimeError>) -> (lines: Vec<String>)
    ensures
        lines_view(lines@) == Seq::new(
            errors@.len(),
            |i: int| runtime_diagnostic_text(runtime_errors_view(errors@)[i]),
        ),
{
    let mut lines: Vec<String> = Vec::new();
    let mut i: usize = 0;
    while i < errors.len()
        invariant
            i <= errors.len(),
            lines@.len() == i,
            forall|j: int|
                0 <= j < i ==> (#[trigger] lines@[j])@ == runtime_diagnostic_text(errors@[j]@),
        decreases errors.len() - i,
    {
        lines.push(runtime_diagnostic(&errors[i]));
        i += 1;
    }
    assert(lines_view(lines@) =~= Seq::new(
        errors@.len(),
        |i: int| runtime_diagnostic_text(runtime_errors_view(errors@)[i]),
    ));
    lines
}

/// Scans, parses and runs `source` in `scope` of `env`, with at most `limit`
/// iterations for each loop. The environment keeps what the program defined.
pub fn run(source: &str, env: &mut Environment, scope: ScopeId, limit: u64) -> (report: RunReport)
    ensures
        ({
            let model = run_model(source@, old(env)@, scope as nat, limit as nat);
            &&& lines_view(report.output@) == model.output
            &&& lines_view(report.diagnostics@) == model.diagnostics
            &&& report.result == model.result
            &&& final(env)@ == model.env
        }),
{
    match scan(source) {
        Err(e) => {
            let mut diagnostics: Vec<String> = Vec::new();
            let line: String = scan_diagnostic(&e);
            diagnostics.push(line);
            let output: Vec<String> = Vec::new();
            assert(lines_view(diagnostics@) =~= seq![scan_diagnostic_text(e@)]);
            assert(lines_view(output@) =~= Seq::empty());
            RunReport { output, diagnostics, result: Err(LoxError { exit_code: EXIT_SYNTAX }) }
        },
        Ok(tokens) => match parse(&tokens) {
            Err(errors) => {
                let diagnostics: Vec<String> = parse_diagnostics(&errors);
                let output: Vec<String> = Vec::new();
                assert(lines_view(output@) =~= Seq::empty());
                RunReport { output, diagnostics, result: Err(LoxError { exit_code: EXIT_SYNTAX }) }
            },
            Ok(statements) => {
                let mut output: Vec<String> = Vec::new();
                assert(lines_view(output@) =~= Seq::empty());
                match interpret(&statements, env, scope, limit, &mut output) {
                    Ok(_) => {
                        let diagnostics: Vec<String> = Vec::new();
                        assert(lines_view(diagnostics@) =~= Seq::empty());
                        RunReport { output, diagnostics, result: Ok(()) }
                    },
                    Err(errors) => {
                        let diagnostics: Vec<String> = runtime_diagnostics(&errors);
                        RunReport {
                            output,
                            diagnostics,
                            result: Err(LoxError { exit_code: EXIT_RUNTIME }),
                        }
                    },
                }
            },
        },
    }
}

} // verus!
