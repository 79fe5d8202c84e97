//! End-to-end runs: source text through the tokenizer, the classifier and
//! the engine, checking outcomes and exact printed output.

use linescript::engine::{RunOutcome, State};
use linescript::errors::ErrorKind;
use linescript::lexer::tokenise_lines;
use linescript::parser::{parse_lines, Instruction};

fn run_program(src: &str) -> (RunOutcome, String) {
    let lines: Vec<String> = src.lines().map(|l| l.to_string()).collect();
    let tokens = tokenise_lines(&lines);
    let instructions = match parse_lines(&tokens) {
        Ok(instructions) => instructions,
        Err(e) => panic!("parse failed at line {}: {:?}", e.line, e.kind),
    };
    let mut state = State::new();
    let outcome = state.execute(&instructions, 1_000_000);
    let output = state.take_output();
    (outcome, output)
}

fn run_err(src: &str) -> (ErrorKind, String) {
    let (outcome, output) = run_program(src);
    match outcome {
        RunOutcome::Failed(e) => (e.kind, output),
        other => panic!("expected a fatal error, got {:?} with output {:?}", other, output),
    }
}

fn run_ok(src: &str) -> String {
    let (outcome, output) = run_program(src);
    assert!(
        matches!(outcome, RunOutcome::Finished),
        "expected completion, got {:?} with output {:?}",
        outcome,
        output
    );
    output
}

#[test]
fn loop_runs_body_once_per_value() {
    let out = run_ok("for i from 0 to 3\nprint(i)\ndone");
    assert_eq!(out, "0\n1\n2\n");
}

#[test]
fn loop_bounds_are_expressions() {
    let out = run_ok("int hi = 4\nfor i from 1 to hi\nprint(i)\ndone");
    assert_eq!(out, "1\n2\n3\n");
}

#[test]
fn loop_body_redeclares_freely_each_iteration() {
    let out = run_ok("for i from 0 to 3\nint x = 7\nprint(x)\ndone");
    assert_eq!(out, "7\n7\n7\n");
}

#[test]
fn loop_accumulates_a_product() {
    let out = run_ok("int total = 1\nfor i from 2 to 6\ntotal = total*i\ndone\nprint(total)");
    assert_eq!(out, "120\n");
}

#[test]
fn loop_not_entered_falls_through_into_body_text() {
    // The header never jumps over its block: with start >= end nothing is
    // pushed, the body runs in the enclosing scope, and its terminator then
    // tries to close the root scope.
    let (kind, output) = run_err("for i from 5 to 2\nprint(\"x\")\ndone");
    assert_eq!(kind, ErrorKind::RootFrameTerminated);
    assert_eq!(output, "x\n");
}

#[test]
fn recursive_factorial_returns_120() {
    let src = "fn fact : int n\nif n is 0\nreturn 1\ndone\nint m = n-1\nfact(m) -> sub\nint result = sub*n\nreturn result\ndone\nfact(5) -> answer\nprint(answer)";
    let out = run_ok(src);
    assert_eq!(out, "120\n");
}

#[test]
fn function_arguments_pass_by_value() {
    let src = "fn double : int n\nint d = n*2\nreturn d\ndone\nint n = 21\ndouble(n) -> n\nprint(n)";
    let out = run_ok(src);
    assert_eq!(out, "42\n");
}

#[test]
fn fold_is_left_to_right_without_precedence() {
    let out = run_ok("int r = 2-3*4\nprint(r)");
    assert_eq!(out, "-4\n");
    let out = run_ok("int r = 2-3-4\nprint(r)");
    assert_eq!(out, "-5\n");
}

#[test]
fn spaced_subtraction_merges_and_evaluates() {
    let out = run_ok("int r = 10 - 3\nprint(r)");
    assert_eq!(out, "7\n");
}

#[test]
fn nested_loops_reseed_independently() {
    let out = run_ok("for i from 0 to 2\nfor j from 0 to 2\nprint(i j)\ndone\ndone");
    assert_eq!(out, "00\n01\n10\n11\n");
}

#[test]
fn return_unwinds_through_nested_scopes() {
    let src = "fn pick : int n\nif n is 1\nreturn 9\ndone\nreturn 0\ndone\npick(1) -> r\nprint(r)";
    let out = run_ok(src);
    assert_eq!(out, "9\n");
}

#[test]
fn comparison_in_expression_yields_boolean() {
    let out = run_ok("bool gt = true>\"0\"\nprint(gt)");
    assert_eq!(out, "true\n");
}

#[test]
fn equality_bridges_string_and_integer() {
    let out = run_ok("if \"5\" is 5\nprint(\"same\")\ndone");
    assert_eq!(out, "same\n");
}

#[test]
fn conditional_false_skips_block() {
    let out = run_ok("if 1 is 2\nprint(\"inside\")\ndone\nprint(\"after\")");
    assert_eq!(out, "after\n");
}

#[test]
fn negated_conditional() {
    let out = run_ok("if 1 is not 2\nprint(\"differ\")\ndone");
    assert_eq!(out, "differ\n");
}

#[test]
fn assigning_integer_into_string_variable_stores_decimal_text() {
    // The variable's current text is numeric-looking, so the bridge is open.
    let out = run_ok("string s = 0\ns = 5\nprint(s)");
    assert_eq!(out, "5\n");
}

#[test]
fn assigning_integer_into_non_numeric_string_variable_is_fatal() {
    let (kind, _) = run_err("string s = \"start\"\ns = 5");
    assert_eq!(kind, ErrorKind::TypeMismatch);
}

#[test]
fn trailing_operator_is_flushed_and_ignored() {
    let out = run_ok("int r = 5-\nprint(r)");
    assert_eq!(out, "5\n");
}

#[test]
fn assigning_numeric_text_into_integer_variable_parses_it() {
    let out = run_ok("int x = \"7\"\nprint(x)");
    assert_eq!(out, "7\n");
}

#[test]
fn assigning_non_numeric_text_into_integer_variable_is_fatal() {
    let (kind, _) = run_err("int y = \"abc\"");
    assert_eq!(kind, ErrorKind::TypeMismatch);
}

#[test]
fn print_concatenates_arguments_without_separator() {
    let out = run_ok("print(1 \"x\")");
    assert_eq!(out, "1x\n");
}

#[test]
fn scope_of_conditional_is_discarded_at_its_end() {
    let (kind, output) = run_err("if 1 is 1\nint inner = 5\ndone\nprint(inner)");
    assert_eq!(kind, ErrorKind::VariableNotFound);
    assert_eq!(output, "");
}

#[test]
fn scope_of_loop_is_discarded_at_its_end() {
    let (kind, _) = run_err("for i from 0 to 2\nint inner = 5\ndone\nprint(inner)");
    assert_eq!(kind, ErrorKind::VariableNotFound);
}

#[test]
fn unknown_function_is_fatal() {
    let (kind, _) = run_err("widget(1)");
    assert_eq!(kind, ErrorKind::UnknownFunction);
}

#[test]
fn return_outside_function_is_fatal_and_prints_nothing() {
    let (kind, output) = run_err("return 5");
    assert_eq!(kind, ErrorKind::ReturnOutsideFunction);
    assert_eq!(output, "");
}

#[test]
fn done_on_root_scope_is_fatal_and_prints_nothing() {
    let (kind, output) = run_err("done");
    assert_eq!(kind, ErrorKind::RootFrameTerminated);
    assert_eq!(output, "");
}

#[test]
fn input_pauses_then_resumes_with_the_line() {
    let src = "input(\"name? \") -> who\nprint(who)";
    let lines: Vec<String> = src.lines().map(|l| l.to_string()).collect();
    let tokens = tokenise_lines(&lines);
    let instructions = parse_lines(&tokens).expect("parse");
    let mut state = State::new();
    let outcome = state.execute(&instructions, 1_000_000);
    assert!(matches!(outcome, RunOutcome::NeedsInput));
    assert_eq!(state.take_output(), "name? ");
    state.provide_input("zed".to_string()).expect("input accepted");
    let outcome = state.execute(&instructions, 1_000_000);
    assert!(matches!(outcome, RunOutcome::Finished));
    assert_eq!(state.take_output(), "zed\n");
}

#[test]
fn builtin_booleans_are_preseeded() {
    let out = run_ok("print(true \" \" false)");
    assert_eq!(out, "true false\n");
}

#[test]
fn fuel_exhaustion_reports_running() {
    let mut state = State::new();
    let instructions = vec![Instruction::NoOp, Instruction::NoOp, Instruction::NoOp];
    let outcome = state.execute(&instructions, 2);
    assert!(matches!(outcome, RunOutcome::Running));
    let outcome = state.execute(&instructions, 10);
    assert!(matches!(outcome, RunOutcome::Finished));
}

#[test]
fn running_off_the_end_with_an_open_block_is_fatal() {
    let instructions = vec![Instruction::FromValueToValue {
        value: "i".to_string(),
        start: "0".to_string(),
        end: "2".to_string(),
    }];
    let mut state = State::new();
    let outcome = state.execute(&instructions, 100);
    match outcome {
        RunOutcome::Failed(e) => {
            assert_eq!(e.kind, ErrorKind::UnclosedBlock);
            assert_eq!(e.line, 1);
        }
        other => panic!("expected unclosed-block error, got {:?}", other),
    }
}

#[test]
fn jump_target_outside_the_program_is_fatal() {
    let instructions = vec![Instruction::IfValueIsValue {
        left_value: "1".to_string(),
        right_value: "2".to_string(),
        last_line: 99,
    }];
    let mut state = State::new();
    let outcome = state.execute(&instructions, 100);
    match outcome {
        RunOutcome::Failed(e) => assert_eq!(e.kind, ErrorKind::JumpOutOfBounds),
        other => panic!("expected jump error, got {:?}", other),
    }
}

#[test]
fn depth_limit_guards_frame_growth() {
    let src = "if 1 is 1\nif 1 is 1\nprint(\"deep\")\ndone\ndone";
    let lines: Vec<String> = src.lines().map(|l| l.to_string()).collect();
    let tokens = tokenise_lines(&lines);
    let instructions = parse_lines(&tokens).expect("parse");
    let mut state = State::with_depth_limit(2);
    let outcome = state.execute(&instructions, 1_000_000);
    match outcome {
        RunOutcome::Failed(e) => {
            assert_eq!(e.kind, ErrorKind::DepthLimitExceeded);
            assert_eq!(e.line, 1);
        }
        other => panic!("expected depth-limit error, got {:?}", other),
    }
}
