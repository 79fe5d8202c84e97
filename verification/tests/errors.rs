//! One concrete trigger for each fatal-error kind the runtime can raise.

use linescript::engine::{RunOutcome, State};
use linescript::errors::ErrorKind;
use linescript::lexer::tokenise_lines;
use linescript::parser::parse_lines;

fn run_kind(src: &str) -> ErrorKind {
    let lines: Vec<String> = src.lines().map(|l| l.to_string()).collect();
    let tokens = tokenise_lines(&lines);
    let instructions = match parse_lines(&tokens) {
        Ok(instructions) => instructions,
        Err(e) => return e.kind,
    };
    let mut state = State::new();
    match state.execute(&instructions, 1_000_000) {
        RunOutcome::Failed(e) => e.kind,
        other => panic!("expected a fatal error, got {:?}", other),
    }
}

#[test]
fn all_digit_variable_names_are_invalid() {
    assert_eq!(run_kind("int 123 = 4"), ErrorKind::InvalidVariableName);
}

#[test]
fn operator_bearing_loop_variable_names_are_invalid() {
    assert_eq!(run_kind("for a*b from 0 to 3\ndone"), ErrorKind::InvalidVariableName);
}

#[test]
fn redeclaring_in_the_same_scope_is_fatal() {
    assert_eq!(run_kind("int a = 1\nint a = 2"), ErrorKind::VariableAlreadyExists);
}

#[test]
fn assigning_an_undeclared_name_is_fatal() {
    assert_eq!(run_kind("a = 1"), ErrorKind::VariableNotFound);
}

#[test]
fn self_referencing_initialiser_is_fatal() {
    // The initializer is evaluated before the binding exists.
    assert_eq!(run_kind("int foo = foo"), ErrorKind::VariableNotFound);
}

#[test]
fn redeclaring_a_function_in_the_same_scope_is_fatal() {
    assert_eq!(
        run_kind("fn f\ndone\nfn f\ndone"),
        ErrorKind::FunctionAlreadyDeclared
    );
}

#[test]
fn wrong_argument_count_is_fatal() {
    assert_eq!(
        run_kind("fn f : int n\nreturn n\ndone\nf() -> r"),
        ErrorKind::ArgumentCountMismatch
    );
}

#[test]
fn unknown_function_name_is_fatal() {
    assert_eq!(run_kind("launch(1)"), ErrorKind::UnknownFunction);
}

#[test]
fn return_outside_any_function_is_fatal() {
    assert_eq!(run_kind("return 1"), ErrorKind::ReturnOutsideFunction);
}

#[test]
fn terminating_the_root_scope_is_fatal() {
    assert_eq!(run_kind("done"), ErrorKind::RootFrameTerminated);
}

#[test]
fn function_ending_without_return_when_result_requested_is_fatal() {
    assert_eq!(run_kind("fn f\ndone\nf() -> r"), ErrorKind::MissingReturnValue);
}

#[test]
fn function_without_result_request_may_skip_return() {
    let lines: Vec<String> = "fn f\ndone\nf()".lines().map(|l| l.to_string()).collect();
    let tokens = tokenise_lines(&lines);
    let instructions = parse_lines(&tokens).expect("parses");
    let mut state = State::new();
    assert!(matches!(
        state.execute(&instructions, 1_000_000),
        RunOutcome::Finished
    ));
}

#[test]
fn mixing_non_numeric_text_with_numbers_is_fatal() {
    assert_eq!(run_kind("int a = \"abc\""), ErrorKind::TypeMismatch);
    assert_eq!(run_kind("int a = 1\na = \"xyz\""), ErrorKind::TypeMismatch);
}

#[test]
fn oversized_literal_is_fatal() {
    assert_eq!(
        run_kind("int a = 99999999999999999999999999"),
        ErrorKind::ArithmeticOverflow
    );
}

#[test]
fn multiplication_overflow_is_fatal() {
    assert_eq!(
        run_kind("int a = 9223372036854775807*2"),
        ErrorKind::ArithmeticOverflow
    );
}

#[test]
fn unknown_line_shape_is_a_parse_error() {
    assert_eq!(run_kind("what even is this"), ErrorKind::UnknownInstruction);
}

#[test]
fn unknown_parameter_type_is_a_parse_error() {
    assert_eq!(run_kind("fn f : widget x\ndone"), ErrorKind::UnknownParameterType);
}

#[test]
fn duplicate_parameter_name_is_a_parse_error() {
    assert_eq!(
        run_kind("fn f : int a || int a\ndone"),
        ErrorKind::DuplicateParameterName
    );
}

#[test]
fn unpaired_parameter_tokens_are_a_parse_error() {
    assert_eq!(run_kind("fn f : int\ndone"), ErrorKind::UnbalancedParameters);
}

#[test]
fn unterminated_block_is_a_parse_error() {
    assert_eq!(run_kind("if 1 is 1"), ErrorKind::UnterminatedBlock);
}

#[test]
fn error_messages_name_the_failure() {
    assert_eq!(
        ErrorKind::UnknownFunction.describe(),
        "unknown function"
    );
    assert_eq!(
        ErrorKind::TypeMismatch.describe(),
        "attempt to cast non-numeric string with other type"
    );
}
