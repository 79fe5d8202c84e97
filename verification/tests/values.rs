//! Unit-level checks of the value model, the tokenizer, the classifier and
//! the standard-library dispatch.

use linescript::errors::ErrorKind;
use linescript::lexer::{tokenise_lines, Token, TokenType};
use linescript::parser::{parse_lines, Instruction};
use linescript::stdlib::{stdlib_function, StdlibOutcome};
use linescript::variables::{
    bool_to_int, int_to_bool, int_to_string, is_numeric, is_token_type_valid_type, string_to_int,
    token_type_to_variable_type, Variable, VariableType,
};

fn int_var(n: i64) -> Variable {
    Variable { variable_type: VariableType::Integer(n) }
}

fn str_var(s: &str) -> Variable {
    Variable { variable_type: VariableType::Str(s.to_string()) }
}

fn bool_var(b: bool) -> Variable {
    Variable { variable_type: VariableType::Boolean(b) }
}

#[test]
fn integer_into_string_variable_yields_decimal_text() {
    // A freshly declared string variable holds "", which counts as
    // numeric-looking, so the bridge is open.
    let mut target = str_var("");
    target.set(&int_var(5)).expect("coerces");
    assert_eq!(target.printed_string(), "5");
    target.set(&int_var(12)).expect("still numeric-looking");
    assert_eq!(target.printed_string(), "12");
}

#[test]
fn integer_into_non_numeric_string_variable_is_a_type_error() {
    let mut target = str_var("old");
    assert_eq!(target.set(&int_var(5)), Err(ErrorKind::TypeMismatch));
    assert_eq!(target.printed_string(), "old");
    assert_eq!(target.set(&bool_var(true)), Err(ErrorKind::TypeMismatch));
}

#[test]
fn numeric_text_into_integer_variable_yields_the_number() {
    let mut target = int_var(0);
    target.set(&str_var("7")).expect("coerces");
    assert_eq!(target.printed_string(), "7");
}

#[test]
fn non_numeric_text_into_integer_variable_is_a_type_error() {
    let mut target = int_var(0);
    assert_eq!(target.set(&str_var("abc")), Err(ErrorKind::TypeMismatch));
    assert_eq!(target.printed_string(), "0");
}

#[test]
fn empty_text_does_not_bridge() {
    let mut target = int_var(0);
    assert_eq!(target.set(&str_var("")), Err(ErrorKind::TypeMismatch));
}

#[test]
fn oversized_digit_text_overflows() {
    let mut target = int_var(0);
    assert_eq!(
        target.set(&str_var("99999999999999999999")),
        Err(ErrorKind::ArithmeticOverflow)
    );
}

#[test]
fn string_to_string_copies_verbatim() {
    let mut target = str_var("old");
    target.set(&str_var("not a number")).expect("verbatim");
    assert_eq!(target.printed_string(), "not a number");
}

#[test]
fn booleans_bridge_to_zero_and_one() {
    assert_eq!(bool_to_int(&false), 0);
    assert_eq!(bool_to_int(&true), 1);
    assert!(!int_to_bool(0));
    assert!(int_to_bool(3));
    let mut target = int_var(9);
    target.set(&bool_var(true)).expect("coerces");
    assert_eq!(target.printed_string(), "1");
}

#[test]
fn assignment_never_changes_the_kind() {
    let mut target = bool_var(false);
    target.set(&str_var("0")).expect("coerces");
    assert_eq!(target.printed_string(), "false");
    target.set(&int_var(7)).expect("coerces");
    assert_eq!(target.printed_string(), "true");
}

#[test]
fn conflicting_string_detection_is_symmetric() {
    assert!(int_var(1).detect_conflicting_string_types(&str_var("abc")));
    assert!(str_var("abc").detect_conflicting_string_types(&int_var(1)));
    assert!(str_var("abc").detect_conflicting_string_types(&str_var("42")));
    assert!(!int_var(1).detect_conflicting_string_types(&str_var("42")));
    assert!(!str_var("0").detect_conflicting_string_types(&int_var(1)));
    assert!(!str_var("").detect_conflicting_string_types(&int_var(1)));
    assert!(!str_var("abc").detect_conflicting_string_types(&str_var("xyz")));
}

#[test]
fn printed_strings_are_canonical() {
    assert_eq!(int_var(-12).printed_string(), "-12");
    assert_eq!(int_var(0).printed_string(), "0");
    assert_eq!(bool_var(true).printed_string(), "true");
    assert_eq!(bool_var(false).printed_string(), "false");
    assert_eq!(str_var("verbatim text").printed_string(), "verbatim text");
    assert_eq!(int_to_string(i64::MIN), "-9223372036854775808");
}

#[test]
fn digit_parsing() {
    assert_eq!(string_to_int("123"), Some(123));
    assert_eq!(string_to_int("0"), Some(0));
    assert_eq!(string_to_int("9223372036854775807"), Some(i64::MAX));
    assert_eq!(string_to_int("9223372036854775808"), None);
    assert!(is_numeric("123"));
    assert!(is_numeric(""));
    assert!(!is_numeric("12a"));
}

#[test]
fn token_numbers() {
    let t = Token { token_type: TokenType::Value, string: "42".to_string() };
    assert_eq!(t.as_number(), 42);
}

#[test]
fn type_tokens_name_kinds() {
    assert!(is_token_type_valid_type(&TokenType::Int));
    assert!(is_token_type_valid_type(&TokenType::Bool));
    assert!(is_token_type_valid_type(&TokenType::Str));
    assert!(!is_token_type_valid_type(&TokenType::Value));
    assert!(matches!(
        token_type_to_variable_type(&TokenType::Int),
        VariableType::Integer(0)
    ));
    assert!(matches!(
        token_type_to_variable_type(&TokenType::Bool),
        VariableType::Boolean(false)
    ));
}

#[test]
fn tokeniser_splits_types_and_merges_operators() {
    let lines = vec!["  int a = 5  ".to_string()];
    let tokens = tokenise_lines(&lines);
    assert_eq!(tokens.len(), 1);
    let line = &tokens[0];
    assert_eq!(line.len(), 4);
    assert!(matches!(line[0].token_type, TokenType::Int));
    assert!(matches!(line[1].token_type, TokenType::Value));
    assert_eq!(line[1].string, "a");
    assert!(matches!(line[2].token_type, TokenType::Equals));
    assert_eq!(line[3].string, "5");
}

#[test]
fn tokeniser_merges_spaced_operator_expressions() {
    let lines = vec!["x = a * b - 1".to_string()];
    let tokens = tokenise_lines(&lines);
    let line = &tokens[0];
    assert_eq!(line.len(), 3);
    assert_eq!(line[2].string, "a*b-1");
    assert!(matches!(line[2].token_type, TokenType::Value));
}

#[test]
fn tokeniser_keeps_quoted_strings_whole() {
    let lines = vec!["string s = \"a b c\"".to_string()];
    let tokens = tokenise_lines(&lines);
    let line = &tokens[0];
    assert_eq!(line.len(), 4);
    assert_eq!(line[3].string, "\"a b c\"");
}

#[test]
fn classifier_reads_every_pattern() {
    let src = "\nfor i from 0 to 9\ndone\nif a is b\ndone\nif a is not b\ndone\nfn f : int x || bool y\ndone\nint a = 1\nbool b = true\nstring c = \"t\"\na = 2\nf(1 2)\nf(1 2) -> r\nreturn 5";
    let lines: Vec<String> = src.lines().map(|l| l.to_string()).collect();
    let tokens = tokenise_lines(&lines);
    let instructions = parse_lines(&tokens).expect("parses");
    assert_eq!(instructions.len(), lines.len());
    assert!(matches!(instructions[0], Instruction::NoOp));
    assert!(matches!(instructions[1], Instruction::FromValueToValue { .. }));
    assert!(matches!(instructions[2], Instruction::Done));
    match &instructions[3] {
        Instruction::IfValueIsValue { left_value, right_value, last_line } => {
            assert_eq!(left_value, "a");
            assert_eq!(right_value, "b");
            assert_eq!(*last_line, 4);
        }
        other => panic!("expected a conditional, got {:?}", matches!(other, Instruction::NoOp)),
    }
    assert!(matches!(instructions[5], Instruction::IfValueIsNotValue { .. }));
    match &instructions[7] {
        Instruction::FunctionDeclaration { name, first_line, last_line, arguments } => {
            assert_eq!(name, "f");
            assert_eq!(*first_line, 7);
            assert_eq!(*last_line, 8);
            assert_eq!(arguments.len(), 2);
            assert_eq!(arguments[0].0, "x");
            assert!(matches!(arguments[0].1, VariableType::Integer(0)));
            assert_eq!(arguments[1].0, "y");
            assert!(matches!(arguments[1].1, VariableType::Boolean(false)));
        }
        _ => panic!("expected a declaration"),
    }
    assert!(matches!(instructions[9], Instruction::IntDeclaration { .. }));
    assert!(matches!(instructions[10], Instruction::BoolDeclaration { .. }));
    assert!(matches!(instructions[11], Instruction::StringDeclaration { .. }));
    assert!(matches!(instructions[12], Instruction::Assignment { .. }));
    match &instructions[13] {
        Instruction::FunctionCall { function, values, target_variable } => {
            assert_eq!(function, "f");
            assert_eq!(values.len(), 2);
            assert!(target_variable.is_none());
        }
        _ => panic!("expected a call"),
    }
    match &instructions[14] {
        Instruction::FunctionCall { target_variable, .. } => {
            assert_eq!(target_variable.as_deref(), Some("r"));
        }
        _ => panic!("expected a call with a target"),
    }
    assert!(matches!(instructions[15], Instruction::Return { .. }));
}

#[test]
fn stdlib_print_concatenates_and_ends_with_newline() {
    let args = vec![int_var(1), str_var("x")];
    match stdlib_function("print", &args) {
        StdlibOutcome::Printed(t) => assert_eq!(t, "1x\n"),
        _ => panic!("print must be handled"),
    }
}

#[test]
fn stdlib_input_prompts_without_newline() {
    let args = vec![str_var("? ")];
    match stdlib_function("input", &args) {
        StdlibOutcome::InputRequested(t) => assert_eq!(t, "? "),
        _ => panic!("input must be handled"),
    }
}

#[test]
fn stdlib_rejects_other_names() {
    assert!(matches!(
        stdlib_function("mystery", &Vec::new()),
        StdlibOutcome::NotHandled
    ));
}
