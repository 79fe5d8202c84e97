//! Fatal-error taxonomy of the runtime.
//!
//! Every violated precondition of a running program is fatal: the engine
//! reports the first failure and stops. Each core operation therefore returns
//! a typed outcome instead of aborting the process; a driver turns the first
//! failure into a reported message and a non-zero exit.

use vstd::prelude::*;

verus! {

/// What went wrong. Each variant is one trigger in the runtime's error
/// taxonomy: name errors, type errors, arity errors, control errors and
/// dispatch errors, plus the guards that keep the engine itself total
/// (arithmetic range, jump targets, block structure and frame depth).
#[derive(Clone, Copy, PartialEq, Eq, Structural, Debug)]
pub enum ErrorKind {
    /// A candidate variable name is all digits, contains an operator
    /// character, or is a reserved type keyword.
    InvalidVariableName,
    /// A variable was created twice in the same frame.
    VariableAlreadyExists,
    /// A variable name was not found anywhere on the scope chain.
    VariableNotFound,
    /// A function was declared twice in the same frame.
    FunctionAlreadyDeclared,
    /// A user-function call passed the wrong number of arguments.
    ArgumentCountMismatch,
    /// A called name is neither a user function nor a library primitive.
    UnknownFunction,
    /// `return` executed with no function frame open.
    ReturnOutsideFunction,
    /// A block terminator executed with no frame open at all.
    EndBlockWithoutFrame,
    /// A block terminator tried to close the root scope.
    RootFrameTerminated,
    /// A function frame closed without executing `return`, although the
    /// caller requested a result.
    MissingReturnValue,
    /// A non-numeric string met another kind on assignment or comparison.
    TypeMismatch,
    /// An arithmetic result or a numeric literal does not fit the integer
    /// value kind.
    ArithmeticOverflow,
    /// The program counter was sent past the end of the instruction array.
    JumpOutOfBounds,
    /// Execution ran off the end of the program while a frame other than the
    /// root was still open.
    UnclosedBlock,
    /// The configured frame-depth limit was reached.
    DepthLimitExceeded,
    /// A line's token sequence matches no instruction pattern.
    UnknownInstruction,
    /// A function declaration names a parameter type that is not a kind.
    UnknownParameterType,
    /// A function declaration repeats a parameter name.
    DuplicateParameterName,
    /// A function declaration's parameter list pairs up unevenly.
    UnbalancedParameters,
    /// A block opened on some line never reaches its terminator.
    UnterminatedBlock,
}

/// A fatal error: what went wrong and the 0-based instruction index at which
/// it was detected.
#[derive(Clone, Copy, PartialEq, Eq, Structural, Debug)]
pub struct Error {
    /// The kind of failure.
    pub kind: ErrorKind,
    /// The 0-based index of the instruction that was executing.
    pub line: usize,
}

impl ErrorKind {
    /// A short human-readable description of this failure kind.
    pub fn describe(&self) -> (r: &'static str)
        ensures
            r@ == spec_describe(*self),
    {
        match self {
            ErrorKind::InvalidVariableName => "invalid variable name",
            ErrorKind::VariableAlreadyExists => "variable already exists",
            ErrorKind::VariableNotFound => "variable does not exist",
            ErrorKind::FunctionAlreadyDeclared => "function already declared",
            ErrorKind::ArgumentCountMismatch => "invalid number of function arguments",
            ErrorKind::UnknownFunction => "unknown function",
            ErrorKind::ReturnOutsideFunction => "cannot return outside of a function",
            ErrorKind::EndBlockWithoutFrame => "no appropriate frame",
            ErrorKind::RootFrameTerminated => "attempt to terminate root frame",
            ErrorKind::MissingReturnValue => "function did not return valid value",
            ErrorKind::TypeMismatch => "attempt to cast non-numeric string with other type",
            ErrorKind::ArithmeticOverflow => "integer value out of range",
            ErrorKind::JumpOutOfBounds => "jump target outside the program",
            ErrorKind::UnclosedBlock => "a block was never terminated",
            ErrorKind::DepthLimitExceeded => "frame depth limit exceeded",
            ErrorKind::UnknownInstruction => "unknown instruction",
            ErrorKind::UnknownParameterType => "unknown variable type in function declaration",
            ErrorKind::DuplicateParameterName => "duplicate variable name in function declaration",
            ErrorKind::UnbalancedParameters => "unbalanced arguments in function declaration",
            ErrorKind::UnterminatedBlock => "frame does not terminate",
        }
    }
}

/// The text that `ErrorKind::describe` returns for each kind.
pub open spec fn spec_describe(k: ErrorKind) -> Seq<char> {
    match k {
        ErrorKind::InvalidVariableName => "invalid variable name"@,
        ErrorKind::VariableAlreadyExists => "variable already exists"@,
        ErrorKind::VariableNotFound => "variable does not exist"@,
        ErrorKind::FunctionAlreadyDeclared => "function already declared"@,
        ErrorKind::ArgumentCountMismatch => "invalid number of function arguments"@,
        ErrorKind::UnknownFunction => "unknown function"@,
        ErrorKind::ReturnOutsideFunction => "cannot return outside of a function"@,
        ErrorKind::EndBlockWithoutFrame => "no appropriate frame"@,
        ErrorKind::RootFrameTerminated => "attempt to terminate root frame"@,
        ErrorKind::MissingReturnValue => "function did not return valid value"@,
        ErrorKind::TypeMismatch => "attempt to cast non-numeric string with other type"@,
        ErrorKind::ArithmeticOverflow => "integer value out of range"@,
        ErrorKind::JumpOutOfBounds => "jump target outside the program"@,
        ErrorKind::UnclosedBlock => "a block was never terminated"@,
        ErrorKind::DepthLimitExceeded => "frame depth limit exceeded"@,
        ErrorKind::UnknownInstruction => "unknown instruction"@,
        ErrorKind::UnknownParameterType => "unknown variable type in function declaration"@,
        ErrorKind::DuplicateParameterName => "duplicate variable name in function declaration"@,
        ErrorKind::UnbalancedParameters => "unbalanced arguments in function declaration"@,
        ErrorKind::UnterminatedBlock => "frame does not terminate"@,
    }
}

} // verus!
