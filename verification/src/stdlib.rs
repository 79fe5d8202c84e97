//! The standard library dispatch.
//!
//! A call whose name resolves to no user function is handed here with its
//! arguments already evaluated. The dispatch itself is pure: `print` yields
//! the text to append to the output (the arguments' printed texts, no
//! separator, one newline), `input` yields the prompt text and asks the
//! engine to pause for one line, and any other name is not handled, which
//! the engine treats as a fatal unknown-function error.

use vstd::prelude::*;
use vstd::string::*;

use crate::names::str_eq;
use crate::semantics::printed_all;
use crate::variables::{vars_view, Variable};

verus! {

/// What the standard library did with a call.
pub enum StdlibOutcome {
    /// The name is no library primitive.
    NotHandled,
    /// `print`: this text goes to the output, newline included.
    Printed(String),
    /// `input`: this prompt goes to the output and execution pauses for one
    /// line of input.
    InputRequested(String),
}

/// The printed texts of `arguments` from position `i` on, concatenated.
fn printed_concat(arguments: &Vec<Variable>) -> (r: String)
    ensures
        r@ == printed_all(vars_view(arguments@), 0),
{
    let n: usize = arguments.len();
    let mut out = String::new();
    let mut i: usize = 0;
    while i < n
        invariant
            0 <= i <= n,
            n == arguments@.len(),
            printed_all(vars_view(arguments@), 0) == out@ + printed_all(
                vars_view(arguments@),
                i as int,
            ),
        decreases n - i,
    {
        let piece = arguments[i].printed_string();
        out.append(piece.as_str());
        proof {
            assert(printed_all(vars_view(arguments@), i as int) == crate::variables::printed_of(
                vars_view(arguments@)[i as int],
            ) + printed_all(vars_view(arguments@), i as int + 1));
            assert(printed_all(vars_view(arguments@), 0) =~= out@ + printed_all(
                vars_view(arguments@),
                i as int + 1,
            ));
        }
        i = i + 1;
    }
    proof {
        assert(printed_all(vars_view(arguments@), n as int) =~= Seq::<char>::empty());
        assert(printed_all(vars_view(arguments@), 0) =~= out@);
    }
    out
}

/// Dispatches an unresolved call to the library primitives, as a pure
/// function of the name and the evaluated arguments.
pub fn stdlib_function(function: &str, arguments: &Vec<Variable>) -> (r: StdlibOutcome)
    ensures
        function@ == "print"@ ==> (r matches StdlibOutcome::Printed(t) && t@ == printed_all(
            vars_view(arguments@),
            0,
        ) + seq!['\n']),
        function@ == "input"@ ==> (r matches StdlibOutcome::InputRequested(t) && t@ == printed_all(
            vars_view(arguments@),
            0,
        )),
        function@ != "print"@ && function@ != "input"@ ==> r is NotHandled,
{
    proof {
        reveal_strlit("print");
        reveal_strlit("input");
        assert("print"@.len() == 5 && "input"@.len() == 5);
        assert("print"@[0] == 'p' && "input"@[0] == 'i');
        assert("print"@ != "input"@);
    }
    if str_eq(function, "print") {
        let mut out = printed_concat(arguments);
        out.append("\n");
        proof {
            reveal_strlit("\n");
            assert(out@ =~= printed_all(vars_view(arguments@), 0) + seq!['\n']);
        }
        StdlibOutcome::Printed(out)
    } else if str_eq(function, "input") {
        StdlibOutcome::InputRequested(printed_concat(arguments))
    } else {
        StdlibOutcome::NotHandled
    }
}

} // verus!
