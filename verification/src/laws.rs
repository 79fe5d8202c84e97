//! Laws of the execution semantics.
//!
//! Each proof function here states one property of the engine's step
//! relation `crate::semantics::step_model`. The executable engine is
//! verified to take exactly those steps, so each law holds of every run of
//! the engine.

use vstd::prelude::*;

use crate::errors::ErrorKind;
use crate::operators::{contains_operator_char, is_operator_char};
use crate::parser::Instruction;
use crate::semantics::{
    bind_params, empty_scope, eval_args, eval_value_model, find_function_frame, lemma_lookup_none,
    lookup_fn, lookup_var, run_steps, step_call_model, step_done_model, step_for_model,
    step_model, step_return_model, update_var, valid_name, FrameModel, ScopeModel, StateModel,
    StepModel,
};
use crate::variables::{
    bridge_of, int_to_text, is_digit_char, is_digits, lemma_int_text_round_trip, set_model,
    ValueModel,
};

verus! {

/// A digit run holds no operator character.
proof fn lemma_digits_no_operator(s: Seq<char>)
    requires
        is_digits(s),
    ensures
        !contains_operator_char(s),
{
    assert forall|i: int| 0 <= i < s.len() implies !is_operator_char(s[i]) by {
        assert(is_digit_char(s[i]));
    }
}

/// The decimal text of a non-negative machine integer evaluates, in any
/// scopes, to that integer.
proof fn lemma_eval_int_literal(frames: Seq<ScopeModel>, n: i64)
    requires
        0 <= n,
    ensures
        eval_value_model(frames, int_to_text(n as int)) == Ok::<ValueModel, ErrorKind>(
            ValueModel::Int(n as int),
        ),
{
    lemma_int_text_round_trip(n as int);
    lemma_digits_no_operator(int_to_text(n as int));
}

/// A counting loop standing at line `h` of the program: a header with
/// literal bounds, one body line, and the block terminator. What stands on
/// the other lines does not matter: the loop never leaves its three lines
/// while it runs.
pub open spec fn counting_loop_program(
    prog: Seq<Instruction>,
    vn: Seq<char>,
    a: i64,
    b: i64,
    h: int,
) -> bool {
    &&& 0 <= h
    &&& h + 3 <= prog.len()
    &&& (prog[h] matches Instruction::FromValueToValue { value, start, end } && value@ == vn
        && start@ == int_to_text(a as int) && end@ == int_to_text(b as int))
    &&& prog[h + 1] is NoOp
    &&& prog[h + 2] is Done
}

/// The state in which the counting loop is about to run its body line with
/// the loop variable reading `v`. The loop scope holds the loop variable
/// and nothing else: everything an iteration declared is discarded at its
/// end.
pub open spec fn loop_body_state(m0: StateModel, vn: Seq<char>, b: i64, v: int) -> StateModel {
    StateModel {
        line: m0.line + 1,
        frames: m0.frames.push(
            ScopeModel {
                frame: FrameModel::ForLoop {
                    variable: vn,
                    start_line: m0.line,
                    end_value: int_to_text(b as int),
                },
                vars: Map::empty().insert(vn, ValueModel::Int(v)),
                funcs: Map::empty(),
            },
        ),
        ..m0
    }
}

/// From the body line with the loop variable at `a + k`, two steps (the
/// body line and the terminator) either reseed the loop scope and return to
/// the body with the variable incremented, or, on the last iteration, pop
/// the scope and leave the block.
proof fn lemma_loop_round(
    prog: Seq<Instruction>,
    m0: StateModel,
    vn: Seq<char>,
    a: i64,
    b: i64,
    k: int,
)
    requires
        0 <= a < b,
        counting_loop_program(prog, vn, a, b, m0.line),
        m0.pending is None,
        1 <= m0.frames.len() < m0.max_depth,
        valid_name(vn),
        0 <= k < b - a,
    ensures
        a + k + 1 < b ==> run_steps(prog, loop_body_state(m0, vn, b, a + k), 2)
            == StepModel::KeepGoing(loop_body_state(m0, vn, b, a + k + 1)),
        a + k + 1 == b ==> run_steps(prog, loop_body_state(m0, vn, b, a + k), 2)
            == StepModel::KeepGoing(StateModel { line: m0.line + 3, frames: m0.frames, ..m0 }),
{
    let body = loop_body_state(m0, vn, b, a + k);
    let mid = StateModel { line: m0.line + 2, ..body };
    assert(step_model(prog, body) == StepModel::KeepGoing(mid));
    let loopframe = ScopeModel {
        frame: FrameModel::ForLoop {
            variable: vn,
            start_line: m0.line,
            end_value: int_to_text(b as int),
        },
        vars: Map::empty().insert(vn, ValueModel::Int(a + k)),
        funcs: Map::empty(),
    };
    assert(mid.frames.last() == loopframe);
    assert(lookup_var(mid.frames, vn) == Some(ValueModel::Int(a + k)));
    lemma_eval_int_literal(mid.frames, b);
    let v1 = ValueModel::Int(a + k + 1);
    if a + k + 1 == b {
        let exit = StateModel { line: m0.line + 3, frames: m0.frames, ..m0 };
        assert(mid.frames.drop_last() =~= m0.frames);
        assert(step_done_model(mid, prog.len() as int) == StepModel::KeepGoing(
            StateModel { line: mid.line + 1, frames: mid.frames.drop_last(), ..mid },
        ));
        assert(step_model(prog, mid) == StepModel::KeepGoing(exit)) by {
            assert((StateModel { line: mid.line + 1, frames: mid.frames.drop_last(), ..mid })
                =~~= exit);
        }
        assert(run_steps(prog, exit, 0) == StepModel::KeepGoing(exit));
        assert(run_steps(prog, mid, 1) == StepModel::KeepGoing(exit));
        assert(run_steps(prog, body, 2) == StepModel::KeepGoing(exit));
    } else {
        let nextbody = loop_body_state(m0, vn, b, a + k + 1);
        let reseeded = ScopeModel {
            frame: loopframe.frame,
            vars: Map::empty().insert(vn, v1),
            funcs: Map::empty(),
        };
        let upd = update_var(mid.frames, vn, v1);
        assert(upd == mid.frames.update(
            mid.frames.len() - 1,
            ScopeModel {
                frame: loopframe.frame,
                vars: loopframe.vars.insert(vn, v1),
                funcs: loopframe.funcs,
            },
        ));
        assert(upd.update(upd.len() - 1, reseeded) =~= m0.frames.push(reseeded));
        assert(step_done_model(mid, prog.len() as int) == StepModel::KeepGoing(
            StateModel {
                line: m0.line + 1,
                frames: upd.update(upd.len() - 1, reseeded),
                ..mid
            },
        ));
        assert(step_model(prog, mid) == StepModel::KeepGoing(nextbody)) by {
            assert((StateModel {
                line: m0.line + 1,
                frames: upd.update(upd.len() - 1, reseeded),
                ..mid
            }) =~~= nextbody);
        }
        assert(run_steps(prog, nextbody, 0) == StepModel::KeepGoing(nextbody));
        assert(run_steps(prog, mid, 1) == StepModel::KeepGoing(nextbody));
        assert(run_steps(prog, body, 2) == StepModel::KeepGoing(nextbody));
    }
}

/// After `2k + 1` steps the counting loop stands at its body line for the
/// `k`-th time, the loop variable reading `a + k`.
proof fn lemma_loop_progress(
    prog: Seq<Instruction>,
    m0: StateModel,
    vn: Seq<char>,
    a: i64,
    b: i64,
    k: int,
)
    requires
        0 <= a < b,
        counting_loop_program(prog, vn, a, b, m0.line),
        m0.pending is None,
        1 <= m0.frames.len() < m0.max_depth,
        valid_name(vn),
        0 <= k < b - a,
    ensures
        run_steps(prog, m0, (2 * k + 1) as nat) == StepModel::KeepGoing(
            loop_body_state(m0, vn, b, a + k),
        ),
    decreases k,
{
    if k == 0 {
        lemma_eval_int_literal(m0.frames, a);
        lemma_eval_int_literal(m0.frames, b);
        let body = loop_body_state(m0, vn, b, a as int);
        assert(step_for_model(m0, vn, int_to_text(a as int), int_to_text(b as int))
            == StepModel::KeepGoing(body));
        assert(step_model(prog, m0) == StepModel::KeepGoing(body));
        assert(run_steps(prog, body, 0) == StepModel::KeepGoing(body));
        assert(run_steps(prog, m0, 1) == StepModel::KeepGoing(body));
    } else {
        lemma_loop_progress(prog, m0, vn, a, b, k - 1);
        lemma_loop_round(prog, m0, vn, a, b, k - 1);
        crate::semantics::lemma_run_steps_compose(
            prog,
            m0,
            (2 * (k - 1) + 1) as nat,
            2,
            loop_body_state(m0, vn, b, a + k - 1),
        );
        assert((2 * (k - 1) + 1) as nat + 2 == (2 * k + 1) as nat);
    }
}

/// A loop `for v from a to b` with `0 <= a < b`, standing at any line of
/// any program, runs its body exactly `b - a` times: the engine stands at
/// the body line exactly after `1, 3, …, 2(b-a)-1` steps, the loop
/// variable reading `a, a+1, …, b-1` on those visits, and after
/// `2(b-a) + 1` steps the loop scope is closed, the scopes are exactly the
/// ones the loop started with, and control has left the block.
pub proof fn lemma_for_loop_counts(
    prog: Seq<Instruction>,
    m0: StateModel,
    vn: Seq<char>,
    a: i64,
    b: i64,
)
    requires
        0 <= a < b,
        counting_loop_program(prog, vn, a, b, m0.line),
        m0.pending is None,
        1 <= m0.frames.len() < m0.max_depth,
        valid_name(vn),
    ensures
        forall|k: int|
            0 <= k < b - a ==> run_steps(prog, m0, (2 * k + 1) as nat) == StepModel::KeepGoing(
                #[trigger] loop_body_state(m0, vn, b, a + k),
            ),
        run_steps(prog, m0, (2 * (b - a) + 1) as nat) == StepModel::KeepGoing(
            StateModel { line: m0.line + 3, frames: m0.frames, ..m0 },
        ),
{
    assert forall|k: int| 0 <= k < b - a implies run_steps(prog, m0, (2 * k + 1) as nat)
        == StepModel::KeepGoing(#[trigger] loop_body_state(m0, vn, b, a + k)) by {
        lemma_loop_progress(prog, m0, vn, a, b, k);
    }
    let last = (b - a - 1) as int;
    lemma_loop_progress(prog, m0, vn, a, b, last);
    lemma_loop_round(prog, m0, vn, a, b, last);
    crate::semantics::lemma_run_steps_compose(
        prog,
        m0,
        (2 * last + 1) as nat,
        2,
        loop_body_state(m0, vn, b, a + last),
    );
    assert((2 * last + 1) as nat + 2 == (2 * (b - a) + 1) as nat);
}

/// A loop header whose start is not below its end runs its body zero times
/// in loop terms: no scope is pushed and the loop variable is never created.
/// Deliberately, nothing is skipped either — unlike a conditional, the
/// header never consults a block-end index, so control falls through into
/// the body's text, which then runs in the enclosing scope.
pub proof fn lemma_for_loop_not_entered(
    m: StateModel,
    value: Seq<char>,
    start: Seq<char>,
    end: Seq<char>,
    sv: ValueModel,
    ev: ValueModel,
    a: int,
    b: int,
)
    requires
        eval_value_model(m.frames, start) == Ok::<ValueModel, ErrorKind>(sv),
        eval_value_model(m.frames, end) == Ok::<ValueModel, ErrorKind>(ev),
        bridge_of(sv) == Ok::<int, ErrorKind>(a),
        bridge_of(ev) == Ok::<int, ErrorKind>(b),
        a >= b,
    ensures
        step_for_model(m, value, start, end) == StepModel::KeepGoing(
            StateModel { line: m.line + 1, ..m },
        ),
{
}

/// A call-site argument expression is evaluated before the parameter's
/// binding is created: a one-parameter call whose argument is a plain
/// variable name — possibly the parameter's own name, as in a recursive
/// call — binds the parameter to the value that name has in the calling
/// scopes, never to the parameter's own not-yet-assigned value.
pub proof fn lemma_argument_evaluated_before_binding(
    base: Seq<ScopeModel>,
    fr: FrameModel,
    pname: Seq<char>,
    pzero: ValueModel,
    argname: Seq<char>,
    cur: ValueModel,
    bound: ValueModel,
)
    requires
        lookup_var(base, argname) == Some(cur),
        !is_digits(argname),
        !contains_operator_char(argname),
        !(argname.len() >= 2 && argname[0] == '"' && argname[argname.len() - 1] == '"'),
        valid_name(pname),
        set_model(pzero, cur) == Ok::<ValueModel, ErrorKind>(bound),
    ensures
        bind_params(base, empty_scope(fr), seq![(pname, pzero)], seq![argname], 0) == Ok::<
            ScopeModel,
            ErrorKind,
        >(ScopeModel { frame: fr, vars: Map::empty().insert(pname, bound), funcs: Map::empty() }),
{
    let stack = base.push(empty_scope(fr));
    assert(!stack.last().vars.contains_key(argname));
    assert(stack.drop_last() =~= base);
    assert(lookup_var(stack, argname) == Some(cur));
    assert(eval_value_model(stack, argname) == Ok::<ValueModel, ErrorKind>(cur));
    let params = seq![(pname, pzero)];
    let vals = seq![argname];
    assert(params[0].0 == pname && params[0].1 == pzero);
    assert(vals[0] == argname);
    assert(!empty_scope(fr).vars.contains_key(pname));
    assert(bind_params(
        base,
        ScopeModel { frame: fr, vars: Map::empty().insert(pname, bound), funcs: Map::empty() },
        params,
        vals,
        1,
    ) == Ok::<ScopeModel, ErrorKind>(
        ScopeModel { frame: fr, vars: Map::empty().insert(pname, bound), funcs: Map::empty() },
    ));
}

/// Rebinding one name leaves every other name's presence untouched, in
/// every scope.
proof fn lemma_update_var_other(
    frames: Seq<ScopeModel>,
    name: Seq<char>,
    v: ValueModel,
    x: Seq<char>,
)
    requires
        x != name,
    ensures
        update_var(frames, name, v).len() == frames.len(),
        forall|j: int|
            0 <= j < frames.len() ==> ((#[trigger] update_var(frames, name, v)[j]).vars.contains_key(
                x,
            ) == frames[j].vars.contains_key(x)),
    decreases frames.len(),
{
    if frames.len() == 0 {
    } else if frames.last().vars.contains_key(name) {
    } else {
        lemma_update_var_other(frames.drop_last(), name, v, x);
        let u = update_var(frames, name, v);
        assert(u == update_var(frames.drop_last(), name, v).push(frames.last()));
        assert forall|j: int|
            0 <= j < frames.len() implies ((#[trigger] u[j]).vars.contains_key(x)
            == frames[j].vars.contains_key(x)) by {
            if j < frames.len() - 1 {
                assert(u[j] == update_var(frames.drop_last(), name, v)[j]);
                assert(frames.drop_last()[j] == frames[j]);
            } else {
                assert(u[j] == frames.last());
            }
        }
    }
}

/// A variable declared inside a conditional body is unreachable once the
/// block's terminator pops the scope: a name bound only in that scope
/// resolves nowhere afterwards.
pub proof fn lemma_conditional_scope_discarded(m: StateModel, progn: int, x: Seq<char>)
    requires
        m.frames.len() >= 2,
        m.frames.last().frame is IfStatement,
        forall|j: int|
            0 <= j < m.frames.len() - 1 ==> !(#[trigger] m.frames[j]).vars.contains_key(x),
    ensures
        step_done_model(m, progn) == StepModel::KeepGoing(
            StateModel { line: m.line + 1, frames: m.frames.drop_last(), ..m },
        ),
        lookup_var(m.frames.drop_last(), x) is None,
{
    assert forall|j: int|
        0 <= j < m.frames.drop_last().len() implies !(#[trigger] m.frames.drop_last()[j]).vars.contains_key(
        x,
    ) by {
        assert(m.frames.drop_last()[j] == m.frames[j]);
    }
    lemma_lookup_none(m.frames.drop_last(), x);
}

/// A variable declared inside a loop body is discarded when the iteration
/// ends: whether the terminator pops the finished loop or clears and
/// reseeds the scope for the next round, a name other than the loop
/// variable that was bound only in that scope resolves nowhere afterwards.
pub proof fn lemma_loop_scope_discarded(
    m: StateModel,
    progn: int,
    x: Seq<char>,
    variable: Seq<char>,
    m2: StateModel,
)
    requires
        m.frames.len() >= 2,
        m.frames.last().frame matches FrameModel::ForLoop { variable: lv, .. } && lv == variable,
        x != variable,
        forall|j: int|
            0 <= j < m.frames.len() - 1 ==> !(#[trigger] m.frames[j]).vars.contains_key(x),
        step_done_model(m, progn) == StepModel::KeepGoing(m2),
    ensures
        lookup_var(m2.frames, x) is None,
{
    assert forall|j: int|
        0 <= j < m.frames.drop_last().len() implies !(#[trigger] m.frames.drop_last()[j]).vars.contains_key(
        x,
    ) by {
        assert(m.frames.drop_last()[j] == m.frames[j]);
    }
    match lookup_var(m.frames, variable) {
        None => {
            assert(false);
        },
        Some(v) => {
            match bridge_of(v) {
                Err(_) => {
                    assert(false);
                },
                Ok(vi) => {
                    if vi + 1 > i64::MAX {
                        assert(false);
                    } else {
                        let v1 = crate::variables::with_kind_of(v, vi + 1);
                        match bridge_of(v1) {
                            Err(_) => {
                                assert(false);
                            },
                            Ok(vi1) => {
                                match m.frames.last().frame {
                                    FrameModel::ForLoop { variable: lv, start_line, end_value } => {
                                        match eval_value_model(m.frames, end_value) {
                                            Err(_) => {
                                                assert(false);
                                            },
                                            Ok(e) => {
                                                match bridge_of(e) {
                                                    Err(_) => {
                                                        assert(false);
                                                    },
                                                    Ok(ei) => {
                                                        if vi1 >= ei {
                                                            assert(m2.frames
                                                                == m.frames.drop_last());
                                                            lemma_lookup_none(m2.frames, x);
                                                        } else {
                                                            let upd = update_var(
                                                                m.frames,
                                                                variable,
                                                                v1,
                                                            );
                                                            lemma_update_var_other(
                                                                m.frames,
                                                                variable,
                                                                v1,
                                                                x,
                                                            );
                                                            assert forall|j: int|
                                                                0 <= j < m2.frames.len() implies !(
                                                            #[trigger] m2.frames[j]).vars.contains_key(
                                                                x,
                                                            ) by {
                                                                if j < m2.frames.len() - 1 {
                                                                    assert(m2.frames[j] == upd[j]);
                                                                }
                                                            }
                                                            lemma_lookup_none(m2.frames, x);
                                                        }
                                                    },
                                                }
                                            },
                                        }
                                    },
                                    _ => {
                                        assert(false);
                                    },
                                }
                            },
                        }
                    }
                },
            }
        },
    }
}

/// A call whose name neither resolves to a declared function anywhere on
/// the scope chain nor names a library primitive is a fatal
/// unknown-function error, raised only after every argument evaluated.
pub proof fn lemma_unknown_function_faults(
    m: StateModel,
    function: Seq<char>,
    values: Seq<Seq<char>>,
    target: Option<Seq<char>>,
    progn: int,
    args: Seq<ValueModel>,
)
    requires
        lookup_fn(m.frames, function) is None,
        function != "print"@,
        function != "input"@,
        eval_args(m.frames, values, 0) == Ok::<Seq<ValueModel>, ErrorKind>(args),
    ensures
        step_call_model(m, function, values, target, progn) == StepModel::Fault(
            m,
            ErrorKind::UnknownFunction,
        ),
{
}

/// A block terminator with no scope open beyond the root, and a return
/// with no function scope open, each fail with their own named error — and,
/// the step being the faulting one, the state is left exactly as it was.
pub proof fn lemma_control_errors_leave_state(m: StateModel, value: Seq<char>, progn: int)
    requires
        m.frames.len() == 1,
        m.frames[0].frame is Root,
    ensures
        step_done_model(m, progn) == StepModel::Fault(m, ErrorKind::RootFrameTerminated),
        step_return_model(m, value, progn) == StepModel::Fault(
            m,
            ErrorKind::ReturnOutsideFunction,
        ),
{
    assert(m.frames.last() == m.frames[0]);
    assert(m.frames.drop_last().len() == 0);
    assert(find_function_frame(m.frames.drop_last()) is None);
    assert(find_function_frame(m.frames) is None);
}

} // verus!
