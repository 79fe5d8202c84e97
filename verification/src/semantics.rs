//! The mathematical semantics of the execution engine.
//!
//! Everything the engine does is defined here, once, as a pure function from
//! an interpreter state and an instruction array to the next state: each
//! instruction either continues to a successor state, pauses for a line of
//! input, completes the run, or stops with a fatal error that leaves the
//! state untouched. The executable engine is verified to take exactly these
//! steps, so every property proved of `step_model` holds of the engine.

use vstd::prelude::*;

use crate::errors::ErrorKind;
use crate::lexer::TokenType;
use crate::operators::{
    contains_operator_char, fold_model, is_operator_char, spec_operator_char_token, ExprItemModel,
};
use crate::parser::Instruction;
use crate::variables::{
    bridge_of, chars_all_digits, digits_value, is_digits, printed_of, set_model, ValueModel,
    VariableType,
};

verus! {

/// A declared function: the line of its declaration and its parameter list
/// of (name, kind-zero-value) pairs.
#[verifier::ext_equal]
pub struct FunctionModel {
    pub entry: int,
    pub params: Seq<(Seq<char>, ValueModel)>,
}

/// The kind of one open lexical scope.
#[verifier::ext_equal]
pub enum FrameModel {
    /// The one outermost scope, created at program start and never closed.
    Root,
    /// A loop body scope, remembering the header line and the end
    /// expression's text.
    ForLoop { variable: Seq<char>, start_line: int, end_value: Seq<char> },
    /// A function body scope, remembering the call site and the variable the
    /// caller wants the result in.
    Function { caller_line: int, target_variable: Option<Seq<char>> },
    /// A conditional body scope.
    IfStatement,
}

/// One open scope: its kind and its own variable and function bindings.
#[verifier::ext_equal]
pub struct ScopeModel {
    pub frame: FrameModel,
    pub vars: Map<Seq<char>, ValueModel>,
    pub funcs: Map<Seq<char>, FunctionModel>,
}

/// The whole interpreter state: the program counter, the stack of open
/// scopes (last entry innermost), the text printed so far, the pending input
/// request if execution is paused on one, and the configured frame-depth
/// limit.
#[verifier::ext_equal]
pub struct StateModel {
    pub line: int,
    pub frames: Seq<ScopeModel>,
    pub output: Seq<char>,
    pub pending: Option<Option<Seq<char>>>,
    pub max_depth: int,
}

/// What one step of the engine does.
#[verifier::ext_equal]
pub enum StepModel {
    /// Execution continues in the given state.
    KeepGoing(StateModel),
    /// Execution paused asking for one line of input.
    AwaitInput(StateModel),
    /// The program ran off its end with only the root scope open.
    Complete(StateModel),
    /// A fatal error; the state is the one the step started from, untouched.
    Fault(StateModel, ErrorKind),
}

/// A scope with no bindings at all.
pub open spec fn empty_scope(frame: FrameModel) -> ScopeModel {
    ScopeModel { frame, vars: Map::empty(), funcs: Map::empty() }
}

/// Whether `s` may name a variable: not a pure digit run (the empty text
/// counts as one), no operator character, and not a reserved type keyword.
pub open spec fn valid_name(s: Seq<char>) -> bool {
    &&& !chars_all_digits(s)
    &&& !contains_operator_char(s)
    &&& s != "int"@
    &&& s != "bool"@
    &&& s != "string"@
}

/// The value bound to `name` in the innermost scope that binds it.
pub open spec fn lookup_var(frames: Seq<ScopeModel>, name: Seq<char>) -> Option<ValueModel>
    decreases frames.len(),
{
    if frames.len() == 0 {
        None
    } else if frames.last().vars.contains_key(name) {
        Some(frames.last().vars[name])
    } else {
        lookup_var(frames.drop_last(), name)
    }
}

/// The scope stack with `name` rebound to `v` in the innermost scope that
/// binds it (unchanged when none does).
pub open spec fn update_var(frames: Seq<ScopeModel>, name: Seq<char>, v: ValueModel) -> Seq<
    ScopeModel,
>
    decreases frames.len(),
{
    if frames.len() == 0 {
        frames
    } else if frames.last().vars.contains_key(name) {
        frames.update(
            frames.len() - 1,
            ScopeModel {
                frame: frames.last().frame,
                vars: frames.last().vars.insert(name, v),
                funcs: frames.last().funcs,
            },
        )
    } else {
        update_var(frames.drop_last(), name, v).push(frames.last())
    }
}

/// The function bound to `name` in the innermost scope that declares it.
pub open spec fn lookup_fn(frames: Seq<ScopeModel>, name: Seq<char>) -> Option<FunctionModel>
    decreases frames.len(),
{
    if frames.len() == 0 {
        None
    } else if frames.last().funcs.contains_key(name) {
        Some(frames.last().funcs[name])
    } else {
        lookup_fn(frames.drop_last(), name)
    }
}

/// The index of the innermost function scope, if any is open.
pub open spec fn find_function_frame(frames: Seq<ScopeModel>) -> Option<int>
    decreases frames.len(),
{
    if frames.len() == 0 {
        None
    } else if frames.last().frame is Function {
        Some(frames.len() - 1)
    } else {
        find_function_frame(frames.drop_last())
    }
}

/// A scope below every scope that lacks a binding is where the chain lookup
/// ends up.
pub proof fn lemma_lookup_at(frames: Seq<ScopeModel>, name: Seq<char>, i: int)
    requires
        0 <= i < frames.len(),
        frames[i].vars.contains_key(name),
        forall|k: int| i < k < frames.len() ==> !(#[trigger] frames[k]).vars.contains_key(name),
    ensures
        lookup_var(frames, name) == Some(frames[i].vars[name]),
    decreases frames.len(),
{
    if i == frames.len() - 1 {
    } else {
        assert(!frames.last().vars.contains_key(name));
        assert(frames.drop_last()[i] == frames[i]);
        lemma_lookup_at(frames.drop_last(), name, i);
    }
}

/// With no scope binding the name, the chain lookup fails.
pub proof fn lemma_lookup_none(frames: Seq<ScopeModel>, name: Seq<char>)
    requires
        forall|k: int| 0 <= k < frames.len() ==> !(#[trigger] frames[k]).vars.contains_key(name),
    ensures
        lookup_var(frames, name) is None,
    decreases frames.len(),
{
    if frames.len() > 0 {
        lemma_lookup_none(frames.drop_last(), name);
    }
}

/// Rebinding through the chain patches exactly the innermost binding scope.
pub proof fn lemma_update_at(
    frames: Seq<ScopeModel>,
    name: Seq<char>,
    v: crate::variables::ValueModel,
    i: int,
)
    requires
        0 <= i < frames.len(),
        frames[i].vars.contains_key(name),
        forall|k: int| i < k < frames.len() ==> !(#[trigger] frames[k]).vars.contains_key(name),
    ensures
        update_var(frames, name, v) == frames.update(
            i,
            ScopeModel {
                frame: frames[i].frame,
                vars: frames[i].vars.insert(name, v),
                funcs: frames[i].funcs,
            },
        ),
    decreases frames.len(),
{
    let patched = ScopeModel {
        frame: frames[i].frame,
        vars: frames[i].vars.insert(name, v),
        funcs: frames[i].funcs,
    };
    if i == frames.len() - 1 {
    } else {
        assert(!frames.last().vars.contains_key(name));
        assert(frames.drop_last()[i] == frames[i]);
        lemma_update_at(frames.drop_last(), name, v, i);
        assert(update_var(frames, name, v) == update_var(frames.drop_last(), name, v).push(
            frames.last(),
        ));
        assert(update_var(frames, name, v) =~= frames.update(i, patched));
    }
}

/// A scope below every scope that lacks a declaration is where the function
/// lookup ends up.
pub proof fn lemma_lookup_fn_at(frames: Seq<ScopeModel>, name: Seq<char>, i: int)
    requires
        0 <= i < frames.len(),
        frames[i].funcs.contains_key(name),
        forall|k: int| i < k < frames.len() ==> !(#[trigger] frames[k]).funcs.contains_key(name),
    ensures
        lookup_fn(frames, name) == Some(frames[i].funcs[name]),
    decreases frames.len(),
{
    if i == frames.len() - 1 {
    } else {
        assert(!frames.last().funcs.contains_key(name));
        assert(frames.drop_last()[i] == frames[i]);
        lemma_lookup_fn_at(frames.drop_last(), name, i);
    }
}

/// With no scope declaring the name, the function lookup fails.
pub proof fn lemma_lookup_fn_none(frames: Seq<ScopeModel>, name: Seq<char>)
    requires
        forall|k: int| 0 <= k < frames.len() ==> !(#[trigger] frames[k]).funcs.contains_key(name),
    ensures
        lookup_fn(frames, name) is None,
    decreases frames.len(),
{
    if frames.len() > 0 {
        lemma_lookup_fn_none(frames.drop_last(), name);
    }
}

/// The innermost function scope is the one the search finds.
pub proof fn lemma_find_fn_at(frames: Seq<ScopeModel>, i: int)
    requires
        0 <= i < frames.len(),
        frames[i].frame is Function,
        forall|k: int| i < k < frames.len() ==> !((#[trigger] frames[k]).frame is Function),
    ensures
        find_function_frame(frames) == Some(i),
    decreases frames.len(),
{
    if i == frames.len() - 1 {
    } else {
        assert(!(frames.last().frame is Function));
        assert(frames.drop_last()[i] == frames[i]);
        lemma_find_fn_at(frames.drop_last(), i);
    }
}

/// With no function scope open, the search fails.
pub proof fn lemma_find_fn_none(frames: Seq<ScopeModel>)
    requires
        forall|k: int| 0 <= k < frames.len() ==> !((#[trigger] frames[k]).frame is Function),
    ensures
        find_function_frame(frames) is None,
    decreases frames.len(),
{
    if frames.len() > 0 {
        lemma_find_fn_none(frames.drop_last());
    }
}

/// What a textual value with no operator characters evaluates to: a digit
/// run is an integer literal, matching double quotes delimit a string
/// literal, and anything else is a variable name resolved through the scope
/// chain.
pub open spec fn eval_inner_model(frames: Seq<ScopeModel>, s: Seq<char>) -> Result<
    ValueModel,
    ErrorKind,
> {
    if is_digits(s) {
        if digits_value(s) <= i64::MAX {
            Ok(ValueModel::Int(digits_value(s)))
        } else {
            Err(ErrorKind::ArithmeticOverflow)
        }
    } else if s.len() >= 2 && s[0] == '"' && s[s.len() - 1] == '"' {
        Ok(ValueModel::Text(s.subrange(1, s.len() - 1)))
    } else {
        match lookup_var(frames, s) {
            Some(v) => Ok(v),
            None => Err(ErrorKind::VariableNotFound),
        }
    }
}

/// The split of the text `s` from position `i` on (current word started at
/// position `w`) into evaluated operands and operator tokens: each operator
/// character flushes the word before it — the operator character itself
/// excluded — as one operand and is recorded, and the end of the text
/// flushes the rest; an operator standing last is recorded dangling, and
/// the fold ignores it.
pub open spec fn eval_split(
    frames: Seq<ScopeModel>,
    s: Seq<char>,
    w: int,
    i: int,
) -> Result<Seq<ExprItemModel>, ErrorKind>
    decreases s.len() - i,
{
    if i < 0 || i >= s.len() {
        Ok(Seq::empty())
    } else if i == s.len() - 1 {
        let word = if is_operator_char(s[i]) {
            s.subrange(w, i)
        } else {
            s.subrange(w, i + 1)
        };
        match eval_inner_model(frames, word) {
            Err(k) => Err(k),
            Ok(v) => {
                if is_operator_char(s[i]) {
                    Ok(
                        seq![
                            ExprItemModel::Operand(v),
                            ExprItemModel::Operator(spec_operator_char_token(s[i])),
                        ],
                    )
                } else {
                    Ok(seq![ExprItemModel::Operand(v)])
                }
            },
        }
    } else if is_operator_char(s[i]) {
        match eval_inner_model(frames, s.subrange(w, i)) {
            Err(k) => Err(k),
            Ok(v) => match eval_split(frames, s, i + 1, i + 1) {
                Err(k) => Err(k),
                Ok(rest) => Ok(
                    seq![
                        ExprItemModel::Operand(v),
                        ExprItemModel::Operator(spec_operator_char_token(s[i])),
                    ] + rest,
                ),
            },
        }
    } else {
        eval_split(frames, s, w, i + 1)
    }
}

/// A successful split is a well-formed expression: non-empty (when started
/// inside the text) and alternating between operands and supported
/// operators, so the left-to-right fold is defined on it.
pub proof fn lemma_eval_split_wf(frames: Seq<ScopeModel>, s: Seq<char>, w: int, i: int)
    ensures
        match eval_split(frames, s, w, i) {
            Ok(items) => {
                &&& (0 <= i < s.len() ==> items.len() >= 1)
                &&& forall|j: int|
                    0 <= j < items.len() ==> if j % 2 == 0 {
                        items[j] is Operand
                    } else {
                        items[j] matches ExprItemModel::Operator(t)
                            && crate::operators::spec_is_operator_token(t)
                    }
            },
            Err(_) => true,
        },
    decreases s.len() - i,
{
    if i < 0 || i >= s.len() {
    } else if i == s.len() - 1 {
        match eval_inner_model(frames, s.subrange(w, i + 1)) {
            Err(_) => {},
            Ok(v) => {
                if is_operator_char(s[i]) {
                    assert(crate::operators::spec_is_operator_token(
                        spec_operator_char_token(s[i]),
                    ));
                }
            },
        }
    } else if is_operator_char(s[i]) {
        match eval_inner_model(frames, s.subrange(w, i)) {
            Err(_) => {},
            Ok(v) => {
                lemma_eval_split_wf(frames, s, i + 1, i + 1);
                match eval_split(frames, s, i + 1, i + 1) {
                    Err(_) => {},
                    Ok(rest) => {
                        let items = seq![
                            ExprItemModel::Operand(v),
                            ExprItemModel::Operator(spec_operator_char_token(s[i])),
                        ] + rest;
                        assert(crate::operators::spec_is_operator_token(
                            spec_operator_char_token(s[i]),
                        ));
                        assert forall|j: int| 0 <= j < items.len() implies if j % 2 == 0 {
                            items[j] is Operand
                        } else {
                            items[j] matches ExprItemModel::Operator(t)
                                && crate::operators::spec_is_operator_token(t)
                        } by {
                            if j >= 2 {
                                assert(items[j] == rest[j - 2]);
                                assert((j - 2) % 2 == j % 2);
                            }
                        }
                    },
                }
            },
        }
    } else {
        lemma_eval_split_wf(frames, s, w, i + 1);
    }
}

/// What the textual value `s` evaluates to in the given scope stack: read
/// directly as an inner value when it holds no operator character, otherwise
/// split into operands and operators and folded strictly left to right.
pub open spec fn eval_value_model(frames: Seq<ScopeModel>, s: Seq<char>) -> Result<
    ValueModel,
    ErrorKind,
> {
    if !contains_operator_char(s) {
        eval_inner_model(frames, s)
    } else {
        match eval_split(frames, s, 0, 0) {
            Err(k) => Err(k),
            Ok(items) => fold_model(items),
        }
    }
}

/// The views of a sequence of strings.
pub open spec fn strings_view(s: Seq<String>) -> Seq<Seq<char>> {
    s.map_values(|x: String| x@)
}

/// The views of a parameter list.
pub open spec fn params_view(s: Seq<(String, VariableType)>) -> Seq<(Seq<char>, ValueModel)> {
    s.map_values(|p: (String, VariableType)| (p.0@, p.1@))
}

/// The view of an optional variable name.
pub open spec fn opt_name_view(o: Option<String>) -> Option<Seq<char>> {
    match o {
        Some(s) => Some(s@),
        None => None,
    }
}

/// The evaluation, in order, of the call arguments from position `i` on;
/// the first failing argument decides the error.
pub open spec fn eval_args(frames: Seq<ScopeModel>, vals: Seq<Seq<char>>, i: int) -> Result<
    Seq<ValueModel>,
    ErrorKind,
>
    decreases vals.len() - i,
{
    if i < 0 || i >= vals.len() {
        Ok(Seq::empty())
    } else {
        match eval_value_model(frames, vals[i]) {
            Err(k) => Err(k),
            Ok(v) => match eval_args(frames, vals, i + 1) {
                Err(k) => Err(k),
                Ok(rest) => Ok(seq![v] + rest),
            },
        }
    }
}

/// The printed text of the arguments from position `i` on, concatenated
/// with no separator.
pub open spec fn printed_all(args: Seq<ValueModel>, i: int) -> Seq<char>
    decreases args.len() - i,
{
    if i < 0 || i >= args.len() {
        Seq::empty()
    } else {
        printed_of(args[i]) + printed_all(args, i + 1)
    }
}

/// The function scope being built by a call: each argument is evaluated with
/// the caller's scopes plus the partially filled new scope on top — so an
/// argument never reads a parameter bound after it, and in particular a
/// recursive call's argument still reads the caller's own binding of a
/// same-named parameter — and is then bound, coerced into the parameter's
/// declared kind, as the parameter's initial value.
pub open spec fn bind_params(
    base: Seq<ScopeModel>,
    newf: ScopeModel,
    params: Seq<(Seq<char>, ValueModel)>,
    vals: Seq<Seq<char>>,
    i: int,
) -> Result<ScopeModel, ErrorKind>
    decreases params.len() - i,
{
    if i < 0 || i >= params.len() || params.len() != vals.len() {
        Ok(newf)
    } else {
        match eval_value_model(base.push(newf), vals[i]) {
            Err(k) => Err(k),
            Ok(v) => {
                if !valid_name(params[i].0) {
                    Err(ErrorKind::InvalidVariableName)
                } else if newf.vars.contains_key(params[i].0) {
                    Err(ErrorKind::VariableAlreadyExists)
                } else {
                    match set_model(params[i].1, v) {
                        Err(k) => Err(k),
                        Ok(bound) => bind_params(
                            base,
                            ScopeModel {
                                frame: newf.frame,
                                vars: newf.vars.insert(params[i].0, bound),
                                funcs: newf.funcs,
                            },
                            params,
                            vals,
                            i + 1,
                        ),
                    }
                }
            },
        }
    }
}

/// The scope stack after storing `v` into `name`: rebound through the scope
/// chain, with coercion, when the name exists; created in the innermost
/// scope, carrying `v` as it is, when it does not.
pub open spec fn create_or_set(frames: Seq<ScopeModel>, name: Seq<char>, v: ValueModel) -> Result<
    Seq<ScopeModel>,
    ErrorKind,
> {
    if frames.len() == 0 {
        Err(ErrorKind::EndBlockWithoutFrame)
    } else {
        match lookup_var(frames, name) {
            Some(cur) => match set_model(cur, v) {
                Err(k) => Err(k),
                Ok(v2) => Ok(update_var(frames, name, v2)),
            },
            None => {
                if !valid_name(name) {
                    Err(ErrorKind::InvalidVariableName)
                } else {
                    Ok(
                        frames.update(
                            frames.len() - 1,
                            ScopeModel {
                                frame: frames.last().frame,
                                vars: frames.last().vars.insert(name, v),
                                funcs: frames.last().funcs,
                            },
                        ),
                    )
                }
            },
        }
    }
}

/// The loop header's step: both bounds are evaluated and bridged; when the
/// start is below the end a loop scope is pushed with the loop variable, an
/// integer, set to the evaluated start; otherwise nothing at all happens and
/// control simply falls through into the body's text, which then runs in the
/// enclosing scope — the header does not jump over it.
pub open spec fn step_for_model(
    m: StateModel,
    value: Seq<char>,
    start: Seq<char>,
    end: Seq<char>,
) -> StepModel {
    match eval_value_model(m.frames, start) {
        Err(k) => StepModel::Fault(m, k),
        Ok(sv) => match eval_value_model(m.frames, end) {
            Err(k) => StepModel::Fault(m, k),
            Ok(ev) => match bridge_of(sv) {
                Err(k) => StepModel::Fault(m, k),
                Ok(a) => match bridge_of(ev) {
                    Err(k) => StepModel::Fault(m, k),
                    Ok(b) => {
                        if a < b {
                            if !valid_name(value) {
                                StepModel::Fault(m, ErrorKind::InvalidVariableName)
                            } else if m.frames.len() >= m.max_depth {
                                StepModel::Fault(m, ErrorKind::DepthLimitExceeded)
                            } else {
                                let fr = ScopeModel {
                                    frame: FrameModel::ForLoop {
                                        variable: value,
                                        start_line: m.line,
                                        end_value: end,
                                    },
                                    vars: Map::empty().insert(value, ValueModel::Int(a)),
                                    funcs: Map::empty(),
                                };
                                StepModel::KeepGoing(
                                    StateModel {
                                        line: m.line + 1,
                                        frames: m.frames.push(fr),
                                        ..m
                                    },
                                )
                            }
                        } else {
                            StepModel::KeepGoing(StateModel { line: m.line + 1, ..m })
                        }
                    },
                },
            },
        },
    }
}

/// The conditional header's step: both sides are evaluated and bridged and
/// compared as canonical integers; when the predicate holds a conditional
/// scope is pushed and control falls into the block, otherwise the counter
/// jumps directly past the block's terminator and no scope is pushed.
pub open spec fn step_if_model(
    m: StateModel,
    left: Seq<char>,
    right: Seq<char>,
    last_line: int,
    negated: bool,
    progn: int,
) -> StepModel {
    match eval_value_model(m.frames, left) {
        Err(k) => StepModel::Fault(m, k),
        Ok(l) => match eval_value_model(m.frames, right) {
            Err(k) => StepModel::Fault(m, k),
            Ok(r) => match bridge_of(l) {
                Err(k) => StepModel::Fault(m, k),
                Ok(a) => match bridge_of(r) {
                    Err(k) => StepModel::Fault(m, k),
                    Ok(b) => {
                        let holds = if negated {
                            a != b
                        } else {
                            a == b
                        };
                        if holds {
                            if m.frames.len() >= m.max_depth {
                                StepModel::Fault(m, ErrorKind::DepthLimitExceeded)
                            } else {
                                StepModel::KeepGoing(
                                    StateModel {
                                        line: m.line + 1,
                                        frames: m.frames.push(
                                            empty_scope(FrameModel::IfStatement),
                                        ),
                                        ..m
                                    },
                                )
                            }
                        } else if last_line + 1 > progn {
                            StepModel::Fault(m, ErrorKind::JumpOutOfBounds)
                        } else {
                            StepModel::KeepGoing(StateModel { line: last_line + 1, ..m })
                        }
                    },
                },
            },
        },
    }
}

/// A declaration's step: the initializer is evaluated before the binding
/// exists (so a self-referencing initializer fails with a name error), the
/// name is validated and must be new in the innermost scope, and the value
/// is coerced into the declared kind.
pub open spec fn step_decl_model(
    m: StateModel,
    name: Seq<char>,
    value: Seq<char>,
    zero: ValueModel,
) -> StepModel {
    match eval_value_model(m.frames, value) {
        Err(k) => StepModel::Fault(m, k),
        Ok(v) => {
            if !valid_name(name) {
                StepModel::Fault(m, ErrorKind::InvalidVariableName)
            } else if m.frames.last().vars.contains_key(name) {
                StepModel::Fault(m, ErrorKind::VariableAlreadyExists)
            } else {
                match set_model(zero, v) {
                    Err(k) => StepModel::Fault(m, k),
                    Ok(v2) => StepModel::KeepGoing(
                        StateModel {
                            line: m.line + 1,
                            frames: m.frames.update(
                                m.frames.len() - 1,
                                ScopeModel {
                                    frame: m.frames.last().frame,
                                    vars: m.frames.last().vars.insert(name, v2),
                                    funcs: m.frames.last().funcs,
                                },
                            ),
                            ..m
                        },
                    ),
                }
            }
        },
    }
}

/// An assignment's step: the right-hand side is evaluated, the name must
/// already exist on the scope chain, and the found variable is rebound to
/// the value coerced into its own kind.
pub open spec fn step_assign_model(m: StateModel, name: Seq<char>, value: Seq<char>) -> StepModel {
    match eval_value_model(m.frames, value) {
        Err(k) => StepModel::Fault(m, k),
        Ok(v) => match lookup_var(m.frames, name) {
            None => StepModel::Fault(m, ErrorKind::VariableNotFound),
            Some(cur) => match set_model(cur, v) {
                Err(k) => StepModel::Fault(m, k),
                Ok(v2) => StepModel::KeepGoing(
                    StateModel {
                        line: m.line + 1,
                        frames: update_var(m.frames, name, v2),
                        ..m
                    },
                ),
            },
        },
    }
}

/// A function declaration's step: the function is registered in the
/// innermost scope — a duplicate in that scope is fatal — and the counter
/// jumps to the block terminator so the body only ever runs through a call.
pub open spec fn step_fn_decl_model(
    m: StateModel,
    name: Seq<char>,
    first_line: int,
    last_line: int,
    params: Seq<(Seq<char>, ValueModel)>,
    progn: int,
) -> StepModel {
    if m.frames.last().funcs.contains_key(name) {
        StepModel::Fault(m, ErrorKind::FunctionAlreadyDeclared)
    } else if last_line + 1 > progn {
        StepModel::Fault(m, ErrorKind::JumpOutOfBounds)
    } else {
        StepModel::KeepGoing(
            StateModel {
                line: last_line + 1,
                frames: m.frames.update(
                    m.frames.len() - 1,
                    ScopeModel {
                        frame: m.frames.last().frame,
                        vars: m.frames.last().vars,
                        funcs: m.frames.last().funcs.insert(
                            name,
                            FunctionModel { entry: first_line, params },
                        ),
                    },
                ),
                ..m
            },
        )
    }
}

/// A call's step. A user function found on the scope chain gets a new
/// function scope with its parameters bound from the argument expressions;
/// execution jumps into its body. An unresolved name is handed to the
/// standard library with all arguments evaluated first: `print` appends the
/// arguments' printed texts and a newline to the output, `input` appends
/// them without a newline and pauses execution for one line of input, and
/// any other name is an unknown-function error.
pub open spec fn step_call_model(
    m: StateModel,
    function: Seq<char>,
    values: Seq<Seq<char>>,
    target: Option<Seq<char>>,
    progn: int,
) -> StepModel {
    match lookup_fn(m.frames, function) {
        Some(info) => {
            if info.params.len() != values.len() {
                StepModel::Fault(m, ErrorKind::ArgumentCountMismatch)
            } else if m.frames.len() >= m.max_depth {
                StepModel::Fault(m, ErrorKind::DepthLimitExceeded)
            } else if info.entry + 1 > progn || info.entry < 0 {
                StepModel::Fault(m, ErrorKind::JumpOutOfBounds)
            } else {
                let newf0 = empty_scope(
                    FrameModel::Function { caller_line: m.line, target_variable: target },
                );
                match bind_params(m.frames, newf0, info.params, values, 0) {
                    Err(k) => StepModel::Fault(m, k),
                    Ok(newf) => StepModel::KeepGoing(
                        StateModel { line: info.entry + 1, frames: m.frames.push(newf), ..m },
                    ),
                }
            }
        },
        None => match eval_args(m.frames, values, 0) {
            Err(k) => StepModel::Fault(m, k),
            Ok(args) => {
                if function == "print"@ {
                    StepModel::KeepGoing(
                        StateModel {
                            line: m.line + 1,
                            output: m.output + printed_all(args, 0) + seq!['\n'],
                            ..m
                        },
                    )
                } else if function == "input"@ {
                    StepModel::AwaitInput(
                        StateModel {
                            line: m.line + 1,
                            output: m.output + printed_all(args, 0),
                            pending: Some(target),
                            ..m
                        },
                    )
                } else {
                    StepModel::Fault(m, ErrorKind::UnknownFunction)
                }
            },
        },
    }
}

/// A return's step: the innermost function scope is found — returning with
/// none open is fatal — and, when the call asked for a result, the return
/// expression is evaluated before any scope is destroyed; every scope above
/// and including the function scope is then popped, the result is stored in
/// the caller's scopes, and control resumes after the call site.
pub open spec fn step_return_model(m: StateModel, value: Seq<char>, progn: int) -> StepModel {
    match find_function_frame(m.frames) {
        None => StepModel::Fault(m, ErrorKind::ReturnOutsideFunction),
        Some(k) => match m.frames[k].frame {
            FrameModel::Function { caller_line, target_variable } => {
                if caller_line + 1 > progn || caller_line < 0 {
                    StepModel::Fault(m, ErrorKind::JumpOutOfBounds)
                } else {
                    match target_variable {
                        None => StepModel::KeepGoing(
                            StateModel { line: caller_line + 1, frames: m.frames.take(k), ..m },
                        ),
                        Some(t) => match eval_value_model(m.frames, value) {
                            Err(kk) => StepModel::Fault(m, kk),
                            Ok(v) => match create_or_set(m.frames.take(k), t, v) {
                                Err(kk) => StepModel::Fault(m, kk),
                                Ok(frames2) => StepModel::KeepGoing(
                                    StateModel { line: caller_line + 1, frames: frames2, ..m },
                                ),
                            },
                        },
                    }
                }
            },
            _ => StepModel::Fault(m, ErrorKind::ReturnOutsideFunction),
        },
    }
}

/// A block terminator's step, by the innermost scope's kind. A finished loop
/// or a conditional is popped; an unfinished loop increments its variable in
/// place, discards everything else declared during the iteration, and jumps
/// back into the body; a function scope closing this way never returned, so
/// a requested result is a fatal error; the root scope cannot be closed.
pub open spec fn step_done_model(m: StateModel, progn: int) -> StepModel {
    match m.frames.last().frame {
        FrameModel::Root => StepModel::Fault(m, ErrorKind::RootFrameTerminated),
        FrameModel::IfStatement => StepModel::KeepGoing(
            StateModel { line: m.line + 1, frames: m.frames.drop_last(), ..m },
        ),
        FrameModel::Function { caller_line, target_variable } => {
            if target_variable is Some {
                StepModel::Fault(m, ErrorKind::MissingReturnValue)
            } else if caller_line + 1 > progn || caller_line < 0 {
                StepModel::Fault(m, ErrorKind::JumpOutOfBounds)
            } else {
                StepModel::KeepGoing(
                    StateModel { line: caller_line + 1, frames: m.frames.drop_last(), ..m },
                )
            }
        },
        FrameModel::ForLoop { variable, start_line, end_value } => {
            match lookup_var(m.frames, variable) {
                None => StepModel::Fault(m, ErrorKind::VariableNotFound),
                Some(v) => match bridge_of(v) {
                    Err(k) => StepModel::Fault(m, k),
                    Ok(vi) => {
                        if vi + 1 > i64::MAX {
                            StepModel::Fault(m, ErrorKind::ArithmeticOverflow)
                        } else {
                            let v1 = crate::variables::with_kind_of(v, vi + 1);
                            match bridge_of(v1) {
                                Err(k) => StepModel::Fault(m, k),
                                Ok(vi1) => match eval_value_model(m.frames, end_value) {
                                    Err(k) => StepModel::Fault(m, k),
                                    Ok(e) => match bridge_of(e) {
                                        Err(k) => StepModel::Fault(m, k),
                                        Ok(ei) => {
                                            if vi1 >= ei {
                                                StepModel::KeepGoing(
                                                    StateModel {
                                                        line: m.line + 1,
                                                        frames: m.frames.drop_last(),
                                                        ..m
                                                    },
                                                )
                                            } else if start_line + 1 > progn || start_line < 0 {
                                                StepModel::Fault(m, ErrorKind::JumpOutOfBounds)
                                            } else {
                                                let reseeded = ScopeModel {
                                                    frame: m.frames.last().frame,
                                                    vars: Map::empty().insert(variable, v1),
                                                    funcs: Map::empty(),
                                                };
                                                let upd = update_var(m.frames, variable, v1);
                                                StepModel::KeepGoing(
                                                    StateModel {
                                                        line: start_line + 1,
                                                        frames: upd.update(
                                                            upd.len() - 1,
                                                            reseeded,
                                                        ),
                                                        ..m
                                                    },
                                                )
                                            }
                                        },
                                    },
                                },
                            }
                        }
                    },
                },
            }
        },
    }
}

/// One step of the engine from state `m` over the instruction array `prog`:
/// a paused state stays paused; running off the end completes the run when
/// only the root scope is open and is an unclosed-block error otherwise; a
/// counter outside the program is fatal; otherwise the instruction under the
/// counter executes as the per-instruction models above say.
pub open spec fn step_model(prog: Seq<Instruction>, m: StateModel) -> StepModel {
    if m.pending is Some {
        StepModel::AwaitInput(m)
    } else if m.frames.len() == 0 {
        StepModel::Fault(m, ErrorKind::EndBlockWithoutFrame)
    } else if m.line == prog.len() {
        if m.frames.len() == 1 {
            StepModel::Complete(m)
        } else {
            StepModel::Fault(m, ErrorKind::UnclosedBlock)
        }
    } else if m.line < 0 || m.line > prog.len() {
        StepModel::Fault(m, ErrorKind::JumpOutOfBounds)
    } else {
        match prog[m.line] {
            Instruction::NoOp => StepModel::KeepGoing(StateModel { line: m.line + 1, ..m }),
            Instruction::FromValueToValue { value, start, end } => step_for_model(
                m,
                value@,
                start@,
                end@,
            ),
            Instruction::IfValueIsValue { left_value, right_value, last_line } => step_if_model(
                m,
                left_value@,
                right_value@,
                last_line as int,
                false,
                prog.len() as int,
            ),
            Instruction::IfValueIsNotValue { left_value, right_value, last_line } => step_if_model(
                m,
                left_value@,
                right_value@,
                last_line as int,
                true,
                prog.len() as int,
            ),
            Instruction::Done => step_done_model(m, prog.len() as int),
            Instruction::FunctionDeclaration { name, first_line, last_line, arguments } => {
                step_fn_decl_model(
                    m,
                    name@,
                    first_line as int,
                    last_line as int,
                    params_view(arguments@),
                    prog.len() as int,
                )
            },
            Instruction::FunctionCall { function, values, target_variable } => step_call_model(
                m,
                function@,
                strings_view(values@),
                opt_name_view(target_variable),
                prog.len() as int,
            ),
            Instruction::Return { value } => step_return_model(m, value@, prog.len() as int),
            Instruction::IntDeclaration { name, value } => step_decl_model(
                m,
                name@,
                value@,
                ValueModel::Int(0),
            ),
            Instruction::BoolDeclaration { name, value } => step_decl_model(
                m,
                name@,
                value@,
                ValueModel::Bool(false),
            ),
            Instruction::StringDeclaration { name, value } => step_decl_model(
                m,
                name@,
                value@,
                ValueModel::Text(Seq::empty()),
            ),
            Instruction::Assignment { name, value } => step_assign_model(m, name@, value@),
        }
    }
}

/// What supplying the input line `text` to a paused state does: the pause is
/// cleared and, when the call asked for a result, the line is stored, as a
/// string, into the requested variable through `create_or_set`.
pub open spec fn provide_input_model(m: StateModel, text: Seq<char>) -> Result<
    StateModel,
    ErrorKind,
> {
    match m.pending {
        None => Ok(m),
        Some(target) => {
            let m2 = StateModel { pending: None, ..m };
            match target {
                None => Ok(m2),
                Some(name) => match create_or_set(m2.frames, name, ValueModel::Text(text)) {
                    Err(k) => Err(k),
                    Ok(fr) => Ok(StateModel { frames: fr, ..m2 }),
                },
            }
        },
    }
}

/// The state a fresh interpreter starts in: the program counter at the first
/// line, only the root scope open, holding the two built-in boolean
/// constants, nothing printed and no input pending.
pub open spec fn initial_state_model(max_depth: int) -> StateModel {
    StateModel {
        line: 0,
        frames: seq![
            ScopeModel {
                frame: FrameModel::Root,
                vars: Map::empty().insert("true"@, ValueModel::Bool(true)).insert(
                    "false"@,
                    ValueModel::Bool(false),
                ),
                funcs: Map::empty(),
            },
        ],
        output: Seq::empty(),
        pending: None,
        max_depth: max_depth,
    }
}

/// The state after `n` further steps (absorbing: a pause, a completion or a
/// fault stays what it is however many steps remain).
pub open spec fn run_steps(prog: Seq<Instruction>, m: StateModel, n: nat) -> StepModel
    decreases n,
{
    if n == 0 {
        StepModel::KeepGoing(m)
    } else {
        match step_model(prog, m) {
            StepModel::KeepGoing(m2) => run_steps(prog, m2, (n - 1) as nat),
            other => other,
        }
    }
}

/// Running `a` steps to reach `mid` and then `b` more is running `a + b`
/// steps.
pub proof fn lemma_run_steps_compose(
    prog: Seq<Instruction>,
    m: StateModel,
    a: nat,
    b: nat,
    mid: StateModel,
)
    requires
        run_steps(prog, m, a) == StepModel::KeepGoing(mid),
    ensures
        run_steps(prog, m, a + b) == run_steps(prog, mid, b),
    decreases a,
{
    if a == 0 {
    } else {
        match step_model(prog, m) {
            StepModel::KeepGoing(m2) => {
                lemma_run_steps_compose(prog, m2, (a - 1) as nat, b, mid);
                assert(a + b - 1 == (a - 1) + b);
            },
            _ => {},
        }
    }
}

/// A pause, completion or fault reached after `a` steps is still the
/// outcome after any larger number of steps.
pub proof fn lemma_run_steps_absorb(prog: Seq<Instruction>, m: StateModel, a: nat, b: nat)
    requires
        a >= 1,
        !(run_steps(prog, m, a) is KeepGoing),
        b >= a,
    ensures
        run_steps(prog, m, b) == run_steps(prog, m, a),
    decreases a,
{
    match step_model(prog, m) {
        StepModel::KeepGoing(m2) => {
            if a == 1 {
                assert(run_steps(prog, m, a) == run_steps(prog, m2, 0));
                assert(false);
            } else {
                lemma_run_steps_absorb(prog, m2, (a - 1) as nat, (b - 1) as nat);
            }
        },
        _ => {},
    }
}

} // verus!
