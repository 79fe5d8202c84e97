//! The execution engine's state and its fetch-execute machinery.
//!
//! A `State` owns the program counter, the stack of open scopes and the
//! output buffer. `execute` fetch-executes an instruction array until the
//! program completes, fails, pauses for input, or a step budget runs out;
//! each single step is verified to be exactly the transition that
//! `crate::semantics::step_model` defines.

use vstd::prelude::*;
use vstd::string::*;

use crate::errors::{Error, ErrorKind};
use crate::names::{str_eq, NameMap};
use crate::operators::{
    evaluate_operator_expression, is_char_operator, items_view, operator_char_to_token_type,
    value_contains_operator, OperatorExpression,
};
use crate::parser::Instruction;
use crate::semantics::{
    bind_params, empty_scope, eval_args, eval_inner_model, eval_split,
    eval_value_model, lemma_find_fn_at, lemma_find_fn_none,
    lemma_lookup_at, lemma_lookup_fn_at, lemma_lookup_fn_none, lemma_lookup_none,
    lemma_run_steps_compose, lemma_update_at, lookup_fn, lookup_var,
    opt_name_view, params_view,
    printed_all, run_steps, step_assign_model, step_call_model, step_decl_model, step_done_model,
    step_fn_decl_model, step_for_model, step_if_model, step_model, step_return_model, update_var,
    valid_name, FrameModel, FunctionModel, ScopeModel, StateModel, StepModel,
};
use crate::stdlib::{stdlib_function, StdlibOutcome};
use crate::variables::{
    is_digits, is_numeric, string_to_int, Variable, VariableType,
};

verus! {

/// A declared function: the line it was declared on and its parameters as
/// (name, kind-zero-value) pairs.
pub struct FunctionInfo {
    pub first_line: usize,
    pub arguments: Vec<(String, VariableType)>,
}

impl View for FunctionInfo {
    type V = FunctionModel;

    open spec fn view(&self) -> FunctionModel {
        FunctionModel { entry: self.first_line as int, params: params_view(self.arguments@) }
    }
}

/// A copy of a parameter list that stands for the same parameters.
fn clone_params(args: &Vec<(String, VariableType)>) -> (r: Vec<(String, VariableType)>)
    ensures
        params_view(r@) == params_view(args@),
{
    let n: usize = args.len();
    let mut arguments: Vec<(String, VariableType)> = Vec::new();
    let mut i: usize = 0;
    while i < n
        invariant
            0 <= i <= n,
            n == args@.len(),
            arguments@.len() == i,
            forall|j: int|
                0 <= j < i ==> arguments@[j].0@ == args@[j].0@ && arguments@[j].1@ == args@[j].1@,
        decreases n - i,
    {
        let name = args[i].0.clone();
        let kind = args[i].1.clone();
        arguments.push((name, kind));
        i = i + 1;
    }
    proof {
        assert(params_view(arguments@) =~= params_view(args@));
    }
    arguments
}

impl Clone for FunctionInfo {
    /// A copy that stands for the same declared function.
    fn clone(&self) -> (r: Self)
        ensures
            r@ == self@,
    {
        FunctionInfo { first_line: self.first_line, arguments: clone_params(&self.arguments) }
    }
}

/// The kind of one open scope, with what its closing or re-entry needs.
pub enum Frame {
    /// The outermost scope, opened at program start and never closed.
    Root,
    /// A loop body: the loop variable, the header's line, and the end
    /// expression re-evaluated at each terminator.
    ForLoop { variable: String, start_line: usize, end_value: String },
    /// A function body: the call site to return to and the variable the
    /// caller wants the result in.
    Function { caller_line: usize, target_variable: Option<String> },
    /// A conditional body.
    IfStatement,
}

impl View for Frame {
    type V = FrameModel;

    open spec fn view(&self) -> FrameModel {
        match self {
            Frame::Root => FrameModel::Root,
            Frame::ForLoop { variable, start_line, end_value } => FrameModel::ForLoop {
                variable: variable@,
                start_line: *start_line as int,
                end_value: end_value@,
            },
            Frame::Function { caller_line, target_variable } => FrameModel::Function {
                caller_line: *caller_line as int,
                target_variable: opt_name_view(*target_variable),
            },
            Frame::IfStatement => FrameModel::IfStatement,
        }
    }
}

/// One open scope: its kind and its own variable and function bindings.
pub struct FrameContext {
    pub frame: Frame,
    pub variables: NameMap<Variable>,
    pub functions: NameMap<FunctionInfo>,
}

impl View for FrameContext {
    type V = ScopeModel;

    open spec fn view(&self) -> ScopeModel {
        ScopeModel { frame: self.frame@, vars: self.variables@, funcs: self.functions@ }
    }
}

impl FrameContext {
    /// Whether both binding maps are well formed.
    pub open spec fn wf(&self) -> bool {
        self.variables.wf() && self.functions.wf()
    }

    /// Discards every variable and function binding of this scope, keeping
    /// the scope itself open.
    pub fn clear(&mut self)
        ensures
            final(self).wf(),
            final(self)@ == (ScopeModel {
                frame: old(self)@.frame,
                vars: Map::<Seq<char>, crate::variables::ValueModel>::empty(),
                funcs: Map::<Seq<char>, FunctionModel>::empty(),
            }),
    {
        self.variables.clear();
        self.functions.clear();
    }
}

/// The views of the open scopes, innermost last.
pub open spec fn frames_view(s: Seq<FrameContext>) -> Seq<ScopeModel> {
    s.map_values(|f: FrameContext| f@)
}

/// Whether `name` is rejected at a variable-creation site: a pure digit run
/// (the empty text counts), an operator character anywhere, or a reserved
/// type keyword.
pub fn is_name_invalid(name: &str) -> (r: bool)
    ensures
        r == !valid_name(name@),
{
    proof {
        reveal_strlit("int");
        reveal_strlit("bool");
        reveal_strlit("string");
    }
    is_numeric(name) || value_contains_operator(name) || str_eq(name, "int") || str_eq(
        name,
        "bool",
    ) || str_eq(name, "string")
}

/// Viewing distributes over appending one scope.
pub proof fn lemma_frames_view_push(s: Seq<FrameContext>, f: FrameContext)
    ensures
        frames_view(s.push(f)) == frames_view(s).push(f@),
{
    assert(frames_view(s.push(f)) =~= frames_view(s).push(f@));
}

/// Viewing distributes over replacing one scope.
pub proof fn lemma_frames_view_update(s: Seq<FrameContext>, i: int, f: FrameContext)
    requires
        0 <= i < s.len(),
    ensures
        frames_view(s.update(i, f)) == frames_view(s).update(i, f@),
{
    assert(frames_view(s.update(i, f)) =~= frames_view(s).update(i, f@));
}

/// Viewing distributes over keeping a prefix of the scopes.
pub proof fn lemma_frames_view_take(s: Seq<FrameContext>, k: int)
    requires
        0 <= k <= s.len(),
    ensures
        frames_view(s.subrange(0, k)) == frames_view(s).subrange(0, k),
{
    assert(frames_view(s.subrange(0, k)) =~= frames_view(s).subrange(0, k));
}

/// Viewing distributes over dropping the innermost scope.
pub proof fn lemma_frames_view_drop_last(s: Seq<FrameContext>)
    requires
        s.len() > 0,
    ensures
        frames_view(s.drop_last()) == frames_view(s).drop_last(),
{
    assert(frames_view(s.drop_last()) =~= frames_view(s).drop_last());
}

/// A copy of an optional variable name.
fn clone_opt_string(o: &Option<String>) -> (r: Option<String>)
    ensures
        opt_name_view(r) == opt_name_view(*o),
{
    match o {
        Some(s) => Some(s.clone()),
        None => None,
    }
}

impl Clone for Frame {
    /// A copy that stands for the same scope kind.
    fn clone(&self) -> (r: Self)
        ensures
            r@ == self@,
    {
        match self {
            Frame::Root => Frame::Root,
            Frame::ForLoop { variable, start_line, end_value } => Frame::ForLoop {
                variable: variable.clone(),
                start_line: *start_line,
                end_value: end_value.clone(),
            },
            Frame::Function { caller_line, target_variable } => Frame::Function {
                caller_line: *caller_line,
                target_variable: clone_opt_string(target_variable),
            },
            Frame::IfStatement => Frame::IfStatement,
        }
    }
}

/// What one step of the engine did.
#[derive(Debug)]
pub enum StepOutcome {
    /// The step ran and execution continues at the new counter.
    Continue,
    /// The step paused execution, asking for one line of input.
    AwaitInput,
    /// The program ran off its end with only the root scope open.
    Finished,
    /// The step hit a fatal error; the state is left untouched.
    Failed(Error),
}

/// How a bounded run ended.
#[derive(Debug)]
pub enum RunOutcome {
    /// The program completed.
    Finished,
    /// Execution paused for one line of input; supply it with
    /// `State::provide_input` and call `State::execute` again.
    NeedsInput,
    /// The step budget ran out before the program ended; call
    /// `State::execute` again to continue.
    Running,
    /// The program hit a fatal error.
    Failed(Error),
}

/// The frame-depth limit a plainly constructed interpreter gets.
pub const DEFAULT_MAX_DEPTH: usize = 10000;

/// The engine's whole mutable state for one program run.
pub struct State {
    pub line: usize,
    pub frames: Vec<FrameContext>,
    pub output: String,
    pub pending: Option<Option<String>>,
    pub max_depth: usize,
}

impl Default for State {
    /// A fresh interpreter with the default frame-depth limit.
    fn default() -> (r: State)
        ensures
            r.wf(),
            r@ == crate::semantics::initial_state_model(DEFAULT_MAX_DEPTH as int),
    {
        State::new()
    }
}

impl View for State {
    type V = StateModel;

    open spec fn view(&self) -> StateModel {
        StateModel {
            line: self.line as int,
            frames: frames_view(self.frames@),
            output: self.output@,
            pending: match self.pending {
                Some(t) => Some(opt_name_view(t)),
                None => None,
            },
            max_depth: self.max_depth as int,
        }
    }
}

impl State {
    /// Whether the state is well formed: at least the root scope is open,
    /// the outermost scope is the root, and every scope's bindings are well
    /// formed.
    pub open spec fn wf(&self) -> bool {
        &&& self.frames@.len() >= 1
        &&& self@.frames[0].frame is Root
        &&& forall|i: int| 0 <= i < self.frames@.len() ==> (#[trigger] self.frames@[i]).wf()
    }

    /// A fresh interpreter with the given frame-depth limit: only the root
    /// scope open, holding the built-in boolean constants `true` and
    /// `false`, the counter at the first line, nothing printed and no input
    /// pending.
    pub fn with_depth_limit(max_depth: usize) -> (r: State)
        ensures
            r.wf(),
            r@ == crate::semantics::initial_state_model(max_depth as int),
    {
        let mut variables: NameMap<Variable> = NameMap::new();
        proof {
            reveal_strlit("true");
            reveal_strlit("false");
            assert("true"@.len() == 4 && "false"@.len() == 5);
            assert("true"@ != "false"@);
        }
        variables.insert_new(
            String::from_str("true"),
            Variable { variable_type: VariableType::Boolean(true) },
        );
        variables.insert_new(
            String::from_str("false"),
            Variable { variable_type: VariableType::Boolean(false) },
        );
        let root = FrameContext { frame: Frame::Root, variables, functions: NameMap::new() };
        let mut frames: Vec<FrameContext> = Vec::new();
        frames.push(root);
        let r = State {
            line: 0,
            frames,
            output: String::new(),
            pending: None,
            max_depth,
        };
        proof {
            assert(frames_view(r.frames@) =~= crate::semantics::initial_state_model(
                max_depth as int,
            ).frames);
            assert(r@ =~~= crate::semantics::initial_state_model(max_depth as int));
        }
        r
    }

    /// A fresh interpreter with the default frame-depth limit.
    pub fn new() -> (r: State)
        ensures
            r.wf(),
            r@ == crate::semantics::initial_state_model(DEFAULT_MAX_DEPTH as int),
    {
        State::with_depth_limit(DEFAULT_MAX_DEPTH)
    }

    /// Hands over everything printed since the last call, leaving the
    /// output buffer empty.
    pub fn take_output(&mut self) -> (r: String)
        requires
            old(self).wf(),
        ensures
            final(self).wf(),
            r@ == old(self)@.output,
            final(self)@ == (StateModel { output: Seq::<char>::empty(), ..old(self)@ }),
    {
        let out = self.output.clone();
        self.output = String::new();
        out
    }

    /// The scope that `name` resolves to through the chain, innermost
    /// first, together with a copy of its current value.
    fn find_variable(&self, name: &str) -> (r: Option<(usize, Variable)>)
        requires
            self.wf(),
        ensures
            match r {
                Some(p) => {
                    &&& p.0 < self.frames@.len()
                    &&& self@.frames[p.0 as int].vars.contains_key(name@)
                    &&& forall|k: int|
                        p.0 < k < self@.frames.len() ==> !(#[trigger] self@.frames[k]).vars.contains_key(
                            name@,
                        )
                    &&& lookup_var(self@.frames, name@) == Some(p.1@)
                },
                None => lookup_var(self@.frames, name@) is None,
            },
    {
        let n: usize = self.frames.len();
        let mut i: usize = n;
        while i > 0
            invariant
                0 <= i <= n,
                n == self.frames@.len(),
                self.wf(),
                forall|k: int|
                    i <= k < n ==> !(#[trigger] frames_view(self.frames@)[k]).vars.contains_key(
                        name@,
                    ),
            decreases i,
        {
            i = i - 1;
            match self.frames[i].variables.get(name) {
                Some(v) => {
                    let out = v.clone();
                    proof {
                        lemma_lookup_at(self@.frames, name@, i as int);
                    }
                    return Some((i, out));
                },
                None => {
                },
            }
        }
        proof {
            lemma_lookup_none(self@.frames, name@);
        }
        None
    }

    /// The declaration that a called name resolves to through the chain.
    fn find_function(&self, name: &str) -> (r: Option<FunctionInfo>)
        requires
            self.wf(),
        ensures
            match r {
                Some(info) => lookup_fn(self@.frames, name@) == Some(info@),
                None => lookup_fn(self@.frames, name@) is None,
            },
    {
        let n: usize = self.frames.len();
        let mut i: usize = n;
        while i > 0
            invariant
                0 <= i <= n,
                n == self.frames@.len(),
                self.wf(),
                forall|k: int|
                    i <= k < n ==> !(#[trigger] frames_view(self.frames@)[k]).funcs.contains_key(
                        name@,
                    ),
            decreases i,
        {
            i = i - 1;
            match self.frames[i].functions.get(name) {
                Some(info) => {
                    let out = info.clone();
                    proof {
                        lemma_lookup_fn_at(self@.frames, name@, i as int);
                    }
                    return Some(out);
                },
                None => {
                },
            }
        }
        proof {
            lemma_lookup_fn_none(self@.frames, name@);
        }
        None
    }

    /// A textual value with no operator characters, read directly: a digit
    /// run is an integer literal, matching quotes delimit a string literal,
    /// anything else resolves as a variable name.
    fn evaluate_inner_value(&self, value: &str) -> (r: Result<Variable, ErrorKind>)
        requires
            self.wf(),
        ensures
            match r {
                Ok(v) => eval_inner_model(self@.frames, value@) == Ok::<
                    crate::variables::ValueModel,
                    ErrorKind,
                >(v@),
                Err(k) => eval_inner_model(self@.frames, value@) == Err::<
                    crate::variables::ValueModel,
                    ErrorKind,
                >(k),
            },
    {
        let len: usize = value.unicode_len();
        if len > 0 && is_numeric(value) {
            assert(is_digits(value@));
            match string_to_int(value) {
                Some(n) => Ok(Variable { variable_type: VariableType::Integer(n) }),
                None => Err(ErrorKind::ArithmeticOverflow),
            }
        } else if len >= 2 && value.get_char(0) == '"' && value.get_char(len - 1) == '"' {
            let inner = value.substring_char(1, len - 1);
            Ok(Variable { variable_type: VariableType::Str(String::from_str(inner)) })
        } else {
            match self.find_variable(value) {
                Some(p) => Ok(p.1),
                None => Err(ErrorKind::VariableNotFound),
            }
        }
    }

    /// A textual value, evaluated: read directly when it holds no operator
    /// character, otherwise split into operands and operators character by
    /// character and folded strictly left to right.
    fn evaluate_value(&self, value: &str) -> (r: Result<Variable, ErrorKind>)
        requires
            self.wf(),
        ensures
            match r {
                Ok(v) => eval_value_model(self@.frames, value@) == Ok::<
                    crate::variables::ValueModel,
                    ErrorKind,
                >(v@),
                Err(k) => eval_value_model(self@.frames, value@) == Err::<
                    crate::variables::ValueModel,
                    ErrorKind,
                >(k),
            },
    {
        if !value_contains_operator(value) {
            return self.evaluate_inner_value(value);
        }
        let ghost frames = self@.frames;
        let len: usize = value.unicode_len();
        let mut expression: Vec<OperatorExpression> = Vec::new();
        let mut w: usize = 0;
        let mut i: usize = 0;
        while i < len
            invariant
                self.wf(),
                frames == self@.frames,
                0 <= w <= i <= len,
                len == value@.len(),
                crate::operators::contains_operator_char(value@),
                match eval_split(frames, value@, w as int, i as int) {
                    Ok(rest) => eval_split(frames, value@, 0, 0) == Ok::<
                        Seq<crate::operators::ExprItemModel>,
                        ErrorKind,
                    >(items_view(expression@) + rest),
                    Err(k) => eval_split(frames, value@, 0, 0) == Err::<
                        Seq<crate::operators::ExprItemModel>,
                        ErrorKind,
                    >(k),
                },
            decreases len - i,
        {
            let c = value.get_char(i);
            let is_op = is_char_operator(c);
            if i == len - 1 {
                let word = if is_op {
                    value.substring_char(w, i)
                } else {
                    value.substring_char(w, i + 1)
                };
                let ghost expression0 = expression@;
                match self.evaluate_inner_value(word) {
                    Err(k) => {
                        return Err(k);
                    },
                    Ok(v) => {
                        expression.push(OperatorExpression::Variable(v));
                        if is_op {
                            expression.push(
                                OperatorExpression::Operator(operator_char_to_token_type(c)),
                            );
                        }
                        proof {
                            if is_op {
                                assert(items_view(expression@) =~= items_view(expression0)
                                    + eval_split(frames, value@, w as int, i as int).unwrap());
                            } else {
                                assert(items_view(expression@) =~= items_view(expression0)
                                    + eval_split(frames, value@, w as int, i as int).unwrap());
                            }
                            assert(items_view(expression@) + eval_split(
                                frames,
                                value@,
                                w as int,
                                i as int + 1,
                            ).unwrap() =~= items_view(expression@));
                        }
                    },
                }
                w = i + 1;
                i = i + 1;
            } else if is_op {
                let word = value.substring_char(w, i);
                let ghost expression0 = expression@;
                match self.evaluate_inner_value(word) {
                    Err(k) => {
                        return Err(k);
                    },
                    Ok(v) => {
                        expression.push(OperatorExpression::Variable(v));
                        expression.push(
                            OperatorExpression::Operator(operator_char_to_token_type(c)),
                        );
                        proof {
                            let ghost head = seq![
                                crate::operators::ExprItemModel::Operand(v@),
                                crate::operators::ExprItemModel::Operator(
                                    crate::operators::spec_operator_char_token(value@[i as int]),
                                ),
                            ];
                            assert(items_view(expression@) =~= items_view(expression0) + head);
                            match eval_split(frames, value@, i as int + 1, i as int + 1) {
                                Ok(rest) => {
                                    assert((items_view(expression0) + (head + rest)) =~= (
                                    items_view(expression@) + rest));
                                },
                                Err(_) => {
                                },
                            }
                        }
                    },
                }
                w = i + 1;
                i = i + 1;
            } else {
                i = i + 1;
            }
        }
        proof {
            crate::semantics::lemma_eval_split_wf(frames, value@, 0, 0);
            assert(value@.len() > 0) by {
                let j = choose|j: int|
                    0 <= j < value@.len() && crate::operators::is_operator_char(value@[j]);
            }
        }
        match evaluate_operator_expression(&expression) {
            Ok(v) => Ok(v),
            Err(k) => Err(k),
        }
    }

    /// The scope that `name` resolves to among the outermost `upto` scopes,
    /// innermost first, together with a copy of its current value.
    fn find_variable_upto(&self, name: &str, upto: usize) -> (r: Option<(usize, Variable)>)
        requires
            self.wf(),
            upto <= self.frames@.len(),
        ensures
            match r {
                Some(p) => {
                    &&& p.0 < upto
                    &&& self@.frames.subrange(0, upto as int)[p.0 as int].vars.contains_key(name@)
                    &&& forall|k: int|
                        p.0 < k < upto as int ==> !(#[trigger] self@.frames.subrange(
                            0,
                            upto as int,
                        )[k]).vars.contains_key(name@)
                    &&& lookup_var(self@.frames.subrange(0, upto as int), name@) == Some(p.1@)
                },
                None => lookup_var(self@.frames.subrange(0, upto as int), name@) is None,
            },
    {
        let ghost pre = self@.frames.subrange(0, upto as int);
        let mut i: usize = upto;
        while i > 0
            invariant
                0 <= i <= upto,
                upto <= self.frames@.len(),
                self.wf(),
                pre == self@.frames.subrange(0, upto as int),
                forall|k: int| i <= k < upto as int ==> !(#[trigger] pre[k]).vars.contains_key(name@),
            decreases i,
        {
            i = i - 1;
            match self.frames[i].variables.get(name) {
                Some(v) => {
                    let out = v.clone();
                    proof {
                        assert(pre[i as int] == self@.frames[i as int]);
                        lemma_lookup_at(pre, name@, i as int);
                    }
                    return Some((i, out));
                },
                None => {
                    proof {
                        assert(pre[i as int] == self@.frames[i as int]);
                    }
                },
            }
        }
        proof {
            lemma_lookup_none(pre, name@);
        }
        None
    }

    /// Executes one block terminator.
    fn step_done(&mut self, progn: usize) -> (r: StepOutcome)
        requires
            old(self).wf(),
            old(self).line < usize::MAX,
        ensures
            final(self).wf(),
            match r {
                StepOutcome::Continue => step_done_model(old(self)@, progn as int)
                    == StepModel::KeepGoing(final(self)@),
                StepOutcome::Failed(e) => step_done_model(old(self)@, progn as int)
                    == StepModel::Fault(old(self)@, e.kind) && final(self)@ == old(self)@ && e.line
                    == old(self).line,
                _ => false,
            },
    {
        let last: usize = self.frames.len() - 1;
        let fr = self.frames[last].frame.clone();
        match fr {
            Frame::Root => StepOutcome::Failed(
                Error { kind: ErrorKind::RootFrameTerminated, line: self.line },
            ),
            Frame::IfStatement => {
                let ghost m0 = self@;
                let ghost frames0 = self.frames@;
                let _removed = self.frames.remove(last);
                self.line = self.line + 1;
                proof {
                    assert(self.frames@ =~= frames0.drop_last());
                    lemma_frames_view_drop_last(frames0);
                    assert(self@ =~~= (StateModel {
                        line: m0.line + 1,
                        frames: m0.frames.drop_last(),
                        ..m0
                    }));
                }
                StepOutcome::Continue
            },
            Frame::Function { caller_line, target_variable } => {
                if target_variable.is_some() {
                    return StepOutcome::Failed(
                        Error { kind: ErrorKind::MissingReturnValue, line: self.line },
                    );
                }
                if caller_line >= progn {
                    return StepOutcome::Failed(
                        Error { kind: ErrorKind::JumpOutOfBounds, line: self.line },
                    );
                }
                let ghost m0 = self@;
                let ghost frames0 = self.frames@;
                let _removed = self.frames.remove(last);
                self.line = caller_line + 1;
                proof {
                    assert(self.frames@ =~= frames0.drop_last());
                    lemma_frames_view_drop_last(frames0);
                    assert(self@ =~~= (StateModel {
                        line: caller_line + 1,
                        frames: m0.frames.drop_last(),
                        ..m0
                    }));
                }
                StepOutcome::Continue
            },
            Frame::ForLoop { variable, start_line, end_value } => {
                let (j, cur) = match self.find_variable(variable.as_str()) {
                    None => {
                        return StepOutcome::Failed(
                            Error { kind: ErrorKind::VariableNotFound, line: self.line },
                        );
                    },
                    Some(p) => p,
                };
                let vi: i64 = match cur.bridge_int() {
                    Err(k) => {
                        return StepOutcome::Failed(Error { kind: k, line: self.line });
                    },
                    Ok(n) => n,
                };
                if vi == i64::MAX {
                    return StepOutcome::Failed(
                        Error { kind: ErrorKind::ArithmeticOverflow, line: self.line },
                    );
                }
                let mut v1 = cur.clone();
                v1.set_from_integer(vi + 1);
                let vi1: i64 = match v1.bridge_int() {
                    Err(k) => {
                        return StepOutcome::Failed(Error { kind: k, line: self.line });
                    },
                    Ok(n) => n,
                };
                let e = match self.evaluate_value(end_value.as_str()) {
                    Err(k) => {
                        return StepOutcome::Failed(Error { kind: k, line: self.line });
                    },
                    Ok(x) => x,
                };
                let ei: i64 = match e.bridge_int() {
                    Err(k) => {
                        return StepOutcome::Failed(Error { kind: k, line: self.line });
                    },
                    Ok(n) => n,
                };
                if vi1 >= ei {
                    let ghost m0 = self@;
                    let ghost frames0 = self.frames@;
                    let _removed = self.frames.remove(last);
                    self.line = self.line + 1;
                    proof {
                        assert(self.frames@ =~= frames0.drop_last());
                        lemma_frames_view_drop_last(frames0);
                        assert(self@ =~~= (StateModel {
                            line: m0.line + 1,
                            frames: m0.frames.drop_last(),
                            ..m0
                        }));
                    }
                    StepOutcome::Continue
                } else if start_line >= progn {
                    StepOutcome::Failed(Error { kind: ErrorKind::JumpOutOfBounds, line: self.line })
                } else {
                    let ghost m0 = self@;
                    let ghost frames0 = self.frames@;
                    let mut fc = self.frames.remove(j);
                    fc.variables.set_value(variable.as_str(), v1.clone());
                    self.frames.insert(j, fc);
                    let ghost frames1 = self.frames@;
                    let mut fl = self.frames.remove(last);
                    fl.clear();
                    fl.variables.insert_new(variable.clone(), v1);
                    self.frames.insert(last, fl);
                    self.line = start_line + 1;
                    proof {
                        assert(frames1 =~= frames0.update(j as int, frames1[j as int]));
                        lemma_frames_view_update(frames0, j as int, frames1[j as int]);
                        lemma_update_at(m0.frames, variable@, v1@, j as int);
                        assert(frames_view(frames1) =~= update_var(m0.frames, variable@, v1@));
                        assert(self.frames@ =~= frames1.update(
                            last as int,
                            self.frames@[last as int],
                        ));
                        lemma_frames_view_update(frames1, last as int, self.frames@[last as int]);
                        let upd = update_var(m0.frames, variable@, v1@);
                        assert(self@.frames =~= upd.update(
                            upd.len() - 1,
                            ScopeModel {
                                frame: m0.frames.last().frame,
                                vars: Map::empty().insert(variable@, v1@),
                                funcs: Map::empty(),
                            },
                        ));
                        assert(step_done_model(m0, progn as int) == StepModel::KeepGoing(self@));
                    }
                    StepOutcome::Continue
                }
            },
        }
    }

    /// Executes one return statement.
    fn step_return(&mut self, value: &String, progn: usize) -> (r: StepOutcome)
        requires
            old(self).wf(),
        ensures
            final(self).wf(),
            match r {
                StepOutcome::Continue => step_return_model(old(self)@, value@, progn as int)
                    == StepModel::KeepGoing(final(self)@),
                StepOutcome::Failed(e) => step_return_model(old(self)@, value@, progn as int)
                    == StepModel::Fault(old(self)@, e.kind) && final(self)@ == old(self)@ && e.line
                    == old(self).line,
                _ => false,
            },
    {
        let n: usize = self.frames.len();
        let mut i: usize = n;
        while i > 0
            invariant
                0 <= i <= n,
                n == self.frames@.len(),
                self.wf(),
                *self == *old(self),
                forall|k: int|
                    i <= k < n ==> !((#[trigger] frames_view(self.frames@)[k]).frame is Function),
            decreases i,
        {
            i = i - 1;
            let is_fn = matches!(self.frames[i].frame, Frame::Function { .. });
            if is_fn {
                proof {
                    lemma_find_fn_at(self@.frames, i as int);
                }
                let (caller_line, target): (usize, Option<String>) = match &self.frames[i].frame {
                    Frame::Function { caller_line, target_variable } => (
                        *caller_line,
                        clone_opt_string(target_variable),
                    ),
                    _ => {
                        proof {
                            assert(false);
                        }
                        (0, None)
                    },
                };
                if caller_line >= progn {
                    return StepOutcome::Failed(
                        Error { kind: ErrorKind::JumpOutOfBounds, line: self.line },
                    );
                }
                match target {
                    None => {
                        let ghost m0 = self@;
                        let ghost frames0 = self.frames@;
                        self.frames.truncate(i);
                        self.line = caller_line + 1;
                        proof {
                            lemma_frames_view_take(frames0, i as int);
                            assert(m0.frames.take(i as int) =~= m0.frames.subrange(0, i as int));
                            assert(self@ =~~= (StateModel {
                                line: caller_line + 1,
                                frames: m0.frames.take(i as int),
                                ..m0
                            }));
                        }
                        return StepOutcome::Continue;
                    },
                    Some(t) => {
                        let v = match self.evaluate_value(value.as_str()) {
                            Err(k) => {
                                return StepOutcome::Failed(Error { kind: k, line: self.line });
                            },
                            Ok(v) => v,
                        };
                        assert(i >= 1) by {
                            assert(self@.frames[0].frame is Root);
                        }
                        let ghost pre = self@.frames.subrange(0, i as int);
                        match self.find_variable_upto(t.as_str(), i) {
                            Some((j, cur)) => {
                                let mut nv = cur;
                                match nv.set(&v) {
                                    Err(k) => {
                                        return StepOutcome::Failed(
                                            Error { kind: k, line: self.line },
                                        );
                                    },
                                    Ok(_) => {
                                    },
                                }
                                let ghost m0 = self@;
                                let ghost frames0 = self.frames@;
                                self.frames.truncate(i);
                                let ghost frames1 = self.frames@;
                                let mut fc = self.frames.remove(j);
                                fc.variables.set_value(t.as_str(), nv);
                                self.frames.insert(j, fc);
                                self.line = caller_line + 1;
                                proof {
                                    lemma_frames_view_take(frames0, i as int);
                                    assert(self.frames@ =~= frames1.update(
                                        j as int,
                                        self.frames@[j as int],
                                    ));
                                    lemma_frames_view_update(
                                        frames1,
                                        j as int,
                                        self.frames@[j as int],
                                    );
                                    lemma_update_at(pre, t@, nv@, j as int);
                                    assert(self@.frames =~= update_var(pre, t@, nv@));
                                    assert(m0.frames.take(i as int) =~= pre);
                                    assert(step_return_model(m0, value@, progn as int)
                                        == StepModel::KeepGoing(self@));
                                }
                                return StepOutcome::Continue;
                            },
                            None => {
                                if is_name_invalid(t.as_str()) {
                                    return StepOutcome::Failed(
                                        Error {
                                            kind: ErrorKind::InvalidVariableName,
                                            line: self.line,
                                        },
                                    );
                                }
                                let ghost m0 = self@;
                                let ghost frames0 = self.frames@;
                                self.frames.truncate(i);
                                let lasti: usize = i - 1;
                                let ghost frames1 = self.frames@;
                                let mut fc = self.frames.remove(lasti);
                                proof {
                                    assert(pre[lasti as int] == pre.last());
                                    assert(!pre.last().vars.contains_key(t@));
                                }
                                fc.variables.insert_new(t.clone(), v);
                                self.frames.insert(lasti, fc);
                                self.line = caller_line + 1;
                                proof {
                                    lemma_frames_view_take(frames0, i as int);
                                    assert(self.frames@ =~= frames1.update(
                                        lasti as int,
                                        self.frames@[lasti as int],
                                    ));
                                    lemma_frames_view_update(
                                        frames1,
                                        lasti as int,
                                        self.frames@[lasti as int],
                                    );
                                    assert(m0.frames.take(i as int) =~= pre);
                                    assert(self@.frames =~= pre.update(
                                        i as int - 1,
                                        ScopeModel {
                                            frame: pre.last().frame,
                                            vars: pre.last().vars.insert(t@, v@),
                                            funcs: pre.last().funcs,
                                        },
                                    ));
                                    assert(step_return_model(m0, value@, progn as int)
                                        == StepModel::KeepGoing(self@));
                                }
                                return StepOutcome::Continue;
                            },
                        }
                    },
                }
            }
        }
        proof {
            lemma_find_fn_none(self@.frames);
        }
        StepOutcome::Failed(Error { kind: ErrorKind::ReturnOutsideFunction, line: self.line })
    }

    /// Executes one loop header.
    fn step_for(&mut self, value: &String, start: &String, end: &String) -> (r: StepOutcome)
        requires
            old(self).wf(),
            old(self).line < usize::MAX,
        ensures
            final(self).wf(),
            match r {
                StepOutcome::Continue => step_for_model(old(self)@, value@, start@, end@)
                    == StepModel::KeepGoing(final(self)@),
                StepOutcome::Failed(e) => step_for_model(old(self)@, value@, start@, end@)
                    == StepModel::Fault(old(self)@, e.kind) && final(self)@ == old(self)@ && e.line
                    == old(self).line,
                _ => false,
            },
    {
        let sv = match self.evaluate_value(start.as_str()) {
            Ok(v) => v,
            Err(k) => {
                return StepOutcome::Failed(Error { kind: k, line: self.line });
            },
        };
        let ev = match self.evaluate_value(end.as_str()) {
            Ok(v) => v,
            Err(k) => {
                return StepOutcome::Failed(Error { kind: k, line: self.line });
            },
        };
        let a: i64 = match sv.bridge_int() {
            Ok(n) => n,
            Err(k) => {
                return StepOutcome::Failed(Error { kind: k, line: self.line });
            },
        };
        let b: i64 = match ev.bridge_int() {
            Ok(n) => n,
            Err(k) => {
                return StepOutcome::Failed(Error { kind: k, line: self.line });
            },
        };
        if a < b {
            if is_name_invalid(value.as_str()) {
                return StepOutcome::Failed(
                    Error { kind: ErrorKind::InvalidVariableName, line: self.line },
                );
            }
            if self.frames.len() >= self.max_depth {
                return StepOutcome::Failed(
                    Error { kind: ErrorKind::DepthLimitExceeded, line: self.line },
                );
            }
            let ghost m0 = self@;
            let mut variables: NameMap<Variable> = NameMap::new();
            variables.insert_new(value.clone(), Variable { variable_type: VariableType::Integer(a) });
            let fc = FrameContext {
                frame: Frame::ForLoop {
                    variable: value.clone(),
                    start_line: self.line,
                    end_value: end.clone(),
                },
                variables,
                functions: NameMap::new(),
            };
            let ghost frames0 = self.frames@;
            self.frames.push(fc);
            self.line = self.line + 1;
            proof {
                lemma_frames_view_push(frames0, fc);
                assert(step_for_model(m0, value@, start@, end@) == StepModel::KeepGoing(self@));
            }
            StepOutcome::Continue
        } else {
            let ghost m0 = self@;
            self.line = self.line + 1;
            proof {
                assert(self@ =~~= (StateModel { line: m0.line + 1, ..m0 }));
            }
            StepOutcome::Continue
        }
    }

    /// Executes one conditional header.
    fn step_if(
        &mut self,
        left_value: &String,
        right_value: &String,
        last_line: usize,
        negated: bool,
        progn: usize,
    ) -> (r: StepOutcome)
        requires
            old(self).wf(),
            old(self).line < usize::MAX,
        ensures
            final(self).wf(),
            match r {
                StepOutcome::Continue => step_if_model(
                    old(self)@,
                    left_value@,
                    right_value@,
                    last_line as int,
                    negated,
                    progn as int,
                ) == StepModel::KeepGoing(final(self)@),
                StepOutcome::Failed(e) => step_if_model(
                    old(self)@,
                    left_value@,
                    right_value@,
                    last_line as int,
                    negated,
                    progn as int,
                ) == StepModel::Fault(old(self)@, e.kind) && final(self)@ == old(self)@ && e.line
                    == old(self).line,
                _ => false,
            },
    {
        let l = match self.evaluate_value(left_value.as_str()) {
            Ok(v) => v,
            Err(k) => {
                return StepOutcome::Failed(Error { kind: k, line: self.line });
            },
        };
        let rv = match self.evaluate_value(right_value.as_str()) {
            Ok(v) => v,
            Err(k) => {
                return StepOutcome::Failed(Error { kind: k, line: self.line });
            },
        };
        let a: i64 = match l.bridge_int() {
            Ok(n) => n,
            Err(k) => {
                return StepOutcome::Failed(Error { kind: k, line: self.line });
            },
        };
        let b: i64 = match rv.bridge_int() {
            Ok(n) => n,
            Err(k) => {
                return StepOutcome::Failed(Error { kind: k, line: self.line });
            },
        };
        let holds: bool = if negated { a != b } else { a == b };
        if holds {
            if self.frames.len() >= self.max_depth {
                return StepOutcome::Failed(
                    Error { kind: ErrorKind::DepthLimitExceeded, line: self.line },
                );
            }
            let ghost m0 = self@;
            let fc = FrameContext {
                frame: Frame::IfStatement,
                variables: NameMap::new(),
                functions: NameMap::new(),
            };
            let ghost frames0 = self.frames@;
            self.frames.push(fc);
            self.line = self.line + 1;
            proof {
                lemma_frames_view_push(frames0, fc);
                assert(fc@ =~~= empty_scope(FrameModel::IfStatement));
                assert(self@ =~~= (StateModel {
                    line: m0.line + 1,
                    frames: m0.frames.push(empty_scope(FrameModel::IfStatement)),
                    ..m0
                }));
            }
            StepOutcome::Continue
        } else {
            if last_line >= progn {
                return StepOutcome::Failed(
                    Error { kind: ErrorKind::JumpOutOfBounds, line: self.line },
                );
            }
            let ghost m0 = self@;
            self.line = last_line + 1;
            proof {
                assert(self@ =~~= (StateModel { line: last_line + 1, ..m0 }));
            }
            StepOutcome::Continue
        }
    }

    /// Executes one variable declaration of the kind whose zero value is
    /// `zero`.
    fn step_decl(&mut self, name: &String, value: &String, zero: VariableType) -> (r: StepOutcome)
        requires
            old(self).wf(),
            old(self).line < usize::MAX,
        ensures
            final(self).wf(),
            match r {
                StepOutcome::Continue => step_decl_model(old(self)@, name@, value@, zero@)
                    == StepModel::KeepGoing(final(self)@),
                StepOutcome::Failed(e) => step_decl_model(old(self)@, name@, value@, zero@)
                    == StepModel::Fault(old(self)@, e.kind) && final(self)@ == old(self)@ && e.line
                    == old(self).line,
                _ => false,
            },
    {
        let v = match self.evaluate_value(value.as_str()) {
            Ok(v) => v,
            Err(k) => {
                return StepOutcome::Failed(Error { kind: k, line: self.line });
            },
        };
        if is_name_invalid(name.as_str()) {
            return StepOutcome::Failed(
                Error { kind: ErrorKind::InvalidVariableName, line: self.line },
            );
        }
        let last: usize = self.frames.len() - 1;
        if self.frames[last].variables.contains(name.as_str()) {
            return StepOutcome::Failed(
                Error { kind: ErrorKind::VariableAlreadyExists, line: self.line },
            );
        }
        let mut nv = Variable { variable_type: zero };
        match nv.set(&v) {
            Err(k) => {
                return StepOutcome::Failed(Error { kind: k, line: self.line });
            },
            Ok(_) => {
            },
        }
        let ghost m0 = self@;
        let ghost frames0 = self.frames@;
        let mut fc = self.frames.remove(last);
        fc.variables.insert_new(name.clone(), nv);
        self.frames.insert(last, fc);
        self.line = self.line + 1;
        proof {
            assert(self.frames@ =~= frames0.update(last as int, self.frames@[last as int]));
            lemma_frames_view_update(frames0, last as int, self.frames@[last as int]);
            assert(self@.frames =~= m0.frames.update(
                last as int,
                ScopeModel {
                    frame: m0.frames[last as int].frame,
                    vars: m0.frames[last as int].vars.insert(name@, nv@),
                    funcs: m0.frames[last as int].funcs,
                },
            ));
            assert(step_decl_model(m0, name@, value@, zero@) == StepModel::KeepGoing(self@));
        }
        StepOutcome::Continue
    }

    /// Executes one assignment to an existing variable.
    fn step_assign(&mut self, name: &String, value: &String) -> (r: StepOutcome)
        requires
            old(self).wf(),
            old(self).line < usize::MAX,
        ensures
            final(self).wf(),
            match r {
                StepOutcome::Continue => step_assign_model(old(self)@, name@, value@)
                    == StepModel::KeepGoing(final(self)@),
                StepOutcome::Failed(e) => step_assign_model(old(self)@, name@, value@)
                    == StepModel::Fault(old(self)@, e.kind) && final(self)@ == old(self)@ && e.line
                    == old(self).line,
                _ => false,
            },
    {
        let v = match self.evaluate_value(value.as_str()) {
            Ok(v) => v,
            Err(k) => {
                return StepOutcome::Failed(Error { kind: k, line: self.line });
            },
        };
        let (j, cur) = match self.find_variable(name.as_str()) {
            Some(p) => p,
            None => {
                return StepOutcome::Failed(
                    Error { kind: ErrorKind::VariableNotFound, line: self.line },
                );
            },
        };
        let mut nv = cur;
        match nv.set(&v) {
            Err(k) => {
                return StepOutcome::Failed(Error { kind: k, line: self.line });
            },
            Ok(_) => {
            },
        }
        let ghost m0 = self@;
        let ghost frames0 = self.frames@;
        let mut fc = self.frames.remove(j);
        fc.variables.set_value(name.as_str(), nv);
        self.frames.insert(j, fc);
        self.line = self.line + 1;
        proof {
            assert(self.frames@ =~= frames0.update(j as int, self.frames@[j as int]));
            lemma_frames_view_update(frames0, j as int, self.frames@[j as int]);
            lemma_update_at(m0.frames, name@, nv@, j as int);
            assert(self@.frames =~= update_var(m0.frames, name@, nv@));
            assert(step_assign_model(m0, name@, value@) == StepModel::KeepGoing(self@));
        }
        StepOutcome::Continue
    }

    /// Executes one function declaration.
    fn step_fn_decl(
        &mut self,
        name: &String,
        first_line: usize,
        last_line: usize,
        arguments: &Vec<(String, VariableType)>,
        progn: usize,
    ) -> (r: StepOutcome)
        requires
            old(self).wf(),
        ensures
            final(self).wf(),
            match r {
                StepOutcome::Continue => step_fn_decl_model(
                    old(self)@,
                    name@,
                    first_line as int,
                    last_line as int,
                    params_view(arguments@),
                    progn as int,
                ) == StepModel::KeepGoing(final(self)@),
                StepOutcome::Failed(e) => step_fn_decl_model(
                    old(self)@,
                    name@,
                    first_line as int,
                    last_line as int,
                    params_view(arguments@),
                    progn as int,
                ) == StepModel::Fault(old(self)@, e.kind) && final(self)@ == old(self)@ && e.line
                    == old(self).line,
                _ => false,
            },
    {
        let last: usize = self.frames.len() - 1;
        if self.frames[last].functions.contains(name.as_str()) {
            return StepOutcome::Failed(
                Error { kind: ErrorKind::FunctionAlreadyDeclared, line: self.line },
            );
        }
        if last_line >= progn {
            return StepOutcome::Failed(
                Error { kind: ErrorKind::JumpOutOfBounds, line: self.line },
            );
        }
        let info = FunctionInfo { first_line, arguments: clone_params(arguments) };
        let ghost m0 = self@;
        let ghost frames0 = self.frames@;
        let mut fc = self.frames.remove(last);
        fc.functions.insert_new(name.clone(), info);
        self.frames.insert(last, fc);
        self.line = last_line + 1;
        proof {
            assert(self.frames@ =~= frames0.update(last as int, self.frames@[last as int]));
            lemma_frames_view_update(frames0, last as int, self.frames@[last as int]);
            assert(self@.frames =~= m0.frames.update(
                last as int,
                ScopeModel {
                    frame: m0.frames[last as int].frame,
                    vars: m0.frames[last as int].vars,
                    funcs: m0.frames[last as int].funcs.insert(
                        name@,
                        FunctionModel {
                            entry: first_line as int,
                            params: params_view(arguments@),
                        },
                    ),
                },
            ));
            assert(step_fn_decl_model(
                m0,
                name@,
                first_line as int,
                last_line as int,
                params_view(arguments@),
                progn as int,
            ) == StepModel::KeepGoing(self@));
        }
        StepOutcome::Continue
    }

    /// Executes one function call: a user function found on the scope chain
    /// gets a new function scope with its parameters bound from the call's
    /// argument expressions; an unresolved name goes to the standard
    /// library.
    fn step_call(
        &mut self,
        function: &String,
        values: &Vec<String>,
        target_variable: &Option<String>,
        progn: usize,
    ) -> (r: StepOutcome)
        requires
            old(self).wf(),
            old(self).line < usize::MAX,
        ensures
            final(self).wf(),
            match r {
                StepOutcome::Continue => step_call_model(
                    old(self)@,
                    function@,
                    crate::semantics::strings_view(values@),
                    opt_name_view(*target_variable),
                    progn as int,
                ) == StepModel::KeepGoing(final(self)@),
                StepOutcome::AwaitInput => step_call_model(
                    old(self)@,
                    function@,
                    crate::semantics::strings_view(values@),
                    opt_name_view(*target_variable),
                    progn as int,
                ) == StepModel::AwaitInput(final(self)@),
                StepOutcome::Failed(e) => step_call_model(
                    old(self)@,
                    function@,
                    crate::semantics::strings_view(values@),
                    opt_name_view(*target_variable),
                    progn as int,
                ) == StepModel::Fault(old(self)@, e.kind) && final(self)@ == old(self)@ && e.line
                    == old(self).line,
                _ => false,
            },
    {
        let ghost m0 = self@;
        let ghost vals = crate::semantics::strings_view(values@);
        match self.find_function(function.as_str()) {
            Some(info) => {
                if info.arguments.len() != values.len() {
                    return StepOutcome::Failed(
                        Error { kind: ErrorKind::ArgumentCountMismatch, line: self.line },
                    );
                }
                if self.frames.len() >= self.max_depth {
                    return StepOutcome::Failed(
                        Error { kind: ErrorKind::DepthLimitExceeded, line: self.line },
                    );
                }
                if info.first_line >= progn {
                    return StepOutcome::Failed(
                        Error { kind: ErrorKind::JumpOutOfBounds, line: self.line },
                    );
                }
                let fc = FrameContext {
                    frame: Frame::Function {
                        caller_line: self.line,
                        target_variable: clone_opt_string(target_variable),
                    },
                    variables: NameMap::new(),
                    functions: NameMap::new(),
                };
                let ghost newf0 = fc@;
                let ghost frames0 = self.frames@;
                self.frames.push(fc);
                proof {
                    lemma_frames_view_push(frames0, fc);
                    assert(newf0 =~~= empty_scope(
                        FrameModel::Function {
                            caller_line: m0.line,
                            target_variable: opt_name_view(*target_variable),
                        },
                    ));
                }
                let ghost params = info@.params;
                let nvals: usize = values.len();
                let mut idx: usize = 0;
                while idx < nvals
                    invariant
                        self.wf(),
                        0 <= idx <= nvals,
                        nvals == values@.len(),
                        params == params_view(info.arguments@),
                        params.len() == nvals,
                        vals == crate::semantics::strings_view(values@),
                        vals.len() == nvals,
                        info.arguments@.len() == nvals,
                        lookup_fn(m0.frames, function@) == Some(info@),
                        m0.frames.len() < m0.max_depth,
                        info@.entry >= 0,
                        info@.entry + 1 <= progn as int,
                        newf0 == empty_scope(
                            FrameModel::Function {
                                caller_line: m0.line,
                                target_variable: opt_name_view(*target_variable),
                            },
                        ),
                        self.frames@.len() == frames0.len() + 1,
                        self.frames@.drop_last() =~= frames0,
                        m0.frames == frames_view(frames0),
                        self@.frames == m0.frames.push(self@.frames.last()),
                        self.line == old(self).line,
                        self.output == old(self).output,
                        self.pending == old(self).pending,
                        self.max_depth == old(self).max_depth,
                        m0 == old(self)@,
                        bind_params(m0.frames, newf0, params, vals, 0) == bind_params(
                            m0.frames,
                            self@.frames.last(),
                            params,
                            vals,
                            idx as int,
                        ),
                    decreases nvals - idx,
                {
                    let ghost newf_cur = self@.frames.last();
                    match self.evaluate_value(values[idx].as_str()) {
                        Err(k) => {
                            let lastidx: usize = self.frames.len() - 1;
                            let _rm = self.frames.remove(lastidx);
                            proof {
                                assert(self.frames@ =~= frames0);
                                assert(self@ =~~= m0);
                            }
                            return StepOutcome::Failed(Error { kind: k, line: self.line });
                        },
                        Ok(av) => {
                            if is_name_invalid(info.arguments[idx].0.as_str()) {
                                let lastidx: usize = self.frames.len() - 1;
                                let _rm = self.frames.remove(lastidx);
                                proof {
                                    assert(self.frames@ =~= frames0);
                                    assert(self@ =~~= m0);
                                }
                                return StepOutcome::Failed(
                                    Error { kind: ErrorKind::InvalidVariableName, line: self.line },
                                );
                            }
                            let lastidx: usize = self.frames.len() - 1;
                            if self.frames[lastidx].variables.contains(
                                info.arguments[idx].0.as_str(),
                            ) {
                                let _rm = self.frames.remove(lastidx);
                                proof {
                                    assert(self.frames@ =~= frames0);
                                    assert(self@ =~~= m0);
                                }
                                return StepOutcome::Failed(
                                    Error {
                                        kind: ErrorKind::VariableAlreadyExists,
                                        line: self.line,
                                    },
                                );
                            }
                            let mut pv = Variable {
                                variable_type: info.arguments[idx].1.clone(),
                            };
                            match pv.set(&av) {
                                Err(k) => {
                                    let _rm = self.frames.remove(lastidx);
                                    proof {
                                        assert(self.frames@ =~= frames0);
                                        assert(self@ =~~= m0);
                                    }
                                    return StepOutcome::Failed(
                                        Error { kind: k, line: self.line },
                                    );
                                },
                                Ok(_) => {
                                },
                            }
                            let mut fc2 = self.frames.remove(lastidx);
                            fc2.variables.insert_new(info.arguments[idx].0.clone(), pv);
                            self.frames.insert(lastidx, fc2);
                            proof {
                                assert(self.frames@.drop_last() =~= frames0);
                                assert(self@.frames =~= m0.frames.push(self@.frames.last()));
                                assert(self@.frames.last() =~~= (ScopeModel {
                                    frame: newf_cur.frame,
                                    vars: newf_cur.vars.insert(
                                        info.arguments@[idx as int].0@,
                                        pv@,
                                    ),
                                    funcs: newf_cur.funcs,
                                }));
                            }
                            idx = idx + 1;
                        },
                    }
                }
                let ghost newf_done = self@.frames.last();
                self.line = info.first_line + 1;
                proof {
                    assert(bind_params(m0.frames, newf0, params, vals, 0)
                        == Ok::<ScopeModel, ErrorKind>(newf_done));
                    assert(self@ =~~= (StateModel {
                        line: info@.entry + 1,
                        frames: m0.frames.push(newf_done),
                        ..m0
                    }));
                    assert(step_call_model(
                        m0,
                        function@,
                        vals,
                        opt_name_view(*target_variable),
                        progn as int,
                    ) == StepModel::KeepGoing(self@));
                }
                StepOutcome::Continue
            },
            None => {
                let nvals: usize = values.len();
                let mut args: Vec<Variable> = Vec::new();
                let mut idx: usize = 0;
                while idx < nvals
                    invariant
                        self.wf(),
                        0 <= idx <= nvals,
                        nvals == values@.len(),
                        vals == crate::semantics::strings_view(values@),
                        vals.len() == nvals,
                        lookup_fn(m0.frames, function@) is None,
                        m0 == old(self)@,
                        self@ == m0,
                        *self == *old(self),
                        match eval_args(m0.frames, vals, idx as int) {
                            Ok(rest) => eval_args(m0.frames, vals, 0) == Ok::<
                                Seq<crate::variables::ValueModel>,
                                ErrorKind,
                            >(crate::variables::vars_view(args@) + rest),
                            Err(k) => eval_args(m0.frames, vals, 0) == Err::<
                                Seq<crate::variables::ValueModel>,
                                ErrorKind,
                            >(k),
                        },
                    decreases nvals - idx,
                {
                    match self.evaluate_value(values[idx].as_str()) {
                        Err(k) => {
                            return StepOutcome::Failed(Error { kind: k, line: self.line });
                        },
                        Ok(v) => {
                            let ghost args0 = args@;
                            args.push(v);
                            proof {
                                assert(crate::variables::vars_view(args@)
                                    =~= crate::variables::vars_view(args0).push(v@));
                                match eval_args(m0.frames, vals, idx as int + 1) {
                                    Ok(rest) => {
                                        assert(crate::variables::vars_view(args0) + (seq![v@]
                                            + rest) =~= crate::variables::vars_view(args@) + rest);
                                    },
                                    Err(_) => {
                                    },
                                }
                            }
                            idx = idx + 1;
                        },
                    }
                }
                proof {
                    assert(eval_args(m0.frames, vals, nvals as int) == Ok::<
                        Seq<crate::variables::ValueModel>,
                        ErrorKind,
                    >(Seq::empty()));
                    assert(crate::variables::vars_view(args@) + Seq::empty()
                        =~= crate::variables::vars_view(args@));
                }
                match stdlib_function(function.as_str(), &args) {
                    StdlibOutcome::Printed(text) => {
                        let ghost out0 = self.output@;
                        self.output.append(text.as_str());
                        self.line = self.line + 1;
                        proof {
                            assert(self.output@ =~= m0.output + printed_all(
                                crate::variables::vars_view(args@),
                                0,
                            ) + seq!['\n']);
                            assert(self@ =~~= (StateModel {
                                line: m0.line + 1,
                                output: m0.output + printed_all(
                                    crate::variables::vars_view(args@),
                                    0,
                                ) + seq!['\n'],
                                ..m0
                            }));
                        }
                        StepOutcome::Continue
                    },
                    StdlibOutcome::InputRequested(text) => {
                        self.output.append(text.as_str());
                        self.pending = Some(clone_opt_string(target_variable));
                        self.line = self.line + 1;
                        proof {
                            assert(self.output@ =~= m0.output + printed_all(
                                crate::variables::vars_view(args@),
                                0,
                            ));
                            assert(self@ =~~= (StateModel {
                                line: m0.line + 1,
                                output: m0.output + printed_all(
                                    crate::variables::vars_view(args@),
                                    0,
                                ),
                                pending: Some(opt_name_view(*target_variable)),
                                ..m0
                            }));
                        }
                        StepOutcome::AwaitInput
                    },
                    StdlibOutcome::NotHandled => {
                        StepOutcome::Failed(
                            Error { kind: ErrorKind::UnknownFunction, line: self.line },
                        )
                    },
                }
            },
        }
    }

    /// Executes the single instruction under the program counter, or
    /// reports the run's end. This is exactly one transition of
    /// `crate::semantics::step_model`.
    fn step(&mut self, instructions: &Vec<Instruction>) -> (r: StepOutcome)
        requires
            old(self).wf(),
        ensures
            final(self).wf(),
            match r {
                StepOutcome::Continue => step_model(instructions@, old(self)@)
                    == StepModel::KeepGoing(final(self)@),
                StepOutcome::AwaitInput => step_model(instructions@, old(self)@)
                    == StepModel::AwaitInput(final(self)@),
                StepOutcome::Finished => step_model(instructions@, old(self)@)
                    == StepModel::Complete(final(self)@) && final(self)@ == old(self)@,
                StepOutcome::Failed(e) => step_model(instructions@, old(self)@)
                    == StepModel::Fault(old(self)@, e.kind) && final(self)@ == old(self)@
                    && e.line == old(self).line,
            },
    {
        if self.pending.is_some() {
            return StepOutcome::AwaitInput;
        }
        let n: usize = instructions.len();
        if self.line == n {
            if self.frames.len() == 1 {
                return StepOutcome::Finished;
            } else {
                return StepOutcome::Failed(
                    Error { kind: ErrorKind::UnclosedBlock, line: self.line },
                );
            }
        }
        if self.line > n {
            return StepOutcome::Failed(Error { kind: ErrorKind::JumpOutOfBounds, line: self.line });
        }
        match &instructions[self.line] {
            Instruction::NoOp => {
                let ghost m0 = self@;
                self.line = self.line + 1;
                proof {
                    assert(self@ =~~= (StateModel { line: m0.line + 1, ..m0 }));
                }
                StepOutcome::Continue
            },
            Instruction::FromValueToValue { value, start, end } => self.step_for(
                value,
                start,
                end,
            ),
            Instruction::IfValueIsValue { left_value, right_value, last_line } => self.step_if(
                left_value,
                right_value,
                *last_line,
                false,
                n,
            ),
            Instruction::IfValueIsNotValue { left_value, right_value, last_line } => self.step_if(
                left_value,
                right_value,
                *last_line,
                true,
                n,
            ),
            Instruction::Done => self.step_done(n),
            Instruction::FunctionDeclaration { name, first_line, last_line, arguments } => self
                .step_fn_decl(name, *first_line, *last_line, arguments, n),
            Instruction::FunctionCall { function, values, target_variable } => self.step_call(
                function,
                values,
                target_variable,
                n,
            ),
            Instruction::Return { value } => self.step_return(value, n),
            Instruction::IntDeclaration { name, value } => self.step_decl(
                name,
                value,
                VariableType::Integer(0),
            ),
            Instruction::BoolDeclaration { name, value } => self.step_decl(
                name,
                value,
                VariableType::Boolean(false),
            ),
            Instruction::StringDeclaration { name, value } => self.step_decl(
                name,
                value,
                VariableType::Str(String::new()),
            ),
            Instruction::Assignment { name, value } => self.step_assign(name, value),
        }
    }

    /// Fetch-executes `instructions` for at most `fuel` steps. The run ends
    /// by completing the program, pausing for input, hitting a fatal error,
    /// or exhausting the budget; the final state is in every case the one
    /// that iterating the engine's mathematical step relation yields.
    pub fn execute(&mut self, instructions: &Vec<Instruction>, fuel: u64) -> (r: RunOutcome)
        requires
            old(self).wf(),
        ensures
            final(self).wf(),
            match r {
                RunOutcome::Finished => exists|nn: nat|
                    #[trigger] run_steps(instructions@, old(self)@, nn) == StepModel::Complete(
                        final(self)@,
                    ),
                RunOutcome::NeedsInput => exists|nn: nat|
                    #[trigger] run_steps(instructions@, old(self)@, nn) == StepModel::AwaitInput(
                        final(self)@,
                    ),
                RunOutcome::Failed(e) => exists|nn: nat|
                    #[trigger] run_steps(instructions@, old(self)@, nn) == StepModel::Fault(
                        final(self)@,
                        e.kind,
                    ),
                RunOutcome::Running => run_steps(instructions@, old(self)@, fuel as nat)
                    == StepModel::KeepGoing(final(self)@),
            },
    {
        let ghost start = self@;
        let mut used: u64 = 0;
        while used < fuel
            invariant
                self.wf(),
                start == old(self)@,
                used <= fuel,
                run_steps(instructions@, start, used as nat) == StepModel::KeepGoing(self@),
            decreases fuel - used,
        {
            let ghost pre = self@;
            let ghost usedg = used as nat;
            match self.step(instructions) {
                StepOutcome::Continue => {
                    proof {
                        lemma_run_steps_compose(instructions@, start, usedg, 1, pre);
                        assert(run_steps(instructions@, self@, 0) == StepModel::KeepGoing(self@));
                        assert(run_steps(instructions@, pre, 1) == StepModel::KeepGoing(self@));
                        assert(usedg + 1 == (used + 1) as nat);
                    }
                    used = used + 1;
                },
                StepOutcome::AwaitInput => {
                    proof {
                        lemma_run_steps_compose(instructions@, start, usedg, 1, pre);
                        assert(run_steps(instructions@, pre, 1) == StepModel::AwaitInput(self@));
                        assert(run_steps(instructions@, start, usedg + 1)
                            == StepModel::AwaitInput(self@));
                    }
                    return RunOutcome::NeedsInput;
                },
                StepOutcome::Finished => {
                    proof {
                        lemma_run_steps_compose(instructions@, start, usedg, 1, pre);
                        assert(run_steps(instructions@, pre, 1) == StepModel::Complete(self@));
                        assert(run_steps(instructions@, start, usedg + 1) == StepModel::Complete(
                            self@,
                        ));
                    }
                    return RunOutcome::Finished;
                },
                StepOutcome::Failed(e) => {
                    proof {
                        lemma_run_steps_compose(instructions@, start, usedg, 1, pre);
                        assert(run_steps(instructions@, pre, 1) == StepModel::Fault(pre, e.kind));
                        assert(run_steps(instructions@, start, usedg + 1) == StepModel::Fault(
                            self@,
                            e.kind,
                        ));
                    }
                    return RunOutcome::Failed(e);
                },
            }
        }
        RunOutcome::Running
    }

    /// Supplies the one line of input a paused run is waiting for: the
    /// pause is cleared and, when the call asked for a result, the line is
    /// stored as a string into the requested variable, created in the
    /// innermost scope when it does not exist yet.
    pub fn provide_input(&mut self, text: String) -> (r: Result<(), Error>)
        requires
            old(self).wf(),
            old(self)@.pending is Some,
        ensures
            final(self).wf(),
            match r {
                Ok(_) => crate::semantics::provide_input_model(old(self)@, text@) == Ok::<
                    StateModel,
                    ErrorKind,
                >(final(self)@),
                Err(e) => crate::semantics::provide_input_model(old(self)@, text@) == Err::<
                    StateModel,
                    ErrorKind,
                >(e.kind) && final(self)@ == old(self)@ && e.line == old(self).line,
            },
    {
        let ghost m0 = self@;
        let ghost tv = text@;
        let target: Option<String> = match &self.pending {
            Some(t) => clone_opt_string(t),
            None => {
                proof {
                    assert(false);
                }
                None
            },
        };
        match target {
            None => {
                self.pending = None;
                proof {
                    assert(self@ =~~= (StateModel { pending: None, ..m0 }));
                }
                Ok(())
            },
            Some(name) => {
                let v = Variable { variable_type: VariableType::Str(text) };
                match self.find_variable(name.as_str()) {
                    Some((j, cur)) => {
                        let mut nv = cur;
                        match nv.set(&v) {
                            Err(k) => {
                                return Err(Error { kind: k, line: self.line });
                            },
                            Ok(_) => {
                            },
                        }
                        self.pending = None;
                        let ghost frames0 = self.frames@;
                        let mut fc = self.frames.remove(j);
                        fc.variables.set_value(name.as_str(), nv);
                        self.frames.insert(j, fc);
                        proof {
                            assert(self.frames@ =~= frames0.update(
                                j as int,
                                self.frames@[j as int],
                            ));
                            lemma_frames_view_update(frames0, j as int, self.frames@[j as int]);
                            lemma_update_at(m0.frames, name@, nv@, j as int);
                            assert(self@.frames =~= update_var(m0.frames, name@, nv@));
                            assert(crate::semantics::provide_input_model(m0, tv) == Ok::<
                                StateModel,
                                ErrorKind,
                            >(self@));
                        }
                        Ok(())
                    },
                    None => {
                        if is_name_invalid(name.as_str()) {
                            return Err(
                                Error { kind: ErrorKind::InvalidVariableName, line: self.line },
                            );
                        }
                        self.pending = None;
                        let last: usize = self.frames.len() - 1;
                        let ghost frames0 = self.frames@;
                        let mut fc = self.frames.remove(last);
                        proof {
                            assert(!m0.frames.last().vars.contains_key(name@));
                        }
                        fc.variables.insert_new(name.clone(), v);
                        self.frames.insert(last, fc);
                        proof {
                            assert(self.frames@ =~= frames0.update(
                                last as int,
                                self.frames@[last as int],
                            ));
                            lemma_frames_view_update(frames0, last as int, self.frames@[last as int]);
                            assert(self@.frames =~= m0.frames.update(
                                m0.frames.len() - 1,
                                ScopeModel {
                                    frame: m0.frames.last().frame,
                                    vars: m0.frames.last().vars.insert(
                                        name@,
                                        crate::variables::ValueModel::Text(tv),
                                    ),
                                    funcs: m0.frames.last().funcs,
                                },
                            ));
                            assert(crate::semantics::provide_input_model(m0, tv) == Ok::<
                                StateModel,
                                ErrorKind,
                            >(self@));
                        }
                        Ok(())
                    },
                }
            },
        }
    }
}

} // verus!
