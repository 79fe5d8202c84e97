//! Instructions and the line classifier.
//!
//! Each tokenized source line is pattern-matched into exactly one
//! instruction. An instruction carries only strings and absolute line
//! indices; block-matching jump targets are precomputed here, once, so that
//! the execution engine never re-derives block structure at run time.

use vstd::prelude::*;
use vstd::string::*;

use crate::errors::{Error, ErrorKind};
use crate::lexer::{Token, TokenType};
use crate::variables::VariableType;

verus! {

/// One executable instruction, produced from one source line.
#[derive(Debug)]
pub enum Instruction {
    /// An empty line.
    NoOp,
    /// A loop header: `for <value> from <start> to <end>`.
    FromValueToValue { value: String, start: String, end: String },
    /// A conditional header: `if <left> is <right>`; `last_line` is the
    /// precomputed index of the matching block terminator.
    IfValueIsValue { left_value: String, right_value: String, last_line: usize },
    /// A negated conditional header: `if <left> is not <right>`.
    IfValueIsNotValue { left_value: String, right_value: String, last_line: usize },
    /// The `done` terminator closing the innermost block.
    Done,
    /// A function declaration with its body's first and last line and its
    /// parameter list of (name, kind-zero-value) pairs.
    FunctionDeclaration {
        name: String,
        first_line: usize,
        last_line: usize,
        arguments: Vec<(String, VariableType)>,
    },
    /// A function call, optionally assigning the result to a variable.
    FunctionCall { function: String, values: Vec<String>, target_variable: Option<String> },
    /// A `return <value>` statement.
    Return { value: String },
    /// An integer variable declaration with an initializer expression.
    IntDeclaration { name: String, value: String },
    /// A boolean variable declaration with an initializer expression.
    BoolDeclaration { name: String, value: String },
    /// A string variable declaration with an initializer expression.
    StringDeclaration { name: String, value: String },
    /// An assignment to an existing variable.
    Assignment { name: String, value: String },
}

/// The mathematical view of one instruction: the same shape over character
/// sequences and unbounded integers.
pub enum InstructionModel {
    NoOp,
    FromValueToValue { value: Seq<char>, start: Seq<char>, end: Seq<char> },
    IfValueIsValue { left_value: Seq<char>, right_value: Seq<char>, last_line: int },
    IfValueIsNotValue { left_value: Seq<char>, right_value: Seq<char>, last_line: int },
    Done,
    FunctionDeclaration {
        name: Seq<char>,
        first_line: int,
        last_line: int,
        arguments: Seq<(Seq<char>, crate::variables::ValueModel)>,
    },
    FunctionCall {
        function: Seq<char>,
        values: Seq<Seq<char>>,
        target_variable: Option<Seq<char>>,
    },
    Return { value: Seq<char> },
    IntDeclaration { name: Seq<char>, value: Seq<char> },
    BoolDeclaration { name: Seq<char>, value: Seq<char> },
    StringDeclaration { name: Seq<char>, value: Seq<char> },
    Assignment { name: Seq<char>, value: Seq<char> },
}

impl View for Instruction {
    type V = InstructionModel;

    open spec fn view(&self) -> InstructionModel {
        match self {
            Instruction::NoOp => InstructionModel::NoOp,
            Instruction::FromValueToValue { value, start, end } => {
                InstructionModel::FromValueToValue { value: value@, start: start@, end: end@ }
            },
            Instruction::IfValueIsValue { left_value, right_value, last_line } => {
                InstructionModel::IfValueIsValue {
                    left_value: left_value@,
                    right_value: right_value@,
                    last_line: *last_line as int,
                }
            },
            Instruction::IfValueIsNotValue { left_value, right_value, last_line } => {
                InstructionModel::IfValueIsNotValue {
                    left_value: left_value@,
                    right_value: right_value@,
                    last_line: *last_line as int,
                }
            },
            Instruction::Done => InstructionModel::Done,
            Instruction::FunctionDeclaration { name, first_line, last_line, arguments } => {
                InstructionModel::FunctionDeclaration {
                    name: name@,
                    first_line: *first_line as int,
                    last_line: *last_line as int,
                    arguments: crate::semantics::params_view(arguments@),
                }
            },
            Instruction::FunctionCall { function, values, target_variable } => {
                InstructionModel::FunctionCall {
                    function: function@,
                    values: crate::semantics::strings_view(values@),
                    target_variable: crate::semantics::opt_name_view(*target_variable),
                }
            },
            Instruction::Return { value } => InstructionModel::Return { value: value@ },
            Instruction::IntDeclaration { name, value } => InstructionModel::IntDeclaration {
                name: name@,
                value: value@,
            },
            Instruction::BoolDeclaration { name, value } => InstructionModel::BoolDeclaration {
                name: name@,
                value: value@,
            },
            Instruction::StringDeclaration { name, value } => {
                InstructionModel::StringDeclaration { name: name@, value: value@ }
            },
            Instruction::Assignment { name, value } => InstructionModel::Assignment {
                name: name@,
                value: value@,
            },
        }
    }
}

/// The views of the tokenized lines.
pub open spec fn lines_view(s: Seq<Vec<Token>>) -> Seq<Seq<(TokenType, Seq<char>)>> {
    s.map_values(|l: Vec<Token>| crate::lexer::tokens_view(l@))
}

/// The spellings of a run of tokens.
pub open spec fn texts_of(s: Seq<(TokenType, Seq<char>)>) -> Seq<Seq<char>> {
    s.map_values(|t: (TokenType, Seq<char>)| t.1)
}

/// Whether the line's token types are exactly `types`.
pub open spec fn matches_types(line: Seq<(TokenType, Seq<char>)>, types: Seq<TokenType>) -> bool {
    line.len() == types.len() && forall|j: int| 0 <= j < types.len() ==> line[j].0 == types[j]
}

/// Whether the line's token types begin with `types`.
pub open spec fn begins_with_types(
    line: Seq<(TokenType, Seq<char>)>,
    types: Seq<TokenType>,
) -> bool {
    line.len() >= types.len() && forall|j: int| 0 <= j < types.len() ==> line[j].0 == types[j]
}

/// Whether the line's token types end with `types`.
pub open spec fn ends_with_types(line: Seq<(TokenType, Seq<char>)>, types: Seq<TokenType>) -> bool {
    line.len() >= types.len() && forall|j: int|
        0 <= j < types.len() ==> line[line.len() - types.len() + j].0 == types[j]
}

/// The index of the block terminator matching a block opened before line
/// `i`, with `depth` blocks currently open: every non-empty line whose
/// first token opens a block deepens the count, every terminator line
/// shallows it, and the line taking it to zero is the match.
pub open spec fn end_of_frame_from(
    lines: Seq<Seq<(TokenType, Seq<char>)>>,
    i: int,
    depth: int,
) -> Option<int>
    decreases lines.len() - i,
{
    if i < 0 || i >= lines.len() {
        None
    } else if lines[i].len() == 0 {
        end_of_frame_from(lines, i + 1, depth)
    } else {
        let first = lines[i][0].0;
        let depth2: int = if first is For || first is If || first is Function {
            depth + 1
        } else if first is Done {
            depth - 1
        } else {
            depth
        };
        if depth2 == 0 {
            Some(i)
        } else {
            end_of_frame_from(lines, i + 1, depth2)
        }
    }
}

/// The terminator matching the block opened on line `line`.
pub open spec fn spec_end_of_frame(lines: Seq<Seq<(TokenType, Seq<char>)>>, line: int) -> Option<
    int,
> {
    end_of_frame_from(lines, line + 1, 1)
}

/// The zero value of the kind a type token names (a plain value token
/// never reaches this in a well-classified line).
pub open spec fn zero_of_type_token(t: TokenType) -> crate::variables::ValueModel {
    match t {
        TokenType::Int => crate::variables::ValueModel::Int(0),
        TokenType::Bool => crate::variables::ValueModel::Bool(false),
        _ => crate::variables::ValueModel::Text(Seq::empty()),
    }
}

/// The tokens from position `j` on with the separating double pipes
/// removed.
pub open spec fn drop_pipes(s: Seq<(TokenType, Seq<char>)>, j: int) -> Seq<(TokenType, Seq<char>)>
    decreases s.len() - j,
{
    if j < 0 || j >= s.len() {
        Seq::empty()
    } else if s[j].0 is DoublePipe {
        drop_pipes(s, j + 1)
    } else {
        seq![s[j]] + drop_pipes(s, j + 1)
    }
}

/// The parameter list read off the pipe-stripped declaration tokens from
/// position `j` on: a kind token then a fresh name, pair after pair. A
/// token that names no kind, an unpaired trailing kind, and a repeated
/// name are each fatal.
pub open spec fn parse_params_from(
    toks: Seq<(TokenType, Seq<char>)>,
    j: int,
    acc: Seq<(Seq<char>, crate::variables::ValueModel)>,
) -> Result<Seq<(Seq<char>, crate::variables::ValueModel)>, ErrorKind>
    decreases toks.len() - j,
{
    if j < 0 || j >= toks.len() {
        Ok(acc)
    } else if !(toks[j].0 is Int || toks[j].0 is Bool || toks[j].0 is Str) {
        Err(ErrorKind::UnknownParameterType)
    } else if j + 1 >= toks.len() {
        Err(ErrorKind::UnbalancedParameters)
    } else if exists|p: int| 0 <= p < acc.len() && acc[p].0 == toks[j + 1].1 {
        Err(ErrorKind::DuplicateParameterName)
    } else {
        parse_params_from(toks, j + 2, acc.push((toks[j + 1].1, zero_of_type_token(toks[j].0))))
    }
}

/// What line `i` classifies to: exactly one instruction, read off the
/// line's token-type sequence, with block-matching terminator indices
/// precomputed; a line matching no pattern is fatal.
pub open spec fn classify_line(lines: Seq<Seq<(TokenType, Seq<char>)>>, i: int) -> Result<
    InstructionModel,
    ErrorKind,
> {
    let line = lines[i];
    if line.len() == 0 {
        Ok(InstructionModel::NoOp)
    } else if matches_types(
        line,
        seq![
            TokenType::For,
            TokenType::Value,
            TokenType::From,
            TokenType::Value,
            TokenType::To,
            TokenType::Value,
        ],
    ) {
        Ok(
            InstructionModel::FromValueToValue {
                value: line[1].1,
                start: line[3].1,
                end: line[5].1,
            },
        )
    } else if matches_types(
        line,
        seq![TokenType::If, TokenType::Value, TokenType::Is, TokenType::Value],
    ) {
        match spec_end_of_frame(lines, i) {
            None => Err(ErrorKind::UnterminatedBlock),
            Some(e) => Ok(
                InstructionModel::IfValueIsValue {
                    left_value: line[1].1,
                    right_value: line[3].1,
                    last_line: e,
                },
            ),
        }
    } else if matches_types(
        line,
        seq![TokenType::If, TokenType::Value, TokenType::Is, TokenType::Not, TokenType::Value],
    ) {
        match spec_end_of_frame(lines, i) {
            None => Err(ErrorKind::UnterminatedBlock),
            Some(e) => Ok(
                InstructionModel::IfValueIsNotValue {
                    left_value: line[1].1,
                    right_value: line[4].1,
                    last_line: e,
                },
            ),
        }
    } else if matches_types(line, seq![TokenType::Done]) {
        Ok(InstructionModel::Done)
    } else if begins_with_types(line, seq![TokenType::Function, TokenType::Value]) {
        match spec_end_of_frame(lines, i) {
            None => Err(ErrorKind::UnterminatedBlock),
            Some(last) => {
                if begins_with_types(
                    line,
                    seq![TokenType::Function, TokenType::Value, TokenType::Colon],
                ) {
                    match parse_params_from(drop_pipes(line, 3), 0, Seq::empty()) {
                        Err(k) => Err(k),
                        Ok(args) => Ok(
                            InstructionModel::FunctionDeclaration {
                                name: line[1].1,
                                first_line: i,
                                last_line: last,
                                arguments: args,
                            },
                        ),
                    }
                } else {
                    Ok(
                        InstructionModel::FunctionDeclaration {
                            name: line[1].1,
                            first_line: i,
                            last_line: last,
                            arguments: Seq::empty(),
                        },
                    )
                }
            },
        }
    } else if matches_types(
        line,
        seq![TokenType::Int, TokenType::Value, TokenType::Equals, TokenType::Value],
    ) {
        Ok(InstructionModel::IntDeclaration { name: line[1].1, value: line[3].1 })
    } else if matches_types(
        line,
        seq![TokenType::Bool, TokenType::Value, TokenType::Equals, TokenType::Value],
    ) {
        Ok(InstructionModel::BoolDeclaration { name: line[1].1, value: line[3].1 })
    } else if matches_types(
        line,
        seq![TokenType::Str, TokenType::Value, TokenType::Equals, TokenType::Value],
    ) {
        Ok(InstructionModel::StringDeclaration { name: line[1].1, value: line[3].1 })
    } else if matches_types(line, seq![TokenType::Value, TokenType::Equals, TokenType::Value]) {
        Ok(InstructionModel::Assignment { name: line[0].1, value: line[2].1 })
    } else if begins_with_types(line, seq![TokenType::Value, TokenType::LeftBracket])
        && ends_with_types(line, seq![TokenType::RightBracket]) {
        Ok(
            InstructionModel::FunctionCall {
                function: line[0].1,
                values: texts_of(line.subrange(2, line.len() - 1)),
                target_variable: None,
            },
        )
    } else if begins_with_types(line, seq![TokenType::Value, TokenType::LeftBracket])
        && ends_with_types(
        line,
        seq![TokenType::RightBracket, TokenType::RightArrow, TokenType::Value],
    ) {
        Ok(
            InstructionModel::FunctionCall {
                function: line[0].1,
                values: texts_of(line.subrange(2, line.len() - 3)),
                target_variable: Some(line[line.len() - 1].1),
            },
        )
    } else if matches_types(line, seq![TokenType::Return, TokenType::Value]) {
        Ok(InstructionModel::Return { value: line[1].1 })
    } else {
        Err(ErrorKind::UnknownInstruction)
    }
}

/// Whether the line's token types are exactly `types`.
fn tokens_contain_types(line: &Vec<Token>, types: &Vec<TokenType>) -> (r: bool)
    ensures
        r == matches_types(crate::lexer::tokens_view(line@), types@),
{
    let ghost tv = crate::lexer::tokens_view(line@);
    if line.len() != types.len() {
        return false;
    }
    let m: usize = types.len();
    let mut j: usize = 0;
    while j < m
        invariant
            0 <= j <= m,
            m == types@.len(),
            line@.len() == m,
            tv == crate::lexer::tokens_view(line@),
            forall|k: int| 0 <= k < j ==> tv[k].0 == types@[k],
        decreases m - j,
    {
        if !(line[j].token_type == types[j]) {
            assert(tv[j as int].0 != types@[j as int]);
            return false;
        }
        j = j + 1;
    }
    true
}

/// Whether the line's token types begin with `types`.
fn tokens_begins_with_types(line: &Vec<Token>, types: &Vec<TokenType>) -> (r: bool)
    ensures
        r == begins_with_types(crate::lexer::tokens_view(line@), types@),
{
    let ghost tv = crate::lexer::tokens_view(line@);
    if line.len() < types.len() {
        return false;
    }
    let m: usize = types.len();
    let mut j: usize = 0;
    while j < m
        invariant
            0 <= j <= m,
            m == types@.len(),
            line@.len() >= m,
            tv == crate::lexer::tokens_view(line@),
            forall|k: int| 0 <= k < j ==> tv[k].0 == types@[k],
        decreases m - j,
    {
        if !(line[j].token_type == types[j]) {
            assert(tv[j as int].0 != types@[j as int]);
            return false;
        }
        j = j + 1;
    }
    true
}

/// Whether the line's token types end with `types`.
fn tokens_ends_with_type(line: &Vec<Token>, types: &Vec<TokenType>) -> (r: bool)
    ensures
        r == ends_with_types(crate::lexer::tokens_view(line@), types@),
{
    let ghost tv = crate::lexer::tokens_view(line@);
    if line.len() < types.len() {
        return false;
    }
    let llen: usize = line.len();
    let first: usize = llen - types.len();
    let m: usize = types.len();
    let mut j: usize = 0;
    while j < m
        invariant
            0 <= j <= m,
            m == types@.len(),
            llen == line@.len(),
            llen >= m,
            first == llen - m,
            tv == crate::lexer::tokens_view(line@),
            forall|k: int| 0 <= k < j ==> tv[first + k].0 == types@[k],
        decreases m - j,
    {
        if !(line[first + j].token_type == types[j]) {
            assert(tv[first as int + j as int].0 != types@[j as int]);
            return false;
        }
        j = j + 1;
    }
    true
}

/// The line of the terminator matching the block opened on line `line`, if
/// any terminates it.
fn get_corresponding_end_of_frame(lines: &Vec<Vec<Token>>, line: usize) -> (r: Option<usize>)
    requires
        line < lines@.len(),
    ensures
        match r {
            Some(e) => spec_end_of_frame(lines_view(lines@), line as int) == Some(e as int) && e
                < lines@.len(),
            None => spec_end_of_frame(lines_view(lines@), line as int) is None,
        },
{
    let ghost lv = lines_view(lines@);
    let n: usize = lines.len();
    let mut i: usize = line + 1;
    let mut depth: usize = 1;
    while i < n
        invariant
            line + 1 <= i <= n,
            n == lines@.len(),
            lv == lines_view(lines@),
            1 <= depth,
            depth <= i - line,
            end_of_frame_from(lv, line as int + 1, 1) == end_of_frame_from(
                lv,
                i as int,
                depth as int,
            ),
        decreases n - i,
    {
        if lines[i].len() != 0 {
            let first = lines[i][0].token_type;
            let opens = matches!(first, TokenType::For | TokenType::If | TokenType::Function);
            if opens {
                depth = depth + 1;
            } else if matches!(first, TokenType::Done) {
                depth = depth - 1;
            }
            if depth == 0 {
                return Some(i);
            }
        }
        i = i + 1;
    }
    None
}

/// The (name, kind-zero) parameter pairs of a function declaration's
/// tokens, pipes stripped.
fn parse_declaration_arguments(tokens: &Vec<Token>) -> (r: Result<
    Vec<(String, VariableType)>,
    ErrorKind,
>)
    requires
        tokens@.len() >= 3,
    ensures
        match r {
            Ok(args) => parse_params_from(
                drop_pipes(crate::lexer::tokens_view(tokens@), 3),
                0,
                Seq::empty(),
            ) == Ok::<Seq<(Seq<char>, crate::variables::ValueModel)>, ErrorKind>(
                crate::semantics::params_view(args@),
            ),
            Err(k) => parse_params_from(
                drop_pipes(crate::lexer::tokens_view(tokens@), 3),
                0,
                Seq::empty(),
            ) == Err::<Seq<(Seq<char>, crate::variables::ValueModel)>, ErrorKind>(k),
        },
{
    let ghost tv = crate::lexer::tokens_view(tokens@);
    let n: usize = tokens.len();
    let mut arg_tokens: Vec<Token> = Vec::new();
    let mut j: usize = 3;
    while j < n
        invariant
            3 <= j <= n,
            n == tokens@.len(),
            tv == crate::lexer::tokens_view(tokens@),
            drop_pipes(tv, 3) == crate::lexer::tokens_view(arg_tokens@) + drop_pipes(tv, j as int),
        decreases n - j,
    {
        let ghost at0 = arg_tokens@;
        if !matches!(tokens[j].token_type, TokenType::DoublePipe) {
            arg_tokens.push(tokens[j].clone());
            proof {
                assert(crate::lexer::tokens_view(arg_tokens@) =~~= crate::lexer::tokens_view(at0)
                    + seq![tv[j as int]]);
                assert(crate::lexer::tokens_view(at0) + (seq![tv[j as int]] + drop_pipes(
                    tv,
                    j as int + 1,
                )) =~~= crate::lexer::tokens_view(arg_tokens@) + drop_pipes(tv, j as int + 1));
            }
        }
        j = j + 1;
    }
    let ghost ft = crate::lexer::tokens_view(arg_tokens@);
    proof {
        assert(ft + drop_pipes(tv, n as int) =~~= ft);
        assert(drop_pipes(tv, 3) =~~= ft);
    }
    let m: usize = arg_tokens.len();
    let mut args: Vec<(String, VariableType)> = Vec::new();
    proof {
        assert(crate::semantics::params_view(args@) =~= Seq::<(
            Seq<char>,
            crate::variables::ValueModel,
        )>::empty());
    }
    let mut k: usize = 0;
    while k < m
        invariant
            0 <= k <= m,
            m == arg_tokens@.len(),
            ft == crate::lexer::tokens_view(arg_tokens@),
            tv == crate::lexer::tokens_view(tokens@),
            drop_pipes(tv, 3) == ft,
            parse_params_from(ft, 0, Seq::empty()) == parse_params_from(
                ft,
                k as int,
                crate::semantics::params_view(args@),
            ),
        decreases m - k,
    {
        let tt = arg_tokens[k].token_type;
        if !crate::variables::is_token_type_valid_type(&tt) {
            return Err(ErrorKind::UnknownParameterType);
        }
        if k + 1 >= m {
            return Err(ErrorKind::UnbalancedParameters);
        }
        let mut p: usize = 0;
        while p < args.len()
            invariant
                0 <= p <= args@.len(),
                k + 1 < m,
                m == arg_tokens@.len(),
                ft == crate::lexer::tokens_view(arg_tokens@),
                tv == crate::lexer::tokens_view(tokens@),
                drop_pipes(tv, 3) == ft,
                ft[k as int].0 is Int || ft[k as int].0 is Bool || ft[k as int].0 is Str,
                parse_params_from(ft, 0, Seq::empty()) == parse_params_from(
                    ft,
                    k as int,
                    crate::semantics::params_view(args@),
                ),
                forall|q: int|
                    0 <= q < p ==> crate::semantics::params_view(args@)[q].0 != ft[k as int + 1].1,
            decreases args@.len() - p,
        {
            if crate::names::str_eq(args[p].0.as_str(), arg_tokens[k + 1].string.as_str()) {
                proof {
                    assert(crate::semantics::params_view(args@)[p as int].0 == ft[k as int
                        + 1].1);
                }
                return Err(ErrorKind::DuplicateParameterName);
            }
            p = p + 1;
        }
        let ghost args0 = args@;
        let vt = crate::variables::token_type_to_variable_type(&tt);
        args.push((arg_tokens[k + 1].string.clone(), vt));
        proof {
            assert(vt@ == zero_of_type_token(ft[k as int].0));
            assert(crate::semantics::params_view(args@)
                =~~= crate::semantics::params_view(args0).push(
                (ft[k as int + 1].1, zero_of_type_token(ft[k as int].0)),
            ));
        }
        k = k + 2;
    }
    Ok(args)
}

/// The spellings of the tokens `from..to` of the line, as owned strings.
fn collect_texts(tokens: &Vec<Token>, from: usize, to: usize) -> (r: Vec<String>)
    requires
        from <= to <= tokens@.len(),
    ensures
        crate::semantics::strings_view(r@) == texts_of(
            crate::lexer::tokens_view(tokens@).subrange(from as int, to as int),
        ),
{
    let ghost tv = crate::lexer::tokens_view(tokens@);
    let mut out: Vec<String> = Vec::new();
    let mut j: usize = from;
    while j < to
        invariant
            from <= j <= to,
            to <= tokens@.len(),
            tv == crate::lexer::tokens_view(tokens@),
            out@.len() == j - from,
            forall|q: int|
                0 <= q < out@.len() ==> crate::semantics::strings_view(out@)[q] == tv[from + q].1,
        decreases to - j,
    {
        let ghost out0 = out@;
        out.push(tokens[j].string.clone());
        proof {
            assert(crate::semantics::strings_view(out@) =~~= crate::semantics::strings_view(
                out0,
            ).push(tv[j as int].1));
        }
        j = j + 1;
    }
    proof {
        assert(crate::semantics::strings_view(out@) =~~= texts_of(
            tv.subrange(from as int, to as int),
        ));
    }
    out
}

/// Classifies every tokenized line into exactly one instruction, with each
/// block header's matching terminator index precomputed; the first line
/// that classifies to no pattern, or whose block never terminates, is a
/// fatal error carrying that line's index.
pub fn parse_lines(lines: &Vec<Vec<Token>>) -> (r: Result<Vec<Instruction>, Error>)
    ensures
        match r {
            Ok(instructions) => {
                &&& instructions@.len() == lines@.len()
                &&& forall|i: int|
                    0 <= i < lines@.len() ==> classify_line(lines_view(lines@), i) == Ok::<
                        InstructionModel,
                        ErrorKind,
                    >((#[trigger] instructions@[i])@)
            },
            Err(e) => {
                &&& e.line < lines@.len()
                &&& classify_line(lines_view(lines@), e.line as int) == Err::<
                    InstructionModel,
                    ErrorKind,
                >(e.kind)
            },
        },
{
    let ghost lv = lines_view(lines@);
    let n: usize = lines.len();
    let mut instructions: Vec<Instruction> = Vec::new();
    let mut i: usize = 0;
    while i < n
        invariant
            0 <= i <= n,
            n == lines@.len(),
            lv == lines_view(lines@),
            instructions@.len() == i,
            forall|j: int|
                0 <= j < i ==> classify_line(lv, j) == Ok::<InstructionModel, ErrorKind>((
                #[trigger] instructions@[j])@),
        decreases n - i,
    {
        let tokens = &lines[i];
        proof {
            assert(lv[i as int] == crate::lexer::tokens_view(tokens@));
        }
        let mut pat_for: Vec<TokenType> = Vec::new();
        pat_for.push(TokenType::For);
        pat_for.push(TokenType::Value);
        pat_for.push(TokenType::From);
        pat_for.push(TokenType::Value);
        pat_for.push(TokenType::To);
        pat_for.push(TokenType::Value);
        let mut pat_if: Vec<TokenType> = Vec::new();
        pat_if.push(TokenType::If);
        pat_if.push(TokenType::Value);
        pat_if.push(TokenType::Is);
        pat_if.push(TokenType::Value);
        let mut pat_if_not: Vec<TokenType> = Vec::new();
        pat_if_not.push(TokenType::If);
        pat_if_not.push(TokenType::Value);
        pat_if_not.push(TokenType::Is);
        pat_if_not.push(TokenType::Not);
        pat_if_not.push(TokenType::Value);
        let mut pat_done: Vec<TokenType> = Vec::new();
        pat_done.push(TokenType::Done);
        let mut pat_fn: Vec<TokenType> = Vec::new();
        pat_fn.push(TokenType::Function);
        pat_fn.push(TokenType::Value);
        let mut pat_fn_colon: Vec<TokenType> = Vec::new();
        pat_fn_colon.push(TokenType::Function);
        pat_fn_colon.push(TokenType::Value);
        pat_fn_colon.push(TokenType::Colon);
        let mut pat_int: Vec<TokenType> = Vec::new();
        pat_int.push(TokenType::Int);
        pat_int.push(TokenType::Value);
        pat_int.push(TokenType::Equals);
        pat_int.push(TokenType::Value);
        let mut pat_bool: Vec<TokenType> = Vec::new();
        pat_bool.push(TokenType::Bool);
        pat_bool.push(TokenType::Value);
        pat_bool.push(TokenType::Equals);
        pat_bool.push(TokenType::Value);
        let mut pat_str: Vec<TokenType> = Vec::new();
        pat_str.push(TokenType::Str);
        pat_str.push(TokenType::Value);
        pat_str.push(TokenType::Equals);
        pat_str.push(TokenType::Value);
        let mut pat_assign: Vec<TokenType> = Vec::new();
        pat_assign.push(TokenType::Value);
        pat_assign.push(TokenType::Equals);
        pat_assign.push(TokenType::Value);
        let mut pat_call: Vec<TokenType> = Vec::new();
        pat_call.push(TokenType::Value);
        pat_call.push(TokenType::LeftBracket);
        let mut pat_rb: Vec<TokenType> = Vec::new();
        pat_rb.push(TokenType::RightBracket);
        let mut pat_arrow: Vec<TokenType> = Vec::new();
        pat_arrow.push(TokenType::RightBracket);
        pat_arrow.push(TokenType::RightArrow);
        pat_arrow.push(TokenType::Value);
        let mut pat_return: Vec<TokenType> = Vec::new();
        pat_return.push(TokenType::Return);
        pat_return.push(TokenType::Value);
        proof {
            assert(pat_for@ =~= seq![
                TokenType::For,
                TokenType::Value,
                TokenType::From,
                TokenType::Value,
                TokenType::To,
                TokenType::Value,
            ]);
            assert(pat_if@ =~= seq![
                TokenType::If,
                TokenType::Value,
                TokenType::Is,
                TokenType::Value,
            ]);
            assert(pat_if_not@ =~= seq![
                TokenType::If,
                TokenType::Value,
                TokenType::Is,
                TokenType::Not,
                TokenType::Value,
            ]);
            assert(pat_done@ =~= seq![TokenType::Done]);
            assert(pat_fn@ =~= seq![TokenType::Function, TokenType::Value]);
            assert(pat_fn_colon@ =~= seq![
                TokenType::Function,
                TokenType::Value,
                TokenType::Colon,
            ]);
            assert(pat_int@ =~= seq![
                TokenType::Int,
                TokenType::Value,
                TokenType::Equals,
                TokenType::Value,
            ]);
            assert(pat_bool@ =~= seq![
                TokenType::Bool,
                TokenType::Value,
                TokenType::Equals,
                TokenType::Value,
            ]);
            assert(pat_str@ =~= seq![
                TokenType::Str,
                TokenType::Value,
                TokenType::Equals,
                TokenType::Value,
            ]);
            assert(pat_assign@ =~= seq![TokenType::Value, TokenType::Equals, TokenType::Value]);
            assert(pat_call@ =~= seq![TokenType::Value, TokenType::LeftBracket]);
            assert(pat_rb@ =~= seq![TokenType::RightBracket]);
            assert(pat_arrow@ =~= seq![
                TokenType::RightBracket,
                TokenType::RightArrow,
                TokenType::Value,
            ]);
            assert(pat_return@ =~= seq![TokenType::Return, TokenType::Value]);
        }
        if tokens.len() == 0 {
            instructions.push(Instruction::NoOp);
        } else if tokens_contain_types(tokens, &pat_for) {
            instructions.push(
                Instruction::FromValueToValue {
                    value: tokens[1].string.clone(),
                    start: tokens[3].string.clone(),
                    end: tokens[5].string.clone(),
                },
            );
        } else if tokens_contain_types(tokens, &pat_if) {
            match get_corresponding_end_of_frame(lines, i) {
                None => {
                    return Err(Error { kind: ErrorKind::UnterminatedBlock, line: i });
                },
                Some(e) => {
                    instructions.push(
                        Instruction::IfValueIsValue {
                            left_value: tokens[1].string.clone(),
                            right_value: tokens[3].string.clone(),
                            last_line: e,
                        },
                    );
                },
            }
        } else if tokens_contain_types(tokens, &pat_if_not) {
            match get_corresponding_end_of_frame(lines, i) {
                None => {
                    return Err(Error { kind: ErrorKind::UnterminatedBlock, line: i });
                },
                Some(e) => {
                    instructions.push(
                        Instruction::IfValueIsNotValue {
                            left_value: tokens[1].string.clone(),
                            right_value: tokens[4].string.clone(),
                            last_line: e,
                        },
                    );
                },
            }
        } else if tokens_contain_types(tokens, &pat_done) {
            instructions.push(Instruction::Done);
        } else if tokens_begins_with_types(tokens, &pat_fn) {
            match get_corresponding_end_of_frame(lines, i) {
                None => {
                    return Err(Error { kind: ErrorKind::UnterminatedBlock, line: i });
                },
                Some(e) => {
                    let arguments: Vec<(String, VariableType)> = if tokens_begins_with_types(
                        tokens,
                        &pat_fn_colon,
                    ) {
                        match parse_declaration_arguments(tokens) {
                            Err(k) => {
                                return Err(Error { kind: k, line: i });
                            },
                            Ok(args) => args,
                        }
                    } else {
                        let empty_args: Vec<(String, VariableType)> = Vec::new();
                        proof {
                            assert(crate::semantics::params_view(empty_args@) =~= Seq::<(
                                Seq<char>,
                                crate::variables::ValueModel,
                            )>::empty());
                        }
                        empty_args
                    };
                    instructions.push(
                        Instruction::FunctionDeclaration {
                            name: tokens[1].string.clone(),
                            first_line: i,
                            last_line: e,
                            arguments,
                        },
                    );
                },
            }
        } else if tokens_contain_types(tokens, &pat_int) {
            instructions.push(
                Instruction::IntDeclaration {
                    name: tokens[1].string.clone(),
                    value: tokens[3].string.clone(),
                },
            );
        } else if tokens_contain_types(tokens, &pat_bool) {
            instructions.push(
                Instruction::BoolDeclaration {
                    name: tokens[1].string.clone(),
                    value: tokens[3].string.clone(),
                },
            );
        } else if tokens_contain_types(tokens, &pat_str) {
            instructions.push(
                Instruction::StringDeclaration {
                    name: tokens[1].string.clone(),
                    value: tokens[3].string.clone(),
                },
            );
        } else if tokens_contain_types(tokens, &pat_assign) {
            instructions.push(
                Instruction::Assignment {
                    name: tokens[0].string.clone(),
                    value: tokens[2].string.clone(),
                },
            );
        } else if tokens_begins_with_types(tokens, &pat_call) && tokens_ends_with_type(
            tokens,
            &pat_rb,
        ) {
            proof {
                let line = crate::lexer::tokens_view(tokens@);
                assert(line[1].0 == TokenType::LeftBracket);
                assert(line[line.len() - 1].0 == TokenType::RightBracket);
                assert(line.len() >= 3);
            }
            let values = collect_texts(tokens, 2, tokens.len() - 1);
            instructions.push(
                Instruction::FunctionCall {
                    function: tokens[0].string.clone(),
                    values,
                    target_variable: None,
                },
            );
        } else if tokens_begins_with_types(tokens, &pat_call) && tokens_ends_with_type(
            tokens,
            &pat_arrow,
        ) {
            proof {
                let line = crate::lexer::tokens_view(tokens@);
                assert(line[0].0 == TokenType::Value && line[1].0 == TokenType::LeftBracket);
                assert(line[line.len() - 3].0 == TokenType::RightBracket);
                assert(line[line.len() - 2].0 == TokenType::RightArrow);
                assert(line.len() >= 5);
            }
            let values = collect_texts(tokens, 2, tokens.len() - 3);
            let target = tokens[tokens.len() - 1].string.clone();
            instructions.push(
                Instruction::FunctionCall {
                    function: tokens[0].string.clone(),
                    values,
                    target_variable: Some(target),
                },
            );
        } else if tokens_contain_types(tokens, &pat_return) {
            instructions.push(Instruction::Return { value: tokens[1].string.clone() });
        } else {
            return Err(Error { kind: ErrorKind::UnknownInstruction, line: i });
        }
        proof {
            assert(classify_line(lv, i as int) == Ok::<InstructionModel, ErrorKind>(
                instructions@[i as int]@,
            ));
        }
        i = i + 1;
    }
    Ok(instructions)
}

} // verus!
