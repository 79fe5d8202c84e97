//! The operator-expression evaluator.
//!
//! A textual value may contain merged operator sub-expressions such as
//! `a*3-b`. The engine splits such a text into an alternating sequence of
//! operands and operators; this module reduces that sequence strictly left to
//! right, with no precedence: the accumulator starts at the first operand and
//! each (operator, operand) pair is applied to it in turn. Multiplication and
//! subtraction work on integer-bridged operands and keep the accumulator's
//! kind; the comparisons produce a boolean accumulator.

use vstd::prelude::*;
use vstd::string::*;

use crate::errors::ErrorKind;
use crate::lexer::{Token, TokenType};
use crate::variables::{
    bridge_of, with_kind_of, ValueModel, Variable,
};

verus! {

/// One element of a split operator expression: an already-evaluated operand,
/// or an operator token type.
pub enum OperatorExpression {
    Variable(Variable),
    Operator(TokenType),
}

/// The mathematical view of one expression element.
pub enum ExprItemModel {
    Operand(ValueModel),
    Operator(TokenType),
}

impl View for OperatorExpression {
    type V = ExprItemModel;

    open spec fn view(&self) -> ExprItemModel {
        match self {
            OperatorExpression::Variable(v) => ExprItemModel::Operand(v@),
            OperatorExpression::Operator(t) => ExprItemModel::Operator(*t),
        }
    }
}

/// The views of a sequence of expression elements.
pub open spec fn items_view(s: Seq<OperatorExpression>) -> Seq<ExprItemModel> {
    s.map_values(|e: OperatorExpression| e@)
}

/// The token type an operator character stands for; any other character is a
/// plain value character.
pub open spec fn spec_operator_char_token(c: char) -> TokenType {
    if c == '*' {
        TokenType::Multiply
    } else if c == '-' {
        TokenType::Minus
    } else if c == '<' {
        TokenType::LessThan
    } else if c == '>' {
        TokenType::GreaterThan
    } else {
        TokenType::Value
    }
}

/// Whether this token type is one of the supported operators.
pub open spec fn spec_is_operator_token(t: TokenType) -> bool {
    t is Multiply || t is Minus || t is LessThan || t is GreaterThan
}

/// Whether `c` is an operator character.
pub open spec fn is_operator_char(c: char) -> bool {
    c == '*' || c == '-' || c == '<' || c == '>'
}

/// Whether some character of `s` is an operator character.
pub open spec fn contains_operator_char(s: Seq<char>) -> bool {
    exists|i: int| 0 <= i < s.len() && is_operator_char(s[i])
}

/// The token type an operator character maps to.
pub fn operator_char_to_token_type(c: char) -> (r: TokenType)
    ensures
        r == spec_operator_char_token(c),
{
    match c {
        '*' => TokenType::Multiply,
        '-' => TokenType::Minus,
        '<' => TokenType::LessThan,
        '>' => TokenType::GreaterThan,
        _ => TokenType::Value,
    }
}

/// Whether this token type is one of the supported operators.
fn is_token_operator(token_type: &TokenType) -> (r: bool)
    ensures
        r == spec_is_operator_token(*token_type),
{
    match token_type {
        TokenType::Multiply => true,
        TokenType::Minus => true,
        TokenType::LessThan => true,
        TokenType::GreaterThan => true,
        _ => false,
    }
}

/// Whether `c` is an operator character.
pub fn is_char_operator(c: char) -> (r: bool)
    ensures
        r == is_operator_char(c),
{
    is_token_operator(&operator_char_to_token_type(c))
}

/// Whether the text contains any operator character, so that it must be
/// split and folded rather than read as one inner value.
pub fn value_contains_operator(value: &str) -> (r: bool)
    ensures
        r == contains_operator_char(value@),
{
    let len: usize = value.unicode_len();
    let mut i: usize = 0;
    while i < len
        invariant
            0 <= i <= len,
            len == value@.len(),
            forall|j: int| 0 <= j < i ==> !is_operator_char(value@[j]),
        decreases len - i,
    {
        let c = value.get_char(i);
        if is_char_operator(c) {
            assert(is_operator_char(value@[i as int]));
            return true;
        }
        i = i + 1;
    }
    false
}

/// What one fold step produces: both sides are bridged to canonical
/// integers; multiplication and subtraction convert the result back into the
/// accumulator's own kind, while the comparisons turn the accumulator into a
/// boolean. A result outside the integer kind's range is an overflow, and a
/// non-operator token is a type error.
pub open spec fn apply_op_model(acc: ValueModel, t: TokenType, v: ValueModel) -> Result<
    ValueModel,
    ErrorKind,
> {
    match bridge_of(acc) {
        Err(k) => Err(k),
        Ok(a) => match bridge_of(v) {
            Err(k) => Err(k),
            Ok(b) => match t {
                TokenType::Multiply => {
                    if i64::MIN <= a * b <= i64::MAX {
                        Ok(with_kind_of(acc, a * b))
                    } else {
                        Err(ErrorKind::ArithmeticOverflow)
                    }
                },
                TokenType::Minus => {
                    if i64::MIN <= a - b <= i64::MAX {
                        Ok(with_kind_of(acc, a - b))
                    } else {
                        Err(ErrorKind::ArithmeticOverflow)
                    }
                },
                TokenType::LessThan => Ok(ValueModel::Bool(a < b)),
                TokenType::GreaterThan => Ok(ValueModel::Bool(a > b)),
                _ => Err(ErrorKind::TypeMismatch),
            },
        },
    }
}

/// Comparisons are coercion-consistent: whatever the two operands' kinds,
/// `<` and `>` compare exactly the canonical integers that assignment
/// bridges through, so for example a boolean and a numeric string compare
/// as 0-or-1 against the number the string spells.
pub proof fn lemma_comparison_coercion_consistent(
    a: ValueModel,
    b: ValueModel,
    av: int,
    bv: int,
)
    requires
        bridge_of(a) == Ok::<int, ErrorKind>(av),
        bridge_of(b) == Ok::<int, ErrorKind>(bv),
    ensures
        apply_op_model(a, TokenType::LessThan, b) == Ok::<ValueModel, ErrorKind>(
            ValueModel::Bool(av < bv),
        ),
        apply_op_model(a, TokenType::GreaterThan, b) == Ok::<ValueModel, ErrorKind>(
            ValueModel::Bool(av > bv),
        ),
{
}

/// Whether `items` is a well-formed split expression: it starts with an
/// operand and alternates between operands and supported operators.
pub open spec fn wf_expression(items: Seq<ExprItemModel>) -> bool {
    &&& items.len() > 0
    &&& forall|i: int|
        0 <= i < items.len() ==> if i % 2 == 0 {
            items[i] is Operand
        } else {
            items[i] matches ExprItemModel::Operator(t) && spec_is_operator_token(t)
        }
}

/// The left-to-right fold of the (operator, operand) pairs of `items` from
/// position `i` onward onto the accumulator `acc`. A trailing operator with
/// no operand after it is ignored.
pub open spec fn fold_items(acc: ValueModel, items: Seq<ExprItemModel>, i: int) -> Result<
    ValueModel,
    ErrorKind,
>
    decreases items.len() - i,
{
    if i < 0 || i + 1 >= items.len() {
        Ok(acc)
    } else {
        match (items[i], items[i + 1]) {
            (ExprItemModel::Operator(t), ExprItemModel::Operand(v)) => {
                match apply_op_model(acc, t, v) {
                    Ok(acc2) => fold_items(acc2, items, i + 2),
                    Err(k) => Err(k),
                }
            },
            _ => Err(ErrorKind::TypeMismatch),
        }
    }
}

/// The value a well-formed split expression reduces to: the first operand
/// folded left to right with every following (operator, operand) pair.
pub open spec fn fold_model(items: Seq<ExprItemModel>) -> Result<ValueModel, ErrorKind> {
    match items[0] {
        ExprItemModel::Operand(v) => fold_items(v, items, 1),
        _ => Err(ErrorKind::TypeMismatch),
    }
}

/// Whether the token at `i` is an operator standing between two value
/// tokens: one pending merge.
pub open spec fn is_mergeable_at(s: Seq<(TokenType, Seq<char>)>, i: int) -> bool {
    &&& 1 <= i < s.len() - 1
    &&& spec_is_operator_token(s[i].0)
    &&& s[i - 1].0 is Value
    &&& s[i + 1].0 is Value
}

/// Whether any merge is pending.
pub open spec fn has_mergeable(s: Seq<(TokenType, Seq<char>)>) -> bool {
    exists|i: int| is_mergeable_at(s, i)
}

/// The least merge position at or after `i`, or the length when none.
pub open spec fn first_mergeable_from(s: Seq<(TokenType, Seq<char>)>, i: int) -> int
    decreases s.len() - i,
{
    if i < 0 || i >= s.len() - 1 {
        s.len() as int
    } else if is_mergeable_at(s, i) {
        i
    } else {
        first_mergeable_from(s, i + 1)
    }
}

/// One merge: the operator token and its two value neighbours replaced by a
/// single value token whose text joins the three spellings.
pub open spec fn merge_triple_at(s: Seq<(TokenType, Seq<char>)>, i: int) -> Seq<
    (TokenType, Seq<char>),
> {
    s.subrange(0, i - 1) + seq![(TokenType::Value, s[i - 1].1 + s[i].1 + s[i + 1].1)] + s.subrange(
        i + 2,
        s.len() as int,
    )
}

/// With a merge pending at or after `i`, the search lands on a merge.
proof fn lemma_first_exists(s: Seq<(TokenType, Seq<char>)>, i: int)
    requires
        1 <= i,
        exists|j: int| i <= j && is_mergeable_at(s, j),
    ensures
        is_mergeable_at(s, first_mergeable_from(s, i)),
        i <= first_mergeable_from(s, i),
    decreases s.len() - i,
{
    let j = choose|j: int| i <= j && is_mergeable_at(s, j);
    if is_mergeable_at(s, i) {
    } else {
        assert(j != i);
        lemma_first_exists(s, i + 1);
    }
}

/// The search from `i` finds exactly the first merge position.
proof fn lemma_first_from(s: Seq<(TokenType, Seq<char>)>, i: int, f: int)
    requires
        1 <= i <= f,
        is_mergeable_at(s, f),
        forall|j: int| i <= j < f ==> !is_mergeable_at(s, j),
    ensures
        first_mergeable_from(s, i) == f,
    decreases f - i,
{
    if i == f {
    } else {
        lemma_first_from(s, i + 1, f);
    }
}

/// The token sequences resulting from one round of merging keep shrinking.
pub open spec fn collect_model(s: Seq<(TokenType, Seq<char>)>) -> Seq<(TokenType, Seq<char>)>
    decreases s.len() via collect_model_decreases
{
    if has_mergeable(s) {
        collect_model(merge_triple_at(s, first_mergeable_from(s, 1)))
    } else {
        s
    }
}

#[via_fn]
proof fn collect_model_decreases(s: Seq<(TokenType, Seq<char>)>) {
    if has_mergeable(s) {
        let j = choose|j: int| is_mergeable_at(s, j);
        assert(1 <= j && is_mergeable_at(s, j));
        lemma_first_exists(s, 1);
        let f = first_mergeable_from(s, 1);
        assert(merge_triple_at(s, f).len() == s.len() - 2);
    }
}

/// The first pending merge, leftmost first.
fn find_merge_index(tokens: &Vec<Token>) -> (r: Option<usize>)
    ensures
        match r {
            Some(f) => {
                &&& 1 <= f < tokens@.len() - 1
                &&& is_mergeable_at(crate::lexer::tokens_view(tokens@), f as int)
                &&& forall|j: int|
                    1 <= j < f ==> !is_mergeable_at(crate::lexer::tokens_view(tokens@), j)
            },
            None => !has_mergeable(crate::lexer::tokens_view(tokens@)),
        },
{
    let ghost tv = crate::lexer::tokens_view(tokens@);
    let n: usize = tokens.len();
    if n < 3 {
        proof {
            assert forall|j: int| !is_mergeable_at(tv, j) by {}
        }
        return None;
    }
    let mut i: usize = 1;
    while i < n - 1
        invariant
            3 <= n,
            n == tokens@.len(),
            tv == crate::lexer::tokens_view(tokens@),
            1 <= i <= n - 1,
            forall|j: int| 1 <= j < i ==> !is_mergeable_at(tv, j),
        decreases n - i,
    {
        if is_token_operator(&tokens[i].token_type) && matches!(
            tokens[i - 1].token_type,
            TokenType::Value,
        ) && matches!(tokens[i + 1].token_type, TokenType::Value) {
            proof {
                assert(is_mergeable_at(tv, i as int));
            }
            return Some(i);
        }
        proof {
            assert(!is_mergeable_at(tv, i as int));
        }
        i = i + 1;
    }
    proof {
        assert forall|j: int| !is_mergeable_at(tv, j) by {}
    }
    None
}

/// Whether any operator still stands between two value tokens, so that one
/// more merge is pending.
pub fn tokens_contain_valid_operator(tokens: &Vec<Token>) -> (r: bool)
    ensures
        r == has_mergeable(crate::lexer::tokens_view(tokens@)),
{
    match find_merge_index(tokens) {
        Some(_) => true,
        None => false,
    }
}

/// Merges every operator standing between two value tokens into one
/// composite value token, leftmost merge first, until none is pending:
/// `a * b` becomes the single value `a*b`, which the operator-expression
/// evaluator re-splits at run time.
pub fn collect_operators(tokens: &mut Vec<Token>)
    ensures
        crate::lexer::tokens_view(final(tokens)@) == collect_model(
            crate::lexer::tokens_view(old(tokens)@),
        ),
        !has_mergeable(crate::lexer::tokens_view(final(tokens)@)),
{
    loop
        invariant
            collect_model(crate::lexer::tokens_view(tokens@)) == collect_model(
                crate::lexer::tokens_view(old(tokens)@),
            ),
        decreases tokens@.len(),
    {
        let ghost view0 = crate::lexer::tokens_view(tokens@);
        match find_merge_index(tokens) {
            None => {
                return ;
            },
            Some(f) => {
                let n: usize = tokens.len();
                proof {
                    lemma_first_from(view0, 1, f as int);
                    assert(f < n - 1);
                }
                let right = tokens.remove(f + 1);
                let op = tokens.remove(f);
                let left = tokens.remove(f - 1);
                let mut text = left.string;
                text.append(op.string.as_str());
                text.append(right.string.as_str());
                tokens.insert(f - 1, Token { token_type: TokenType::Value, string: text });
                proof {
                    assert(crate::lexer::tokens_view(tokens@) =~~= merge_triple_at(
                        view0,
                        f as int,
                    ));
                }
            },
        }
    }
}

/// Applies one operator between the accumulator and the next operand.
fn apply_operator(acc: &Variable, t: &TokenType, v: &Variable) -> (r: Result<Variable, ErrorKind>)
    ensures
        match r {
            Ok(out) => apply_op_model(acc@, *t, v@) == Ok::<ValueModel, ErrorKind>(out@),
            Err(k) => apply_op_model(acc@, *t, v@) == Err::<ValueModel, ErrorKind>(k),
        },
{
    let a: i64 = match acc.bridge_int() {
        Ok(n) => n,
        Err(k) => {
            return Err(k);
        },
    };
    let b: i64 = match v.bridge_int() {
        Ok(n) => n,
        Err(k) => {
            return Err(k);
        },
    };
    match t {
        TokenType::Multiply => {
            match a.checked_mul(b) {
                Some(p) => {
                    let mut out = acc.clone();
                    out.set_from_integer(p);
                    Ok(out)
                },
                None => Err(ErrorKind::ArithmeticOverflow),
            }
        },
        TokenType::Minus => {
            match a.checked_sub(b) {
                Some(p) => {
                    let mut out = acc.clone();
                    out.set_from_integer(p);
                    Ok(out)
                },
                None => Err(ErrorKind::ArithmeticOverflow),
            }
        },
        TokenType::LessThan => {
            Ok(Variable { variable_type: crate::variables::VariableType::Boolean(a < b) })
        },
        TokenType::GreaterThan => {
            Ok(Variable { variable_type: crate::variables::VariableType::Boolean(a > b) })
        },
        _ => Err(ErrorKind::TypeMismatch),
    }
}

/// Reduces a well-formed split expression strictly left to right, with no
/// precedence: the accumulator starts at the first operand and each
/// (operator, operand) pair is applied to it in turn.
pub fn evaluate_operator_expression(expression: &Vec<OperatorExpression>) -> (r: Result<
    Variable,
    ErrorKind,
>)
    requires
        wf_expression(items_view(expression@)),
    ensures
        match r {
            Ok(out) => fold_model(items_view(expression@)) == Ok::<ValueModel, ErrorKind>(out@),
            Err(k) => fold_model(items_view(expression@)) == Err::<ValueModel, ErrorKind>(k),
        },
{
    let ghost items = items_view(expression@);
    assert(items[0] is Operand);
    let mut acc: Variable = match &expression[0] {
        OperatorExpression::Variable(v) => v.clone(),
        OperatorExpression::Operator(_) => {
            proof {
                assert(false);
            }
            Variable { variable_type: crate::variables::VariableType::Integer(0) }
        },
    };
    let mut i: usize = 1;
    assert(fold_model(items) == fold_items(acc@, items, 1));
    assert(expression@.len() >= 1);
    while i < expression.len() - 1
        invariant
            1 <= i,
            expression@.len() >= 1,
            i <= expression.len() + 1,
            items == items_view(expression@),
            wf_expression(items),
            i % 2 == 1,
            fold_model(items) == fold_items(acc@, items, i as int),
        decreases expression.len() - i,
    {
        assert(items[i as int] matches ExprItemModel::Operator(t) && spec_is_operator_token(t));
        assert(items[i as int + 1] is Operand);
        let t: TokenType = match &expression[i] {
            OperatorExpression::Operator(t) => *t,
            OperatorExpression::Variable(_) => {
                proof {
                    assert(false);
                }
                TokenType::Multiply
            },
        };
        let v: Variable = match &expression[i + 1] {
            OperatorExpression::Variable(v) => v.clone(),
            OperatorExpression::Operator(_) => {
                proof {
                    assert(false);
                }
                Variable { variable_type: crate::variables::VariableType::Integer(0) }
            },
        };
        match apply_operator(&acc, &t, &v) {
            Ok(out) => {
                acc = out;
            },
            Err(k) => {
                return Err(k);
            },
        }
        i = i + 2;
    }
    Ok(acc)
}

} // verus!
