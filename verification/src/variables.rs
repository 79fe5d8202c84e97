//! The tagged value type and the cross-kind coercion model.
//!
//! A variable holds one of three kinds of value: integer, boolean or string.
//! Assignment and comparison between different kinds go through a canonical
//! integer bridge: booleans become 0 or 1, strings of decimal digits become
//! the number they spell, and the bridged integer is converted back into the
//! destination's own kind. A string that does not spell a number is
//! interchangeable with nothing but another string; mixing it with any other
//! kind is a type error.

use vstd::prelude::*;
use vstd::string::*;

use crate::errors::ErrorKind;
use crate::lexer::TokenType;

verus! {

/// The mathematical value of a variable: its kind together with the carried
/// value, with text as a sequence of characters and integers unbounded.
pub enum ValueModel {
    Int(int),
    Bool(bool),
    Text(Seq<char>),
}

/// Whether `c` is a decimal digit.
pub open spec fn is_digit_char(c: char) -> bool {
    48 <= c as u32 && c as u32 <= 57
}

/// The numeric value of the decimal digit `c`.
pub open spec fn digit_value(c: char) -> int {
    c as u32 - 48
}

/// Whether every character of `s` is a decimal digit (vacuously true of the
/// empty sequence).
pub open spec fn chars_all_digits(s: Seq<char>) -> bool {
    forall|i: int| 0 <= i < s.len() ==> is_digit_char(s[i])
}

/// Whether `s` is a non-empty run of decimal digits: the texts that evaluate
/// as numeric literals and the strings the coercion bridge accepts.
pub open spec fn is_digits(s: Seq<char>) -> bool {
    s.len() > 0 && chars_all_digits(s)
}

/// The number spelled by the digit sequence `s` (most significant first).
pub open spec fn digits_value(s: Seq<char>) -> int
    decreases s.len(),
{
    if s.len() == 0 {
        0
    } else {
        digits_value(s.drop_last()) * 10 + digit_value(s.last())
    }
}

/// Whether the text `s` crosses the coercion bridge: non-empty decimal digits
/// spelling a value that fits the integer kind.
pub open spec fn str_numeric(s: Seq<char>) -> bool {
    is_digits(s) && digits_value(s) <= i64::MAX
}

/// The digit character for the value `d` (0 through 9).
pub open spec fn digit_char(d: int) -> char {
    if d == 0 {
        '0'
    } else if d == 1 {
        '1'
    } else if d == 2 {
        '2'
    } else if d == 3 {
        '3'
    } else if d == 4 {
        '4'
    } else if d == 5 {
        '5'
    } else if d == 6 {
        '6'
    } else if d == 7 {
        '7'
    } else if d == 8 {
        '8'
    } else {
        '9'
    }
}

/// The decimal text of the natural number `n`, most significant digit first,
/// with no leading zeros (a single `'0'` for zero).
pub open spec fn nat_to_text(n: nat) -> Seq<char>
    decreases n,
{
    if n < 10 {
        seq![digit_char(n as int)]
    } else {
        nat_to_text(n / 10) + seq![digit_char((n % 10) as int)]
    }
}

/// The decimal text of the integer `n`, with a leading `'-'` when negative.
pub open spec fn int_to_text(n: int) -> Seq<char> {
    if n >= 0 {
        nat_to_text(n as nat)
    } else {
        seq!['-'] + nat_to_text((-n) as nat)
    }
}

/// The canonical integer of a value: the common representation used to
/// coerce between kinds on assignment and to compare values of any kinds.
pub open spec fn coerce_int(v: ValueModel) -> int {
    match v {
        ValueModel::Int(n) => n,
        ValueModel::Bool(b) => if b { 1 as int } else { 0 },
        ValueModel::Text(s) => digits_value(s),
    }
}

/// Whether a value can cross the integer bridge: integers and booleans
/// always, text only when it spells a number that fits.
pub open spec fn coercible(v: ValueModel) -> bool {
    match v {
        ValueModel::Text(s) => str_numeric(s),
        _ => true,
    }
}

/// The value of `t`'s kind that carries the bridged integer `n`: the integer
/// itself, false exactly when `n` is 0, or `n`'s decimal text.
pub open spec fn with_kind_of(t: ValueModel, n: int) -> ValueModel {
    match t {
        ValueModel::Int(_) => ValueModel::Int(n),
        ValueModel::Bool(_) => ValueModel::Bool(n != 0),
        ValueModel::Text(_) => ValueModel::Text(int_to_text(n)),
    }
}

/// The canonical integer that `v` bridges to, or the error that crossing the
/// bridge raises: a type error for text that is not a digit run, an overflow
/// for a digit run too large for the integer kind.
pub open spec fn bridge_of(v: ValueModel) -> Result<int, ErrorKind> {
    match v {
        ValueModel::Text(s) => {
            if !is_digits(s) {
                Err(ErrorKind::TypeMismatch)
            } else if digits_value(s) > i64::MAX {
                Err(ErrorKind::ArithmeticOverflow)
            } else {
                Ok(digits_value(s))
            }
        },
        _ => Ok(coerce_int(v)),
    }
}

/// Whether `v` is a string holding non-numeric text: text with some
/// non-digit character. Text of digits only — the empty text included, as
/// every freshly declared string variable holds — counts as numeric-looking
/// and is interchangeable with numbers.
pub open spec fn non_numeric_text(v: ValueModel) -> bool {
    match v {
        ValueModel::Text(s) => !chars_all_digits(s),
        _ => false,
    }
}

/// What assigning the value `s` into a variable currently holding `t`
/// produces: a verbatim copy when both are strings; a type error when
/// either side is a string holding non-numeric text while the other is not
/// (mixing a non-numeric string with any non-string is invalid, on whichever
/// side it stands); otherwise the source is bridged to an integer and
/// converted back into the destination's own kind, so an assignment never
/// changes a variable's kind. A digit-run source too large for the integer
/// kind is an overflow.
pub open spec fn set_model(t: ValueModel, s: ValueModel) -> Result<ValueModel, ErrorKind> {
    if t is Text && s is Text {
        Ok(s)
    } else if non_numeric_text(t) || non_numeric_text(s) {
        Err(ErrorKind::TypeMismatch)
    } else {
        match bridge_of(s) {
            Ok(n) => Ok(with_kind_of(t, n)),
            Err(k) => Err(k),
        }
    }
}

/// The canonical printed text of a value: decimal for integers, the literal
/// words `true`/`false` for booleans, the text itself for strings.
pub open spec fn printed_of(v: ValueModel) -> Seq<char> {
    match v {
        ValueModel::Int(n) => int_to_text(n),
        ValueModel::Bool(b) => if b { "true"@ } else { "false"@ },
        ValueModel::Text(s) => s,
    }
}

/// The views of a sequence of variables.
pub open spec fn vars_view(s: Seq<Variable>) -> Seq<ValueModel> {
    s.map_values(|v: Variable| v@)
}

/// The kind and carried value of one variable.
#[derive(Debug)]
pub enum VariableType {
    Integer(i64),
    Boolean(bool),
    Str(String),
}

impl View for VariableType {
    type V = ValueModel;

    open spec fn view(&self) -> ValueModel {
        match self {
            VariableType::Integer(n) => ValueModel::Int(*n as int),
            VariableType::Boolean(b) => ValueModel::Bool(*b),
            VariableType::Str(s) => ValueModel::Text(s@),
        }
    }
}

impl Clone for VariableType {
    /// A copy that carries the same value.
    fn clone(&self) -> (r: Self)
        ensures
            r@ == self@,
    {
        match self {
            VariableType::Integer(n) => VariableType::Integer(*n),
            VariableType::Boolean(b) => VariableType::Boolean(*b),
            VariableType::Str(s) => VariableType::Str(s.clone()),
        }
    }
}

/// A single tagged value; each read of a variable yields a copy.
#[derive(Debug)]
pub struct Variable {
    pub variable_type: VariableType,
}

impl View for Variable {
    type V = ValueModel;

    open spec fn view(&self) -> ValueModel {
        self.variable_type@
    }
}

impl Clone for Variable {
    /// A copy that carries the same value.
    fn clone(&self) -> (r: Self)
        ensures
            r@ == self@,
    {
        Variable { variable_type: self.variable_type.clone() }
    }
}

/// Whether this token type names one of the declared variable kinds.
pub fn is_token_type_valid_type(token_type: &TokenType) -> (r: bool)
    ensures
        r == (token_type is Int || token_type is Bool || token_type is Str),
{
    match token_type {
        TokenType::Int => true,
        TokenType::Bool => true,
        TokenType::Str => true,
        _ => false,
    }
}

/// The zero value of the variable kind named by this token type.
pub fn token_type_to_variable_type(token_type: &TokenType) -> (r: VariableType)
    requires
        token_type is Int || token_type is Bool || token_type is Str,
    ensures
        token_type is Int ==> r@ == ValueModel::Int(0),
        token_type is Bool ==> r@ == ValueModel::Bool(false),
        token_type is Str ==> r@ == ValueModel::Text(Seq::<char>::empty()),
{
    match token_type {
        TokenType::Int => VariableType::Integer(0),
        TokenType::Bool => VariableType::Boolean(false),
        TokenType::Str => VariableType::Str(String::new()),
        _ => VariableType::Integer(0),
    }
}

/// The canonical integer of `value`: 0 for false, 1 for true.
pub fn bool_to_int(value: &bool) -> (r: i64)
    ensures
        r as int == coerce_int(ValueModel::Bool(*value)),
{
    if *value == false {
        0
    } else {
        1
    }
}

/// The boolean that the bridged integer `value` converts to: false exactly
/// when `value` is 0.
pub fn int_to_bool(value: i64) -> (r: bool)
    ensures
        r == (value != 0),
{
    if value == 0 {
        false
    } else {
        true
    }
}

/// Whether every character of `value` is a decimal digit (vacuously true of
/// the empty string).
pub fn is_numeric(value: &str) -> (r: bool)
    ensures
        r == chars_all_digits(value@),
{
    let len: usize = value.unicode_len();
    let mut i: usize = 0;
    while i < len
        invariant
            0 <= i <= len,
            len == value@.len(),
            forall|j: int| 0 <= j < i ==> is_digit_char(value@[j]),
        decreases len - i,
    {
        let c = value.get_char(i);
        let cu: u32 = c as u32;
        if cu < 48 || cu > 57 {
            assert(!is_digit_char(value@[i as int]));
            return false;
        }
        i = i + 1;
    }
    true
}

/// A digit run spells a non-negative value.
pub proof fn lemma_digits_value_nonneg(s: Seq<char>)
    requires
        chars_all_digits(s),
    ensures
        digits_value(s) >= 0,
    decreases s.len(),
{
    if s.len() > 0 {
        assert(chars_all_digits(s.drop_last()));
        lemma_digits_value_nonneg(s.drop_last());
        assert(digits_value(s.drop_last()) * 10 >= 0) by (nonlinear_arith)
            requires
                digits_value(s.drop_last()) >= 0,
        ;
    }
}

/// Every prefix of a digit run spells at most the value of the whole run.
pub proof fn lemma_digits_prefix_le(s: Seq<char>, i: int)
    requires
        chars_all_digits(s),
        0 <= i <= s.len(),
    ensures
        digits_value(s.subrange(0, i)) <= digits_value(s),
        digits_value(s.subrange(0, i)) >= 0,
    decreases s.len() - i,
{
    lemma_digits_value_nonneg(s.subrange(0, i));
    if i < s.len() {
        let p = s.subrange(0, i);
        let q = s.subrange(0, i + 1);
        assert(q.drop_last() =~= p);
        assert(q.last() == s[i]);
        assert(digits_value(q) == digits_value(p) * 10 + digit_value(s[i]));
        assert(digits_value(p) * 10 >= digits_value(p)) by (nonlinear_arith)
            requires
                digits_value(p) >= 0,
        ;
        lemma_digits_prefix_le(s, i + 1);
    } else {
        assert(s.subrange(0, i) =~= s);
    }
}

/// The value a non-empty digit string spells, or `None` when it does not fit
/// the integer kind.
pub fn string_to_int(value: &str) -> (r: Option<i64>)
    requires
        is_digits(value@),
    ensures
        match r {
            Some(v) => v as int == digits_value(value@) && digits_value(value@) <= i64::MAX,
            None => digits_value(value@) > i64::MAX,
        },
{
    let len: usize = value.unicode_len();
    let mut i: usize = 0;
    let mut acc: i64 = 0;
    while i < len
        invariant
            0 <= i <= len,
            len == value@.len(),
            is_digits(value@),
            acc as int == digits_value(value@.subrange(0, i as int)),
            acc >= 0,
        decreases len - i,
    {
        let c = value.get_char(i);
        proof {
            assert(is_digit_char(value@[i as int]));
            assert(value@.subrange(0, i as int + 1).drop_last() =~= value@.subrange(0, i as int));
            assert(value@.subrange(0, i as int + 1).last() == value@[i as int]);
        }
        let d: u32 = (c as u32) - 48;
        if acc > 922337203685477580i64 || (acc == 922337203685477580i64 && d > 7) {
            proof {
                lemma_digits_prefix_le(value@, i as int + 1);
            }
            return None;
        }
        acc = acc * 10 + (d as i64);
        i = i + 1;
    }
    proof {
        assert(value@.subrange(0, len as int) =~= value@);
    }
    Some(acc)
}

/// The decimal text of `n` is a digit run, and its value round-trips back to
/// `n` through `digits_value`.
pub proof fn lemma_nat_to_text_digits(n: nat)
    ensures
        is_digits(nat_to_text(n)),
        digits_value(nat_to_text(n)) == n,
    decreases n,
{
    if n < 10 {
        let t = nat_to_text(n);
        assert(t == seq![digit_char(n as int)]);
        assert(is_digit_char(digit_char(n as int)));
        assert(t.len() == 1);
        assert(t.last() == digit_char(n as int));
        assert(t.drop_last() =~= Seq::<char>::empty());
        assert(digits_value(Seq::<char>::empty()) == 0);
        assert(digits_value(t) == digits_value(t.drop_last()) * 10 + digit_value(t.last()));
        assert(digit_value(digit_char(n as int)) == n);
    } else {
        lemma_nat_to_text_digits(n / 10);
        let t = nat_to_text(n / 10) + seq![digit_char((n % 10) as int)];
        assert(nat_to_text(n) == t);
        assert(t.drop_last() =~= nat_to_text(n / 10));
        assert(t.last() == digit_char((n % 10) as int));
        assert(is_digit_char(digit_char((n % 10) as int)));
        assert(digit_value(digit_char((n % 10) as int)) == n % 10);
        assert(digits_value(t) == digits_value(nat_to_text(n / 10)) * 10 + (n % 10));
        assert((n / 10) * 10 + n % 10 == n) by (nonlinear_arith);
        assert(forall|i: int| 0 <= i < t.len() ==> is_digit_char(t[i]));
    }
}

/// Writing the decimal text of a non-negative integer and bridging it back
/// yields the same integer: the string side of the coercion bridge
/// round-trips.
pub proof fn lemma_int_text_round_trip(n: int)
    requires
        n >= 0,
    ensures
        is_digits(int_to_text(n)),
        digits_value(int_to_text(n)) == n,
{
    lemma_nat_to_text_digits(n as nat);
}

/// Coercion round-trips through the integer bridge: an integer assigned
/// into a string variable holding numeric-looking text (as a freshly
/// declared one does) stores its decimal text; that text assigned back into
/// an integer variable restores the integer; and a string holding
/// non-numeric text is a fatal type error against a non-string on either
/// side — as the source of the assignment or as its destination.
pub proof fn lemma_coercion_round_trip(s0: Seq<char>, iv: ValueModel, n: int, t: Seq<char>)
    requires
        0 <= n <= i64::MAX,
        chars_all_digits(s0),
        iv is Int,
        !is_digits(t),
    ensures
        set_model(ValueModel::Text(s0), ValueModel::Int(n)) == Ok::<ValueModel, ErrorKind>(
            ValueModel::Text(int_to_text(n)),
        ),
        set_model(iv, ValueModel::Text(int_to_text(n))) == Ok::<ValueModel, ErrorKind>(
            ValueModel::Int(n),
        ),
        set_model(iv, ValueModel::Text(t)) == Err::<ValueModel, ErrorKind>(
            ErrorKind::TypeMismatch,
        ),
        !chars_all_digits(t) ==> set_model(ValueModel::Text(t), ValueModel::Int(n)) == Err::<
            ValueModel,
            ErrorKind,
        >(ErrorKind::TypeMismatch),
{
    lemma_int_text_round_trip(n);
}

/// The one-character string of the digit `d`.
fn digit_str(d: u64) -> (r: &'static str)
    requires
        d < 10,
    ensures
        r@ == seq![digit_char(d as int)],
{
    proof {
        reveal_strlit("0");
        reveal_strlit("1");
        reveal_strlit("2");
        reveal_strlit("3");
        reveal_strlit("4");
        reveal_strlit("5");
        reveal_strlit("6");
        reveal_strlit("7");
        reveal_strlit("8");
        reveal_strlit("9");
    }
    if d == 0 {
        "0"
    } else if d == 1 {
        "1"
    } else if d == 2 {
        "2"
    } else if d == 3 {
        "3"
    } else if d == 4 {
        "4"
    } else if d == 5 {
        "5"
    } else if d == 6 {
        "6"
    } else if d == 7 {
        "7"
    } else if d == 8 {
        "8"
    } else {
        "9"
    }
}

/// Appends the decimal digits of `m` to `out`.
fn push_nat_text(m: u64, out: &mut String)
    ensures
        final(out)@ == old(out)@ + nat_to_text(m as nat),
    decreases m,
{
    if m >= 10 {
        push_nat_text(m / 10, out);
        out.append(digit_str(m % 10));
        proof {
            assert(out@ =~= old(out)@ + nat_to_text(m as nat));
        }
    } else {
        out.append(digit_str(m));
        proof {
            assert(out@ =~= old(out)@ + nat_to_text(m as nat));
        }
    }
}

/// The decimal text of `value`, with a leading minus sign when negative.
pub fn int_to_string(value: i64) -> (r: String)
    ensures
        r@ == int_to_text(value as int),
{
    let mut out = String::new();
    if value < 0 {
        out.append("-");
        let m: u64 = if value == i64::MIN {
            9223372036854775808u64
        } else {
            (-value) as u64
        };
        proof {
            reveal_strlit("-");
            assert(m as nat == (-(value as int)) as nat);
        }
        push_nat_text(m, &mut out);
        proof {
            assert(out@ =~= int_to_text(value as int));
        }
    } else {
        push_nat_text(value as u64, &mut out);
        proof {
            assert(out@ =~= int_to_text(value as int));
        }
    }
    out
}

impl Variable {
    /// Whether this variable currently holds a string.
    fn is_string(&self) -> (r: bool)
        ensures
            r == (self@ is Text),
    {
        matches!(self.variable_type, VariableType::Str(_))
    }

    /// Whether both this variable and `variable` currently hold strings.
    fn is_string_and_so_is(&self, variable: &Variable) -> (r: bool)
        ensures
            r == (self@ is Text && variable@ is Text),
    {
        self.is_string() && variable.is_string()
    }

    /// Whether assigning `variable` into this variable would mix a string
    /// holding non-numeric text with anything that is not one — the fatal
    /// coercion conflict, on whichever side the non-numeric string stands.
    pub fn detect_conflicting_string_types(&self, variable: &Variable) -> (r: bool)
        ensures
            r == (non_numeric_text(self@) != non_numeric_text(variable@)),
    {
        let a: bool = match &self.variable_type {
            VariableType::Str(s) => !is_numeric(s.as_str()),
            _ => false,
        };
        let b: bool = match &variable.variable_type {
            VariableType::Str(s) => !is_numeric(s.as_str()),
            _ => false,
        };
        a != b
    }

    /// The canonical integer this variable's value bridges to, or the error
    /// that crossing the bridge raises.
    pub fn bridge_int(&self) -> (r: Result<i64, ErrorKind>)
        ensures
            match r {
                Ok(n) => bridge_of(self@) == Ok::<int, ErrorKind>(n as int),
                Err(k) => bridge_of(self@) == Err::<int, ErrorKind>(k),
            },
    {
        match &self.variable_type {
            VariableType::Integer(value) => Ok(*value),
            VariableType::Boolean(value) => Ok(bool_to_int(value)),
            VariableType::Str(s) => {
                if s.as_str().is_empty() || !is_numeric(s.as_str()) {
                    Err(ErrorKind::TypeMismatch)
                } else {
                    match string_to_int(s.as_str()) {
                        Some(v) => Ok(v),
                        None => Err(ErrorKind::ArithmeticOverflow),
                    }
                }
            },
        }
    }

    /// The canonical integer of this variable's value.
    pub fn as_integer(&self) -> (r: i64)
        requires
            coercible(self@),
        ensures
            r as int == coerce_int(self@),
    {
        match &self.variable_type {
            VariableType::Integer(value) => *value,
            VariableType::Boolean(value) => bool_to_int(value),
            VariableType::Str(value) => {
                match string_to_int(value.as_str()) {
                    Some(v) => v,
                    None => {
                        proof {
                            assert(false);
                        }
                        0
                    },
                }
            },
        }
    }

    /// Replaces this variable's value with the bridged integer `value`
    /// converted into this variable's own kind.
    pub fn set_from_integer(&mut self, value: i64)
        ensures
            final(self)@ == with_kind_of(old(self)@, value as int),
    {
        let variable_type = match &self.variable_type {
            VariableType::Integer(_) => VariableType::Integer(value),
            VariableType::Boolean(_) => VariableType::Boolean(int_to_bool(value)),
            VariableType::Str(_) => VariableType::Str(int_to_string(value)),
        };
        self.variable_type = variable_type;
    }

    /// Assigns `variable`'s value into this variable through the coercion
    /// model: a verbatim copy when both are strings, a type error when a
    /// string holding non-numeric text meets any other kind on either side,
    /// otherwise across the integer bridge, keeping this variable's kind.
    /// On an error the variable is left unchanged.
    pub fn set(&mut self, variable: &Variable) -> (r: Result<(), ErrorKind>)
        ensures
            match r {
                Ok(_) => set_model(old(self)@, variable@) == Ok::<ValueModel, ErrorKind>(
                    final(self)@,
                ),
                Err(k) => set_model(old(self)@, variable@) == Err::<ValueModel, ErrorKind>(k)
                    && final(self)@ == old(self)@,
            },
    {
        if self.is_string_and_so_is(variable) {
            self.variable_type = variable.variable_type.clone();
            return Ok(());
        }
        if self.detect_conflicting_string_types(variable) {
            return Err(ErrorKind::TypeMismatch);
        }
        let n: i64 = match &variable.variable_type {
            VariableType::Integer(v) => *v,
            VariableType::Boolean(b) => bool_to_int(b),
            VariableType::Str(s) => {
                if s.as_str().is_empty() {
                    return Err(ErrorKind::TypeMismatch);
                }
                match string_to_int(s.as_str()) {
                    Some(v) => v,
                    None => {
                        return Err(ErrorKind::ArithmeticOverflow);
                    },
                }
            },
        };
        self.set_from_integer(n);
        Ok(())
    }

    /// The canonical printed text of this variable's value: decimal for
    /// integers, `true`/`false` for booleans, the text itself for strings.
    pub fn printed_string(&self) -> (r: String)
        ensures
            r@ == printed_of(self@),
    {
        match &self.variable_type {
            VariableType::Integer(value) => int_to_string(*value),
            VariableType::Boolean(value) => {
                if *value {
                    String::from_str("true")
                } else {
                    String::from_str("false")
                }
            },
            VariableType::Str(value) => value.clone(),
        }
    }
}

} // verus!
