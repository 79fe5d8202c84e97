//! Lexical tokens and the line tokenizer.
//!
//! Each source line is split into typed tokens: quoted strings stay one
//! token, a few punctuation characters always stand alone, and keywords are
//! recognised by their exact spelling. Adjacent value/operator/value triples
//! are merged back into one composite value token, which the operator
//! expression evaluator re-splits at run time.

use vstd::prelude::*;
use vstd::string::*;

use crate::variables::{digits_value, is_digit_char, is_digits};

verus! {

/// The type of one lexical token.
#[derive(PartialEq, Eq, Structural, Debug, Clone, Copy)]
pub enum TokenType {
    /// A literal, a name, or a merged composite operator expression.
    Value,
    Equals,
    For,
    From,
    To,
    Done,
    Function,
    Colon,
    DoublePipe,
    LeftBracket,
    RightBracket,
    RightArrow,
    Return,
    Int,
    Bool,
    Str,
    If,
    Is,
    Not,
    Multiply,
    Minus,
    LessThan,
    GreaterThan,
}

/// One lexical token: its type and its exact source spelling.
#[derive(Debug)]
pub struct Token {
    pub token_type: TokenType,
    pub string: String,
}

impl Token {
    /// The number this token's text spells.
    pub fn as_number(&self) -> (r: usize)
        requires
            is_digits(self.string@),
            digits_value(self.string@) <= usize::MAX,
        ensures
            r as int == digits_value(self.string@),
    {
        parse_usize(self.string.as_str())
    }
}

/// The value of a digit string, as a machine word.
fn parse_usize(value: &str) -> (r: usize)
    requires
        is_digits(value@),
        digits_value(value@) <= usize::MAX,
    ensures
        r as int == digits_value(value@),
{
    let len: usize = value.unicode_len();
    let mut i: usize = 0;
    let mut acc: usize = 0;
    while i < len
        invariant
            0 <= i <= len,
            len == value@.len(),
            is_digits(value@),
            digits_value(value@) <= usize::MAX,
            acc as int == digits_value(value@.subrange(0, i as int)),
        decreases len - i,
    {
        let c = value.get_char(i);
        proof {
            assert(is_digit_char(value@[i as int]));
            assert(value@.subrange(0, i as int + 1).drop_last() =~= value@.subrange(0, i as int));
            assert(value@.subrange(0, i as int + 1).last() == value@[i as int]);
            crate::variables::lemma_digits_prefix_le(value@, i as int + 1);
        }
        let d: u32 = (c as u32) - 48;
        acc = acc * 10 + (d as usize);
        i = i + 1;
    }
    proof {
        assert(value@.subrange(0, len as int) =~= value@);
    }
    acc
}

impl View for Token {
    type V = (TokenType, Seq<char>);

    open spec fn view(&self) -> (TokenType, Seq<char>) {
        (self.token_type, self.string@)
    }
}

impl Clone for Token {
    /// A copy that stands for the same token.
    fn clone(&self) -> (r: Self)
        ensures
            r@ == self@,
    {
        Token { token_type: self.token_type, string: self.string.clone() }
    }
}

/// The views of a sequence of tokens.
pub open spec fn tokens_view(s: Seq<Token>) -> Seq<(TokenType, Seq<char>)> {
    s.map_values(|t: Token| t@)
}

/// The token type a word's exact spelling stands for; anything unrecognised
/// is a plain value.
pub open spec fn spec_token_from(s: Seq<char>) -> TokenType {
    if s == "="@ {
        TokenType::Equals
    } else if s == "for"@ {
        TokenType::For
    } else if s == "from"@ {
        TokenType::From
    } else if s == "to"@ {
        TokenType::To
    } else if s == "done"@ {
        TokenType::Done
    } else if s == "fn"@ {
        TokenType::Function
    } else if s == ":"@ {
        TokenType::Colon
    } else if s == "||"@ {
        TokenType::DoublePipe
    } else if s == "("@ {
        TokenType::LeftBracket
    } else if s == ")"@ {
        TokenType::RightBracket
    } else if s == "->"@ {
        TokenType::RightArrow
    } else if s == "return"@ {
        TokenType::Return
    } else if s == "int"@ {
        TokenType::Int
    } else if s == "bool"@ {
        TokenType::Bool
    } else if s == "string"@ {
        TokenType::Str
    } else if s == "if"@ {
        TokenType::If
    } else if s == "is"@ {
        TokenType::Is
    } else if s == "not"@ {
        TokenType::Not
    } else if s == "*"@ {
        TokenType::Multiply
    } else if s == "-"@ {
        TokenType::Minus
    } else if s == "<"@ {
        TokenType::LessThan
    } else if s == ">"@ {
        TokenType::GreaterThan
    } else {
        TokenType::Value
    }
}

/// The token type a word's exact spelling stands for.
fn token_from_string(input: &str) -> (r: TokenType)
    ensures
        r == spec_token_from(input@),
{
    if crate::names::str_eq(input, "=") {
        TokenType::Equals
    } else if crate::names::str_eq(input, "for") {
        TokenType::For
    } else if crate::names::str_eq(input, "from") {
        TokenType::From
    } else if crate::names::str_eq(input, "to") {
        TokenType::To
    } else if crate::names::str_eq(input, "done") {
        TokenType::Done
    } else if crate::names::str_eq(input, "fn") {
        TokenType::Function
    } else if crate::names::str_eq(input, ":") {
        TokenType::Colon
    } else if crate::names::str_eq(input, "||") {
        TokenType::DoublePipe
    } else if crate::names::str_eq(input, "(") {
        TokenType::LeftBracket
    } else if crate::names::str_eq(input, ")") {
        TokenType::RightBracket
    } else if crate::names::str_eq(input, "->") {
        TokenType::RightArrow
    } else if crate::names::str_eq(input, "return") {
        TokenType::Return
    } else if crate::names::str_eq(input, "int") {
        TokenType::Int
    } else if crate::names::str_eq(input, "bool") {
        TokenType::Bool
    } else if crate::names::str_eq(input, "string") {
        TokenType::Str
    } else if crate::names::str_eq(input, "if") {
        TokenType::If
    } else if crate::names::str_eq(input, "is") {
        TokenType::Is
    } else if crate::names::str_eq(input, "not") {
        TokenType::Not
    } else if crate::names::str_eq(input, "*") {
        TokenType::Multiply
    } else if crate::names::str_eq(input, "-") {
        TokenType::Minus
    } else if crate::names::str_eq(input, "<") {
        TokenType::LessThan
    } else if crate::names::str_eq(input, ">") {
        TokenType::GreaterThan
    } else {
        TokenType::Value
    }
}

/// Whether `c` always stands alone as a token, whatever surrounds it. The
/// minus sign is deliberately not one of these, so that a merged text such
/// as `a-b` and the arrow `->` each stay one word.
pub open spec fn is_single_token_char(c: char) -> bool {
    c == '=' || c == ':' || c == '(' || c == ')' || c == '*'
}

/// Whether `c` always stands alone as a token.
fn is_single_token(c: char) -> (r: bool)
    ensures
        r == is_single_token_char(c),
{
    match c {
        '=' => true,
        ':' => true,
        '(' => true,
        ')' => true,
        '*' => true,
        _ => false,
    }
}

/// The raw tokens of the line `s` from position `i` on, the current word
/// having started at position `w`, with `inside` saying whether an opened
/// string literal is still unclosed. A quote toggles the string state; a
/// closing quote, a space, or the line's end flushes the word (the space
/// itself excluded, everything else included); a stand-alone character
/// flushes the word before it and then stands alone; an unclosed string's
/// partial word is discarded with the line's end.
pub open spec fn lex_line(s: Seq<char>, w: int, i: int, inside: bool) -> Seq<
    (TokenType, Seq<char>),
>
    decreases s.len() - i,
{
    if i < 0 || i >= s.len() {
        Seq::empty()
    } else {
        let c = s[i];
        let single = is_single_token_char(c);
        let inside2 = if c == '"' {
            !inside
        } else {
            inside
        };
        let string_ended = c == '"' && !inside2;
        let normal_end = !inside2 && !single && (c == ' ' || i == s.len() - 1);
        if string_ended || normal_end {
            let word = if c == ' ' {
                s.subrange(w, i)
            } else {
                s.subrange(w, i + 1)
            };
            let toks: Seq<(TokenType, Seq<char>)> = if word.len() > 0 {
                seq![(spec_token_from(word), word)]
            } else {
                Seq::empty()
            };
            toks + lex_line(s, i + 1, i + 1, inside2)
        } else if single && !inside2 {
            let word = s.subrange(w, i);
            let toks: Seq<(TokenType, Seq<char>)> = if word.len() > 0 {
                seq![(spec_token_from(word), word)]
            } else {
                Seq::empty()
            };
            toks + seq![(spec_token_from(seq![c]), seq![c])] + lex_line(s, i + 1, i + 1, inside2)
        } else {
            lex_line(s, w, i + 1, inside2)
        }
    }
}

/// Whether `c` is stripped from a line's ends before tokenizing.
pub open spec fn is_trim_char(c: char) -> bool {
    c == ' ' || c == '\t' || c == '\r'
}

/// `s` without its leading trimmed characters.
pub open spec fn trim_front(s: Seq<char>) -> Seq<char>
    decreases s.len(),
{
    if s.len() > 0 && is_trim_char(s[0]) {
        trim_front(s.drop_first())
    } else {
        s
    }
}

/// `s` without its trailing trimmed characters.
pub open spec fn trim_back(s: Seq<char>) -> Seq<char>
    decreases s.len(),
{
    if s.len() > 0 && is_trim_char(s.last()) {
        trim_back(s.drop_last())
    } else {
        s
    }
}

/// `s` without leading and trailing spaces, tabs and carriage returns.
pub open spec fn trim_model(s: Seq<char>) -> Seq<char> {
    trim_back(trim_front(s))
}

/// Dropping leading trimmed characters keeps the rest.
proof fn lemma_trim_front_at(s: Seq<char>, k: int)
    requires
        0 <= k <= s.len(),
        forall|j: int| 0 <= j < k ==> is_trim_char(s[j]),
        k < s.len() ==> !is_trim_char(s[k]),
    ensures
        trim_front(s) == s.subrange(k, s.len() as int),
    decreases k,
{
    if k == 0 {
        if s.len() > 0 {
            assert(!is_trim_char(s[0]));
        }
        assert(s.subrange(0, s.len() as int) =~= s);
    } else {
        assert(is_trim_char(s[0]));
        let d = s.drop_first();
        assert forall|j: int| 0 <= j < k - 1 implies is_trim_char(d[j]) by {
            assert(d[j] == s[j + 1]);
        }
        lemma_trim_front_at(d, k - 1);
        assert(d.subrange(k - 1, d.len() as int) =~= s.subrange(k, s.len() as int));
    }
}

/// Dropping trailing trimmed characters keeps the rest.
proof fn lemma_trim_back_at(s: Seq<char>, k: int)
    requires
        0 <= k <= s.len(),
        forall|j: int| k <= j < s.len() ==> is_trim_char(s[j]),
        k > 0 ==> !is_trim_char(s[k - 1]),
    ensures
        trim_back(s) == s.subrange(0, k),
    decreases s.len() - k,
{
    if k == s.len() {
        if s.len() > 0 {
            assert(!is_trim_char(s.last()));
        }
        assert(s.subrange(0, s.len() as int) =~= s);
    } else {
        assert(is_trim_char(s.last()));
        let d = s.drop_last();
        lemma_trim_back_at(d, k);
        assert(d.subrange(0, k) =~= s.subrange(0, k));
    }
}

/// Whether `c` is stripped from a line's ends before tokenizing.
fn is_trim(c: char) -> (r: bool)
    ensures
        r == is_trim_char(c),
{
    c == ' ' || c == '\t' || c == '\r'
}

/// `value` without leading and trailing spaces, tabs and carriage returns.
fn trim_spaces(value: &str) -> (r: &str)
    ensures
        r@ == trim_model(value@),
{
    let len: usize = value.unicode_len();
    let mut a: usize = 0;
    while a < len && is_trim(value.get_char(a))
        invariant
            0 <= a <= len,
            len == value@.len(),
            forall|j: int| 0 <= j < a ==> is_trim_char(value@[j]),
        decreases len - a,
    {
        a = a + 1;
    }
    proof {
        lemma_trim_front_at(value@, a as int);
    }
    let mut b: usize = len;
    while b > a && is_trim(value.get_char(b - 1))
        invariant
            a <= b <= len,
            len == value@.len(),
            forall|j: int| b <= j < len ==> is_trim_char(value@[j]),
        decreases b,
    {
        b = b - 1;
    }
    let out = value.substring_char(a, b);
    proof {
        let front = value@.subrange(a as int, len as int);
        assert forall|j: int| (b - a) <= j < front.len() implies is_trim_char(front[j]) by {
            assert(front[j] == value@[j + a]);
        }
        if b > a {
            assert(front[b - a - 1] == value@[b as int - 1]);
        }
        lemma_trim_back_at(front, b - a);
        assert(front.subrange(0, b - a) =~= value@.subrange(a as int, b as int));
    }
    out
}

/// The tokens of one trimmed source line: the raw character march, then
/// every pending operator merge.
pub open spec fn lex_line_model(s: Seq<char>) -> Seq<(TokenType, Seq<char>)> {
    crate::operators::collect_model(lex_line(s, 0, 0, false))
}

/// Splits one trimmed line into typed tokens and merges composite operator
/// expressions back into single value tokens.
fn get_tokens_from_line(input: &str) -> (r: Vec<Token>)
    ensures
        tokens_view(r@) == lex_line_model(input@),
{
    let mut tokens: Vec<Token> = Vec::new();
    let len: usize = input.unicode_len();
    if len == 0 {
        proof {
            assert forall|j: int| !crate::operators::is_mergeable_at(
                tokens_view(tokens@),
                j,
            ) by {}
            assert(tokens_view(tokens@) =~= lex_line(input@, 0, 0, false));
        }
        return tokens;
    }
    let mut w: usize = 0;
    let mut i: usize = 0;
    let mut inside: bool = false;
    while i < len
        invariant
            0 <= w <= i <= len,
            len == input@.len(),
            lex_line(input@, 0, 0, false) == tokens_view(tokens@) + lex_line(
                input@,
                w as int,
                i as int,
                inside,
            ),
        decreases len - i,
    {
        let c = input.get_char(i);
        let single = is_single_token(c);
        let inside2: bool = if c == '"' {
            !inside
        } else {
            inside
        };
        let string_ended = c == '"' && !inside2;
        let normal_end = !inside2 && !single && (c == ' ' || i == len - 1);
        let ghost tokens0 = tokens@;
        if string_ended || normal_end {
            let word = if c == ' ' {
                input.substring_char(w, i)
            } else {
                input.substring_char(w, i + 1)
            };
            if word.unicode_len() > 0 {
                tokens.push(
                    Token { token_type: token_from_string(word), string: String::from_str(word) },
                );
            }
            proof {
                let wordm = if c == ' ' {
                    input@.subrange(w as int, i as int)
                } else {
                    input@.subrange(w as int, i as int + 1)
                };
                let toks: Seq<(TokenType, Seq<char>)> = if wordm.len() > 0 {
                    seq![(spec_token_from(wordm), wordm)]
                } else {
                    Seq::empty()
                };
                assert(tokens_view(tokens@) =~~= tokens_view(tokens0) + toks);
                assert(tokens_view(tokens0) + (toks + lex_line(
                    input@,
                    i as int + 1,
                    i as int + 1,
                    inside2,
                )) =~~= tokens_view(tokens@) + lex_line(
                    input@,
                    i as int + 1,
                    i as int + 1,
                    inside2,
                ));
            }
            w = i + 1;
            i = i + 1;
            inside = inside2;
        } else if single && !inside2 {
            let word = input.substring_char(w, i);
            if word.unicode_len() > 0 {
                tokens.push(
                    Token { token_type: token_from_string(word), string: String::from_str(word) },
                );
            }
            let cs = input.substring_char(i, i + 1);
            tokens.push(
                Token { token_type: token_from_string(cs), string: String::from_str(cs) },
            );
            proof {
                let wordm = input@.subrange(w as int, i as int);
                let toks: Seq<(TokenType, Seq<char>)> = if wordm.len() > 0 {
                    seq![(spec_token_from(wordm), wordm)]
                } else {
                    Seq::empty()
                };
                assert(cs@ =~= seq![input@[i as int]]);
                assert(tokens_view(tokens@) =~~= tokens_view(tokens0) + (toks + seq![
                    (
                        spec_token_from(seq![input@[i as int]]),
                        seq![input@[i as int]],
                    ),
                ]));
                assert(tokens_view(tokens0) + ((toks + seq![
                    (
                        spec_token_from(seq![input@[i as int]]),
                        seq![input@[i as int]],
                    ),
                ]) + lex_line(input@, i as int + 1, i as int + 1, inside2)) =~~= tokens_view(
                    tokens@,
                ) + lex_line(input@, i as int + 1, i as int + 1, inside2));
            }
            w = i + 1;
            i = i + 1;
            inside = inside2;
        } else {
            i = i + 1;
            inside = inside2;
        }
    }
    proof {
        assert(lex_line(input@, 0, 0, false) =~~= tokens_view(tokens@));
    }
    crate::operators::collect_operators(&mut tokens);
    tokens
}

/// Tokenizes every source line, each first stripped of surrounding blanks.
pub fn tokenise_lines(lines: &Vec<String>) -> (r: Vec<Vec<Token>>)
    ensures
        r@.len() == lines@.len(),
        forall|i: int|
            0 <= i < lines@.len() ==> tokens_view(#[trigger] r@[i]@) == lex_line_model(
                trim_model(lines@[i]@),
            ),
{
    let n: usize = lines.len();
    let mut tokenised_lines: Vec<Vec<Token>> = Vec::new();
    let mut i: usize = 0;
    while i < n
        invariant
            0 <= i <= n,
            n == lines@.len(),
            tokenised_lines@.len() == i,
            forall|j: int|
                0 <= j < i ==> tokens_view(#[trigger] tokenised_lines@[j]@) == lex_line_model(
                    trim_model(lines@[j]@),
                ),
        decreases n - i,
    {
        let trimmed = trim_spaces(lines[i].as_str());
        tokenised_lines.push(get_tokens_from_line(trimmed));
        i = i + 1;
    }
    tokenised_lines
}

} // verus!
