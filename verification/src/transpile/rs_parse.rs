//! Reading RuneScript source back into a structured script: a lexer with
//! an exact specification, and a recursive-descent parser for the grammar
//! the RuneScript renderer writes (headers `name(type $arg)(ret)`,
//! `$<type><idx>` locals and their `def_` declarations, `calc(...)`,
//! `~proc` calls, `%var` references, `switch_int`, `if` and `while`).
use crate::error::{Error, ErrorKind};
use crate::text::{chars_of, dec_nat, digits_value, push_str, push_u64, str_eq, string_from, string_of};
use crate::transpile::ast::{
    ArgumentVariable, ArrayAccess, BigIntLiteral, BinaryOp, BinaryOperation, BooleanLiteral, CallExpr,
    CallbackLiteral, Expression, GotoExpr, Identifier, ImportStatement, LocalVariable, NumberLiteral,
    PropertyAccess, ScriptId, StringLiteral, TypeAnnotation, UnaryOp, UnaryOperation,
};
use crate::transpile::runescript::RuneScriptContext;
use crate::transpile::structured::{
    parse_type_annotation, AssignmentTarget, StructuredScript, StructuredStmt, SwitchCaseStmt,
};
use vstd::prelude::*;

verus! {

broadcast use vstd::string::group_string_axioms;

// ---------------------------------------------------------------------------
// Tokens
// ---------------------------------------------------------------------------

/// A punctuation or operator token.
#[derive(Clone, Copy, Debug, PartialEq, Eq, Structural)]
pub enum Punct {
    LParen,
    RParen,
    LBrace,
    RBrace,
    LBracket,
    RBracket,
    Comma,
    Semi,
    Dot,
    Colon,
    Tilde,
    Eq,
    Bang,
    Lt,
    Le,
    Gt,
    Ge,
    Plus,
    Minus,
    Star,
    Slash,
    Percent,
    Amp,
    Pipe,
}

/// A token of RuneScript source.
#[derive(Clone, Debug)]
pub enum Tok {
    Ident(String),
    Num(i64),
    Long(i64),
    Str(String),
    P(Punct),
}

/// The value of a token.
pub enum TokV {
    Ident(Seq<char>),
    Num(i64),
    Long(i64),
    Str(Seq<char>),
    P(Punct),
}

impl View for Tok {
    type V = TokV;

    open spec fn view(&self) -> TokV {
        match self {
            Tok::Ident(s) => TokV::Ident(s@),
            Tok::Num(v) => TokV::Num(*v),
            Tok::Long(v) => TokV::Long(*v),
            Tok::Str(s) => TokV::Str(s@),
            Tok::P(p) => TokV::P(*p),
        }
    }
}

/// The values of some tokens.
pub open spec fn toks_view(t: Seq<Tok>) -> Seq<TokV> {
    t.map_values(|k: Tok| k@)
}

// ---------------------------------------------------------------------------
// The lexer, as a specification
// ---------------------------------------------------------------------------

/// `char::is_ascii_whitespace`.
pub open spec fn ascii_ws(c: char) -> bool {
    c == ' ' || c == '\t' || c == '\n' || c == '\x0C' || c == '\r'
}

/// `char::is_ascii_digit`.
pub open spec fn ascii_digit(c: char) -> bool {
    '0' <= c <= '9'
}

/// `char::is_ascii_alphabetic`.
pub open spec fn ascii_alpha(c: char) -> bool {
    ('a' <= c <= 'z') || ('A' <= c <= 'Z')
}

/// A character that starts an identifier.
pub open spec fn ident_start(c: char) -> bool {
    ascii_alpha(c) || c == '_' || c == '$'
}

/// A character that continues an identifier.
pub open spec fn ident_continue(c: char) -> bool {
    ascii_alpha(c) || ascii_digit(c) || c == '_'
}

/// The end of the run of digits from `i`.
pub open spec fn digits_end(s: Seq<char>, i: int) -> int
    decreases s.len() - i,
{
    if 0 <= i < s.len() && ascii_digit(s[i]) {
        digits_end(s, i + 1)
    } else {
        i
    }
}

/// The end of the run of identifier characters from `i`.
pub open spec fn ident_end(s: Seq<char>, i: int) -> int
    decreases s.len() - i,
{
    if 0 <= i < s.len() && ident_continue(s[i]) {
        ident_end(s, i + 1)
    } else {
        i
    }
}

/// The end of a `//` comment from `i`: the next line feed, or the end.
pub open spec fn comment_end(s: Seq<char>, i: int) -> int
    decreases s.len() - i,
{
    if 0 <= i < s.len() && s[i] != '\n' {
        comment_end(s, i + 1)
    } else {
        i
    }
}

/// The character an escape `\c` stands for.
pub open spec fn unescape(c: char) -> char {
    if c == 'n' {
        '\n'
    } else if c == 'r' {
        '\r'
    } else if c == 't' {
        '\t'
    } else {
        c
    }
}

/// The rest of a string literal from `i` (after the opening quote): its
/// value and the position after the closing quote; `None` when it does not
/// close.
pub open spec fn string_body(s: Seq<char>, i: int) -> Option<(Seq<char>, int)>
    decreases s.len() - i,
{
    if i < 0 || i >= s.len() {
        None
    } else if s[i] == '"' {
        Some((seq![], i + 1))
    } else if s[i] == '\\' && i + 1 < s.len() {
        match string_body(s, i + 2) {
            Some((v, e)) => Some((seq![unescape(s[i + 1])] + v, e)),
            None => None,
        }
    } else {
        match string_body(s, i + 1) {
            Some((v, e)) => Some((seq![s[i]] + v, e)),
            None => None,
        }
    }
}

/// The punctuation a single character stands for.
pub open spec fn punct_of(c: char) -> Option<Punct> {
    if c == '(' {
        Some(Punct::LParen)
    } else if c == ')' {
        Some(Punct::RParen)
    } else if c == '{' {
        Some(Punct::LBrace)
    } else if c == '}' {
        Some(Punct::RBrace)
    } else if c == '[' {
        Some(Punct::LBracket)
    } else if c == ']' {
        Some(Punct::RBracket)
    } else if c == ',' {
        Some(Punct::Comma)
    } else if c == ';' {
        Some(Punct::Semi)
    } else if c == '.' {
        Some(Punct::Dot)
    } else if c == ':' {
        Some(Punct::Colon)
    } else if c == '~' {
        Some(Punct::Tilde)
    } else if c == '=' {
        Some(Punct::Eq)
    } else if c == '!' {
        Some(Punct::Bang)
    } else if c == '<' {
        Some(Punct::Lt)
    } else if c == '>' {
        Some(Punct::Gt)
    } else if c == '+' {
        Some(Punct::Plus)
    } else if c == '-' {
        Some(Punct::Minus)
    } else if c == '*' {
        Some(Punct::Star)
    } else if c == '/' {
        Some(Punct::Slash)
    } else if c == '%' {
        Some(Punct::Percent)
    } else if c == '&' {
        Some(Punct::Amp)
    } else if c == '|' {
        Some(Punct::Pipe)
    } else {
        None
    }
}

/// A `...L` literal's value: the digits as an `i64`, or as a `u64` read
/// back in two's complement when they exceed `i64::MAX`.
pub open spec fn long_value(d: Seq<char>) -> Option<i64> {
    let v = digits_value(d);
    if v <= i64::MAX {
        Some(v as i64)
    } else if v <= u64::MAX {
        Some((v - 0x1_0000_0000_0000_0000) as i64)
    } else {
        None
    }
}

/// One step of the lexer at `i`: the token it reads, if any, and where the
/// next step starts; `None` when the source cannot be read there.
pub open spec fn lex_step(s: Seq<char>, i: int) -> Option<(Option<TokV>, int)> {
    let c = s[i];
    if ascii_ws(c) {
        Some((None, i + 1))
    } else if c == '/' && i + 1 < s.len() && s[i + 1] == '/' {
        Some((None, comment_end(s, i)))
    } else if c == '"' {
        match string_body(s, i + 1) {
            Some((v, e)) => Some((Some(TokV::Str(v)), e)),
            None => None,
        }
    } else if ascii_digit(c) {
        let e = digits_end(s, i);
        let d = s.subrange(i, e);
        if e < s.len() && s[e] == 'L' {
            match long_value(d) {
                Some(v) => Some((Some(TokV::Long(v)), e + 1)),
                None => None,
            }
        } else if digits_value(d) <= i64::MAX {
            Some((Some(TokV::Num(digits_value(d) as i64)), e))
        } else {
            None
        }
    } else if c == '%' && i + 1 < s.len() && ident_continue(s[i + 1]) {
        let e = ident_end(s, i + 1);
        Some((Some(TokV::Ident(s.subrange(i, e))), e))
    } else if ident_start(c) {
        let e = ident_end(s, i + 1);
        Some((Some(TokV::Ident(s.subrange(i, e))), e))
    } else if c == '<' && i + 1 < s.len() && s[i + 1] == '=' {
        Some((Some(TokV::P(Punct::Le)), i + 2))
    } else if c == '>' && i + 1 < s.len() && s[i + 1] == '=' {
        Some((Some(TokV::P(Punct::Ge)), i + 2))
    } else {
        match punct_of(c) {
            Some(p) => Some((Some(TokV::P(p)), i + 1)),
            None => None,
        }
    }
}

pub proof fn lemma_ends(s: Seq<char>, i: int)
    requires
        0 <= i <= s.len(),
    ensures
        i <= digits_end(s, i) <= s.len(),
        i <= ident_end(s, i) <= s.len(),
        i <= comment_end(s, i) <= s.len(),
        forall|k: int| i <= k < digits_end(s, i) ==> ascii_digit(#[trigger] s[k]),
        forall|k: int| i <= k < ident_end(s, i) ==> ident_continue(#[trigger] s[k]),
    decreases s.len() - i,
{
    if i < s.len() {
        lemma_ends(s, i + 1);
    }
}

pub proof fn lemma_string_body_advances(s: Seq<char>, i: int)
    requires
        0 <= i,
    ensures
        string_body(s, i) matches Some((v, e)) ==> i < e <= s.len(),
    decreases s.len() - i,
{
    if 0 <= i < s.len() && s[i] != '"' {
        if s[i] == '\\' && i + 1 < s.len() {
            lemma_string_body_advances(s, i + 2);
        } else {
            lemma_string_body_advances(s, i + 1);
        }
    }
}

pub proof fn lemma_lex_step_advances(s: Seq<char>, i: int)
    requires
        0 <= i < s.len(),
    ensures
        lex_step(s, i) matches Some((t, e)) ==> i < e <= s.len(),
{
    lemma_ends(s, i);
    lemma_ends(s, i + 1);
    lemma_string_body_advances(s, i + 1);
}

/// The tokens of `s` from `i` on; `None` when some character cannot be
/// read.
pub open spec fn lex_from(s: Seq<char>, i: int) -> Option<Seq<TokV>>
    decreases s.len() - i,
{
    if i < 0 || i >= s.len() {
        Some(seq![])
    } else {
        match lex_step(s, i) {
            None => None,
            Some((t, e)) => {
                proof {
                    lemma_lex_step_advances(s, i);
                }
                match lex_from(s, e) {
                    None => None,
                    Some(rest) => match t {
                        Some(k) => Some(seq![k] + rest),
                        None => Some(rest),
                    },
                }
            },
        }
    }
}

/// The tokens of a RuneScript source.
pub open spec fn lex_spec(s: Seq<char>) -> Option<Seq<TokV>> {
    lex_from(s, 0)
}

// ---------------------------------------------------------------------------
// The lexer
// ---------------------------------------------------------------------------

/// The value of an optional token.
pub open spec fn opt_tok(t: Option<Tok>) -> Option<TokV> {
    match t {
        Some(k) => Some(k@),
        None => None,
    }
}

/// `prefix` followed by the tokens of `rest`, when there are any.
pub open spec fn prepend_toks(prefix: Seq<TokV>, rest: Option<Seq<TokV>>) -> Option<Seq<TokV>> {
    match rest {
        Some(r) => Some(prefix + r),
        None => None,
    }
}

fn is_ascii_ws(c: char) -> (r: bool)
    ensures
        r == ascii_ws(c),
{
    c == ' ' || c == '\t' || c == '\n' || c == '\x0C' || c == '\r'
}

fn is_digit_char(c: char) -> (r: bool)
    ensures
        r == ascii_digit(c),
{
    '0' <= c && c <= '9'
}

fn is_ident_start(c: char) -> (r: bool)
    ensures
        r == ident_start(c),
{
    ('a' <= c && c <= 'z') || ('A' <= c && c <= 'Z') || c == '_' || c == '$'
}

fn is_ident_continue(c: char) -> (r: bool)
    ensures
        r == ident_continue(c),
{
    ('a' <= c && c <= 'z') || ('A' <= c && c <= 'Z') || ('0' <= c && c <= '9') || c == '_'
}

fn digits_end_of(s: &[char], i: usize) -> (r: usize)
    requires
        i <= s@.len(),
    ensures
        r == digits_end(s@, i as int),
{
    let mut j = i;
    while j < s.len() && is_digit_char(s[j])
        invariant
            i <= j <= s@.len(),
            digits_end(s@, i as int) == digits_end(s@, j as int),
        decreases s@.len() - j,
    {
        j = j + 1;
    }
    j
}

fn ident_end_of(s: &[char], i: usize) -> (r: usize)
    requires
        i <= s@.len(),
    ensures
        r == ident_end(s@, i as int),
{
    let mut j = i;
    while j < s.len() && is_ident_continue(s[j])
        invariant
            i <= j <= s@.len(),
            ident_end(s@, i as int) == ident_end(s@, j as int),
        decreases s@.len() - j,
    {
        j = j + 1;
    }
    j
}

fn comment_end_of(s: &[char], i: usize) -> (r: usize)
    requires
        i <= s@.len(),
    ensures
        r == comment_end(s@, i as int),
{
    let mut j = i;
    while j < s.len() && s[j] != '\n'
        invariant
            i <= j <= s@.len(),
            comment_end(s@, i as int) == comment_end(s@, j as int),
        decreases s@.len() - j,
    {
        j = j + 1;
    }
    j
}

fn unescape_char(c: char) -> (r: char)
    ensures
        r == unescape(c),
{
    if c == 'n' {
        '\n'
    } else if c == 'r' {
        '\r'
    } else if c == 't' {
        '\t'
    } else {
        c
    }
}

fn string_body_of(s: &[char], i: usize) -> (r: Option<(String, usize)>)
    requires
        i <= s@.len(),
    ensures
        match r {
            Some((v, e)) => string_body(s@, i as int) == Some((v@, e as int)),
            None => string_body(s@, i as int) is None,
        },
{
    let mut acc = String::new();
    let mut j = i;
    while j < s.len()
        invariant
            i <= j <= s@.len() + 1,
            string_body(s@, i as int) == match string_body(s@, j as int) {
                Some((v, e)) => Some((acc@ + v, e)),
                None => None::<(Seq<char>, int)>,
            },
        decreases s@.len() + 1 - j,
    {
        let c = s[j];
        if c == '"' {
            proof {
                assert(acc@ + Seq::<char>::empty() =~= acc@);
            }
            return Some((acc, j + 1));
        }
        let ghost before = acc@;
        if c == '\\' && j + 1 < s.len() {
            crate::text::string_push(&mut acc, unescape_char(s[j + 1]));
            proof {
                assert forall|v: Seq<char>| before + (seq![unescape(s@[j + 1])] + v) =~= acc@ + v by {}
            }
            j = j + 2;
        } else {
            crate::text::string_push(&mut acc, c);
            proof {
                assert forall|v: Seq<char>| before + (seq![c] + v) =~= acc@ + v by {}
            }
            j = j + 1;
        }
    }
    None
}

proof fn lemma_digits_parse(d: Seq<char>, signed: bool)
    requires
        d.len() > 0,
        forall|k: int| 0 <= k < d.len() ==> ascii_digit(#[trigger] d[k]),
    ensures
        crate::text::parse_int_spec(d, signed) == Some(digits_value(d)),
        digits_value(d) >= 0,
{
    assert(crate::text::all_digits(d)) by {
        assert forall|k: int| 0 <= k < d.len() implies #[trigger] crate::text::is_digit(d[k]) by {
            assert(ascii_digit(d[k]));
        }
    }
    crate::text::lemma_digits_value_nonneg(d);
}

/// One step of the lexer.
fn lex_step_of(s: &[char], i: usize) -> (r: Option<(Option<Tok>, usize)>)
    requires
        i < s@.len(),
    ensures
        match r {
            Some((t, e)) => lex_step(s@, i as int) == Some((opt_tok(t), e as int)),
            None => lex_step(s@, i as int) is None,
        },
{
    let c = s[i];
    if is_ascii_ws(c) {
        return Some((None, i + 1));
    }
    if c == '/' && i + 1 < s.len() && s[i + 1] == '/' {
        return Some((None, comment_end_of(s, i)));
    }
    if c == '"' {
        return match string_body_of(s, i + 1) {
            Some((v, e)) => Some((Some(Tok::Str(v)), e)),
            None => None,
        };
    }
    if is_digit_char(c) {
        let e = digits_end_of(s, i);
        proof {
            lemma_ends(s@, i as int);
            lemma_ends(s@, i + 1);
            assert(digits_end(s@, i as int) == digits_end(s@, i + 1));
        }
        let d = crate::text::slice_vec(s, i, e);
        proof {
            lemma_digits_parse(d@, false);
        }
        let parsed = crate::text::parse_int_chars(&d, false, 0, 18446744073709551615);
        if e < s.len() && s[e] == 'L' {
            return match parsed {
                Some(v) => if v <= 9223372036854775807 {
                    Some((Some(Tok::Long(v as i64)), e + 1))
                } else {
                    Some((Some(Tok::Long((v - 18446744073709551616) as i64)), e + 1))
                },
                None => None,
            };
        }
        return match parsed {
            Some(v) => if v <= 9223372036854775807 {
                Some((Some(Tok::Num(v as i64)), e))
            } else {
                None
            },
            None => None,
        };
    }
    if c == '%' && i + 1 < s.len() && is_ident_continue(s[i + 1]) {
        let e = ident_end_of(s, i + 1);
        proof {
            lemma_ends(s@, i + 1);
        }
        let name = string_of(&crate::text::slice_vec(s, i, e));
        return Some((Some(Tok::Ident(name)), e));
    }
    if is_ident_start(c) {
        let e = ident_end_of(s, i + 1);
        proof {
            lemma_ends(s@, i + 1);
        }
        let name = string_of(&crate::text::slice_vec(s, i, e));
        return Some((Some(Tok::Ident(name)), e));
    }
    if c == '<' && i + 1 < s.len() && s[i + 1] == '=' {
        return Some((Some(Tok::P(Punct::Le)), i + 2));
    }
    if c == '>' && i + 1 < s.len() && s[i + 1] == '=' {
        return Some((Some(Tok::P(Punct::Ge)), i + 2));
    }
    let p = if c == '(' {
        Punct::LParen
    } else if c == ')' {
        Punct::RParen
    } else if c == '{' {
        Punct::LBrace
    } else if c == '}' {
        Punct::RBrace
    } else if c == '[' {
        Punct::LBracket
    } else if c == ']' {
        Punct::RBracket
    } else if c == ',' {
        Punct::Comma
    } else if c == ';' {
        Punct::Semi
    } else if c == '.' {
        Punct::Dot
    } else if c == ':' {
        Punct::Colon
    } else if c == '~' {
        Punct::Tilde
    } else if c == '=' {
        Punct::Eq
    } else if c == '!' {
        Punct::Bang
    } else if c == '<' {
        Punct::Lt
    } else if c == '>' {
        Punct::Gt
    } else if c == '+' {
        Punct::Plus
    } else if c == '-' {
        Punct::Minus
    } else if c == '*' {
        Punct::Star
    } else if c == '/' {
        Punct::Slash
    } else if c == '%' {
        Punct::Percent
    } else if c == '&' {
        Punct::Amp
    } else if c == '|' {
        Punct::Pipe
    } else {
        return None;
    };
    Some((Some(Tok::P(p)), i + 1))
}

/// The tokens of a RuneScript source; an `Invalid` error when some
/// character cannot be read.
fn lex(source: &str) -> (r: Result<Vec<Tok>, Error>)
    ensures
        r is Ok <==> lex_spec(source@) is Some,
        r matches Ok(t) ==> lex_spec(source@) == Some(toks_view(t@)),
        r matches Err(e) ==> e.kind == ErrorKind::Invalid,
{
    let s = chars_of(source);
    let mut out: Vec<Tok> = Vec::new();
    let mut i: usize = 0;
    while i < s.len()
        invariant
            i <= s@.len(),
            s@ == source@,
            lex_spec(s@) == prepend_toks(toks_view(out@), lex_from(s@, i as int)),
        decreases s@.len() - i,
    {
        proof {
            lemma_lex_step_advances(s@, i as int);
        }
        match lex_step_of(&s, i) {
            None => {
                return Err(Error::new(ErrorKind::Invalid, "unexpected character in RuneScript source"));
            },
            Some((t, e)) => {
                let ghost before = out@;
                match t {
                    Some(k) => {
                        out.push(k);
                        proof {
                            assert(toks_view(out@) =~= toks_view(before).push(k@));
                            assert forall|r: Seq<TokV>| toks_view(before) + (seq![k@] + r) =~= toks_view(out@) + r by {}
                        }
                    },
                    None => {},
                }
                i = e;
            },
        }
    }
    proof {
        assert(toks_view(out@) + Seq::<TokV>::empty() =~= toks_view(out@));
    }
    Ok(out)
}

// ---------------------------------------------------------------------------
// The parser
// ---------------------------------------------------------------------------

/// The local-variable stack a RuneScript type names.
#[derive(Clone, Copy, Debug, PartialEq, Eq, Structural)]
pub enum LocalStack {
    Int,
    Obj,
    Long,
}

/// The decoder-name token of a stack (`local_<token>_<n>`).
pub open spec fn stack_token(d: LocalStack) -> Seq<char> {
    match d {
        LocalStack::Int => "int"@,
        LocalStack::Obj => "obj"@,
        LocalStack::Long => "long"@,
    }
}

/// The decoder name of argument `i` of a stack.
pub open spec fn arg_name(d: LocalStack, i: nat) -> Seq<char> {
    "arg_"@ + stack_token(d) + "_"@ + dec_nat(i)
}

fn stack_token_of(d: LocalStack) -> (r: &'static str)
    ensures
        r@ == stack_token(d),
{
    match d {
        LocalStack::Int => "int",
        LocalStack::Obj => "obj",
        LocalStack::Long => "long",
    }
}

/// The stack of a type keyword: `long` values on the long stack, `string`
/// and `coordfine` values on the object stack, all others on the int stack.
pub open spec fn type_stack(keyword: Seq<char>) -> LocalStack {
    if keyword == "long"@ {
        LocalStack::Long
    } else if keyword == "string"@ || keyword == "coordfine"@ {
        LocalStack::Obj
    } else {
        LocalStack::Int
    }
}

/// The stack of a type keyword.
fn stack_of_type(keyword: &[char]) -> (r: LocalStack)
    ensures
        r == type_stack(keyword@),
{
    if crate::text::chars_eq(keyword, "long") {
        LocalStack::Long
    } else if crate::text::chars_eq(keyword, "string") || crate::text::chars_eq(keyword, "coordfine") {
        LocalStack::Obj
    } else {
        LocalStack::Int
    }
}

/// What the parser gathers besides the statements.
struct ParseState {
    arg_int: usize,
    arg_obj: usize,
    arg_long: usize,
    locals: Vec<LocalVariable>,
    arrays: Vec<u32>,
    gosub_names: Vec<String>,
}

/// The locals have distinct names.
spec fn state_wf(st: ParseState) -> bool {
    forall|i: int, j: int| 0 <= i < j < st.locals@.len() ==> st.locals@[i].name@ != st.locals@[j].name@
}

fn fail(message: &str) -> (e: Error)
    ensures
        e.kind == ErrorKind::Invalid,
{
    Error::new(ErrorKind::Invalid, message)
}

fn punct_at(toks: &Vec<Tok>, pos: usize, p: Punct) -> (r: bool)
    ensures
        r == (pos < toks@.len() && toks@[pos as int]@ == TokV::P(p)),
{
    if pos < toks.len() {
        match &toks[pos] {
            Tok::P(q) => *q == p,
            _ => false,
        }
    } else {
        false
    }
}

fn ident_is(toks: &Vec<Tok>, pos: usize, name: &str) -> (r: bool)
    ensures
        r == (pos < toks@.len() && toks@[pos as int]@ == TokV::Ident(name@)),
{
    if pos < toks.len() {
        match &toks[pos] {
            Tok::Ident(n) => str_eq(n.as_str(), name),
            _ => false,
        }
    } else {
        false
    }
}

fn expect(toks: &Vec<Tok>, pos: usize, p: Punct) -> (r: Result<usize, Error>)
    ensures
        r matches Ok(q) ==> q == pos + 1 && pos < toks@.len(),
{
    if punct_at(toks, pos, p) {
        assert(pos < toks.len());
        Ok(pos + 1)
    } else {
        Err(fail("unexpected token in RuneScript source"))
    }
}

fn expect_ident(toks: &Vec<Tok>, pos: usize) -> (r: Result<(String, usize), Error>)
    ensures
        r is Ok <==> (pos < toks@.len() && toks@[pos as int] is Ident),
        r matches Ok((n, q)) ==> q == pos + 1 && pos < toks@.len() && toks@[pos as int]@ == TokV::Ident(n@),
{
    if pos < toks.len() {
        match &toks[pos] {
            Tok::Ident(n) => return Ok((n.clone(), pos + 1)),
            _ => {},
        }
    }
    Err(fail("expected an identifier"))
}

fn expect_string(toks: &Vec<Tok>, pos: usize) -> (r: Result<(String, usize), Error>)
    ensures
        r is Ok <==> (pos < toks@.len() && toks@[pos as int] is Str),
        r matches Ok((v, q)) ==> q == pos + 1 && pos < toks@.len() && toks@[pos as int]@ == TokV::Str(v@),
{
    if pos < toks.len() {
        match &toks[pos] {
            Tok::Str(v) => return Ok((v.clone(), pos + 1)),
            _ => {},
        }
    }
    Err(fail("expected a string literal"))
}

/// The binary operator a token stands for: `=`, `!`, `<`, `<=`, `>`,
/// `>=`, `|`, `&`, `+`, `-`, `*`, `/`, `%`.
pub open spec fn punct_binary_op(t: TokV) -> Option<BinaryOp> {
    match t {
        TokV::P(p) => match p {
            Punct::Eq => Some(BinaryOp::Eq),
            Punct::Bang => Some(BinaryOp::Ne),
            Punct::Lt => Some(BinaryOp::Lt),
            Punct::Le => Some(BinaryOp::Le),
            Punct::Gt => Some(BinaryOp::Gt),
            Punct::Ge => Some(BinaryOp::Ge),
            Punct::Pipe => Some(BinaryOp::Or),
            Punct::Amp => Some(BinaryOp::And),
            Punct::Plus => Some(BinaryOp::Add),
            Punct::Minus => Some(BinaryOp::Sub),
            Punct::Star => Some(BinaryOp::Mul),
            Punct::Slash => Some(BinaryOp::Div),
            Punct::Percent => Some(BinaryOp::Mod),
            _ => None,
        },
        _ => None,
    }
}

/// The binary operator a token stands for.
fn binary_op_at(toks: &Vec<Tok>, pos: usize) -> (r: Option<BinaryOp>)
    ensures
        r is Some ==> pos < toks@.len(),
        r == (if pos < toks@.len() {
            punct_binary_op(toks@[pos as int]@)
        } else {
            None
        }),
{
    if pos >= toks.len() {
        return None;
    }
    match &toks[pos] {
        Tok::P(p) => match p {
            Punct::Eq => Some(BinaryOp::Eq),
            Punct::Bang => Some(BinaryOp::Ne),
            Punct::Lt => Some(BinaryOp::Lt),
            Punct::Le => Some(BinaryOp::Le),
            Punct::Gt => Some(BinaryOp::Gt),
            Punct::Ge => Some(BinaryOp::Ge),
            Punct::Pipe => Some(BinaryOp::Or),
            Punct::Amp => Some(BinaryOp::And),
            Punct::Plus => Some(BinaryOp::Add),
            Punct::Minus => Some(BinaryOp::Sub),
            Punct::Star => Some(BinaryOp::Mul),
            Punct::Slash => Some(BinaryOp::Div),
            Punct::Percent => Some(BinaryOp::Mod),
            _ => None,
        },
        _ => None,
    }
}

/// How tightly a binary operator binds.
fn op_prec(op: BinaryOp) -> (r: i32)
    ensures
        r == crate::transpile::ast::binding_power(op),
{
    match op {
        BinaryOp::Eq | BinaryOp::Ne | BinaryOp::Lt | BinaryOp::Le | BinaryOp::Gt | BinaryOp::Ge => 40,
        BinaryOp::Or => 50,
        BinaryOp::And => 60,
        BinaryOp::Add | BinaryOp::Sub => 70,
        BinaryOp::Mul | BinaryOp::Div | BinaryOp::Mod => 80,
    }
}

fn ident_expr(name: String) -> (r: Expression)
    ensures
        r == Expression::Identifier(Identifier { name }),
{
    Expression::Identifier(Identifier { name })
}

fn ui_property(method: String) -> (r: Expression)
    ensures
        ui_prop(r, method@),
{
    Expression::PropertyAccess(
        PropertyAccess { object: Box::new(ident_expr(string_from("UI"))), property: method },
    )
}

/// `r` is `UI.<method>`.
spec fn ui_prop(r: Expression, method: Seq<char>) -> bool {
    r matches Expression::PropertyAccess(p) && (*p.object matches Expression::Identifier(o) && o.name@ == "UI"@)
        && p.property@ == method
}

/// `s` with its first character in ASCII lower case.
spec fn lower_first_of(s: Seq<char>) -> Seq<char> {
    if s.len() == 0 {
        s
    } else {
        seq![crate::text::lower_ascii(s[0])] + s.skip(1)
    }
}

/// The `cc_` commands whose method keeps its capital first letter.
spec fn capital_cc(suffix: Seq<char>) -> bool {
    let base = if "_with_mode"@.len() <= suffix.len() && suffix.skip(suffix.len() - "_with_mode"@.len())
        == "_with_mode"@ {
        suffix.take(suffix.len() - "_with_mode"@.len())
    } else {
        suffix
    };
    "seton"@.is_prefix_of(suffix) || base == "find_parent"@ || base == "setobject_nonum"@ || base
        == "setobject_alwaysnum"@ || base == "button_setcantoggle"@ || base == "button_settoggled"@
}

/// `r` is the callee `name` stands for; `canonical` says whether `name` is
/// a canonical command.
spec fn callee_ok(name: Seq<char>, canonical: bool, r: Expression) -> bool {
    if name == "cc_setparam"@ {
        ui_prop(r, "setParam"@)
    } else if name == "cc_setparam_int"@ {
        ui_prop(r, "setParamInt"@)
    } else if name == "cc_setparam_string"@ {
        ui_prop(r, "setParamString"@)
    } else if name == "if_find"@ {
        ui_prop(r, "findInterface"@)
    } else if name == "cc_getcharposatindex"@ || name == "if_getcharposatindex"@ {
        r matches Expression::Identifier(i) && i.name@ == crate::transpile::names::sanitize_ident_spec(
            crate::text::without_underscores(name),
        )
    } else if "cc_"@.is_prefix_of(name) {
        let suffix = name.skip(3);
        let camel = crate::transpile::exprs::camel_from(suffix, true);
        if capital_cc(suffix) {
            ui_prop(r, camel)
        } else {
            ui_prop(r, lower_first_of(camel))
        }
    } else if "if_"@.is_prefix_of(name) {
        ui_prop(r, crate::transpile::exprs::camel_from(name.skip(3), true))
    } else if canonical {
        r matches Expression::Identifier(i) && i.name@ == crate::transpile::names::sanitize_ident_spec(
            crate::text::without_underscores(name),
        )
    } else {
        r matches Expression::Identifier(i) && i.name@ == name
    }
}

/// `s` with its first character in ASCII lower case.
fn lower_first(s: &str) -> (r: String)
    ensures
        r@ == lower_first_of(s@),
{
    let cs = chars_of(s);
    let mut out = String::new();
    let mut i: usize = 0;
    while i < cs.len()
        invariant
            i <= cs@.len(),
            cs@ == s@,
            i == 0 ==> out@.len() == 0,
            i > 0 ==> out@ == seq![crate::text::lower_ascii(s@[0])] + s@.subrange(1, i as int),
        decreases cs@.len() - i,
    {
        let c = cs[i];
        if i == 0 && 'A' <= c && c <= 'Z' {
            assert((c as u8) as int == c as int);
            crate::text::string_push(&mut out, ((c as u8) + 32) as char);
        } else {
            crate::text::string_push(&mut out, c);
        }
        proof {
            assert(out@ =~= seq![crate::text::lower_ascii(s@[0])] + s@.subrange(1, i + 1));
        }
        i = i + 1;
    }
    proof {
        if s@.len() > 0 {
            assert(s@.subrange(1, s@.len() as int) =~= s@.skip(1));
        }
    }
    out
}

/// The callee a command name stands for in the structured form: `cc_` and
/// `if_` commands become `UI.<method>` (lower-case first for `cc_`,
/// capital first for `if_`, hooks and a few multi-word commands), a
/// canonical command its identifier without underscores, and anything
/// else itself.
fn command_callee(ctx: &RuneScriptContext, name: &str) -> (r: Expression)
    ensures
        callee_ok(
            name@,
            crate::transpile::runescript::first_binding(ctx.commands_table(), crate::text::without_underscores(name@))
                == Some(name@),
            r,
        ),
{
    proof {
        reveal_strlit("cc_");
        reveal_strlit("if_");
        reveal_strlit("_with_mode");
        reveal_strlit("cc_setparam");
        reveal_strlit("cc_setparam_int");
        reveal_strlit("cc_setparam_string");
        reveal_strlit("if_find");
        reveal_strlit("cc_getcharposatindex");
        reveal_strlit("if_getcharposatindex");
    }
    if str_eq(name, "cc_setparam") {
        return ui_property(string_from("setParam"));
    }
    if str_eq(name, "cc_setparam_int") {
        return ui_property(string_from("setParamInt"));
    }
    if str_eq(name, "cc_setparam_string") {
        return ui_property(string_from("setParamString"));
    }
    if str_eq(name, "if_find") {
        return ui_property(string_from("findInterface"));
    }
    let nc = chars_of(name);
    if str_eq(name, "cc_getcharposatindex") || str_eq(name, "if_getcharposatindex") {
        let bare = string_of(&crate::text::remove_underscores(&nc));
        return ident_expr(crate::transpile::names::sanitize_ts_ident(bare.as_str()));
    }
    if let Some(suffix) = crate::text::strip_prefix(&nc, "cc_") {
        let base = match crate::text::strip_suffix_chars(&suffix, "_with_mode") {
            Some(b) => b,
            None => suffix.clone(),
        };
        let capital_first = crate::text::starts_with(&suffix, "seton") || crate::text::chars_eq(
            &base,
            "find_parent",
        ) || crate::text::chars_eq(&base, "setobject_nonum") || crate::text::chars_eq(
            &base,
            "setobject_alwaysnum",
        ) || crate::text::chars_eq(&base, "button_setcantoggle") || crate::text::chars_eq(
            &base,
            "button_settoggled",
        );
        let camel = crate::transpile::exprs::sanitize_camel(&suffix);
        if capital_first {
            return ui_property(camel);
        }
        return ui_property(lower_first(camel.as_str()));
    }
    if let Some(suffix) = crate::text::strip_prefix(&nc, "if_") {
        return ui_property(crate::transpile::exprs::sanitize_camel(&suffix));
    }
    if ctx.is_canonical_command(name) {
        let bare = string_of(&crate::text::remove_underscores(&nc));
        ident_expr(crate::transpile::names::sanitize_ts_ident(bare.as_str()))
    } else {
        ident_expr(string_from(name))
    }
}

/// The TypeScript form of a RuneScript type keyword: `number` for `int`,
/// `bigint` for `long`, others as they are.
spec fn ts_type_of(ty: Seq<char>) -> Seq<char> {
    if ty == "int"@ {
        "number"@
    } else if ty == "long"@ {
        "bigint"@
    } else {
        ty
    }
}

/// The TypeScript form of a RuneScript type keyword.
fn runescript_type_to_ts(ty: &str) -> (r: String)
    ensures
        r@ == ts_type_of(ty@),
{
    proof {
        reveal_strlit("int");
        reveal_strlit("string");
        reveal_strlit("long");
        reveal_strlit("boolean");
    }
    if str_eq(ty, "int") {
        string_from("number")
    } else if str_eq(ty, "string") {
        string_from("string")
    } else if str_eq(ty, "long") {
        string_from("bigint")
    } else if str_eq(ty, "boolean") {
        string_from("boolean")
    } else {
        string_from(ty)
    }
}

/// The return type of a header's return group: `void` for none, the one
/// type, or a bracketed list.
fn build_return_type(rets: &Vec<(String, Option<String>)>) -> (r: String)
    ensures
        r@ == (if rets@.len() == 0 {
            "void"@
        } else if rets@.len() == 1 {
            ts_type_of(rets@[0].0@)
        } else {
            "["@ + crate::text::join_sep(rets@.map_values(|p: (String, Option<String>)| ts_type_of(p.0@)), ", "@)
                + "]"@
        }),
{
    if rets.len() == 0 {
        return string_from("void");
    }
    if rets.len() == 1 {
        return runescript_type_to_ts(rets[0].0.as_str());
    }
    let mut out = string_from("[");
    let ghost ws = rets@.map_values(|p: (String, Option<String>)| ts_type_of(p.0@));
    let mut i: usize = 0;
    while i < rets.len()
        invariant
            i <= rets@.len(),
            ws == rets@.map_values(|p: (String, Option<String>)| ts_type_of(p.0@)),
            out@ == "["@ + crate::text::join_sep(ws.take(i as int), ", "@),
        decreases rets@.len() - i,
    {
        proof {
            assert(ws.take(i + 1).drop_last() =~= ws.take(i as int));
            assert(ws.take(i + 1).last() == ts_type_of(rets@[i as int].0@));
        }
        if i > 0 {
            push_str(&mut out, ", ");
        }
        let t = runescript_type_to_ts(rets[i].0.as_str());
        push_str(&mut out, t.as_str());
        proof {
            if i == 0 {
                assert(ws.take(1) =~= seq![ws[0]]);
            }
            assert(out@ =~= "["@ + crate::text::join_sep(ws.take(i + 1), ", "@));
        }
        i = i + 1;
    }
    proof {
        assert(ws.take(i as int) =~= ws);
    }
    push_str(&mut out, "]");
    out
}

/// An expression as an assignment target.
fn expr_to_target(expr: Expression) -> (r: Result<AssignmentTarget, Error>)
    ensures
        match expr {
            Expression::Identifier(id) => r == Ok::<AssignmentTarget, Error>(AssignmentTarget::Identifier(id.name)),
            Expression::ArrayAccess(a) => match *a.array {
                Expression::Identifier(arr) => r == Ok::<AssignmentTarget, Error>(
                    AssignmentTarget::ArrayAccess { array: arr.name, index: *a.index },
                ),
                _ => r is Err,
            },
            _ => r is Err,
        },
{
    match expr {
        Expression::Identifier(id) => Ok(AssignmentTarget::Identifier(id.name)),
        Expression::ArrayAccess(access) => {
            let ArrayAccess { array, index } = access;
            match *array {
                Expression::Identifier(arr) => Ok(AssignmentTarget::ArrayAccess { array: arr.name, index: *index }),
                _ => Err(fail("array assignment target is not a plain array")),
            }
        },
        _ => Err(fail("invalid assignment target")),
    }
}

/// The index of the first digit of `s`, or its length.
spec fn first_digit(s: Seq<char>) -> int
    decreases s.len(),
{
    if s.len() == 0 {
        0
    } else if '0' <= s[0] <= '9' {
        0
    } else {
        1 + first_digit(s.drop_first())
    }
}

proof fn lemma_first_digit(s: Seq<char>, i: int)
    requires
        0 <= i <= s.len(),
        forall|j: int| 0 <= j < i ==> !('0' <= #[trigger] s[j] <= '9'),
        i < s.len() ==> '0' <= s[i] <= '9',
    ensures
        first_digit(s) == i,
    decreases s.len(),
{
    if s.len() > 0 && i > 0 {
        assert forall|j: int| 0 <= j < i - 1 implies !('0' <= #[trigger] s.drop_first()[j] <= '9') by {
            assert(s.drop_first()[j] == s[j + 1]);
        }
        lemma_first_digit(s.drop_first(), i - 1);
    }
}

/// The decoder name of `$<type><index>` given the header's argument
/// counts per stack (int, object, long): `arg_<stack>_<index>` when the
/// index is below that stack's count, else `local_<stack>_<index - count>`;
/// nothing when the name has no `$`, no index, or the index is not a number.
spec fn decoder_name_of(args: (usize, usize, usize), rs: Seq<char>) -> Option<Seq<char>> {
    if !"$"@.is_prefix_of(rs) {
        None
    } else {
        let body = rs.skip(1);
        let split = first_digit(body);
        if split >= body.len() {
            None
        } else {
            match crate::text::parse_in_range(body.skip(split), false, 0, usize::MAX as int) {
                Some(index) => {
                    let d = type_stack(body.take(split));
                    let count: int = match d {
                        LocalStack::Int => args.0 as int,
                        LocalStack::Obj => args.1 as int,
                        LocalStack::Long => args.2 as int,
                    };
                    if index < count {
                        Some("arg_"@ + stack_token(d) + "_"@ + crate::text::dec_nat(index as nat))
                    } else {
                        Some("local_"@ + stack_token(d) + "_"@ + crate::text::dec_nat((index - count) as nat))
                    }
                },
                None => None,
            }
        }
    }
}

/// The decoder name of a `$<type><index>` local: an argument when the index
/// is below the header's argument count for that stack, else the local
/// counted after the arguments.
fn local_decoder_name(st: &ParseState, rs_name: &str) -> (r: Result<String, Error>)
    ensures
        match decoder_name_of((st.arg_int, st.arg_obj, st.arg_long), rs_name@) {
            Some(n) => r matches Ok(o) && o@ == n,
            None => r is Err,
        },
{
    proof {
        reveal_strlit("$");
    }
    let nc = chars_of(rs_name);
    let body = match crate::text::strip_prefix(&nc, "$") {
        Some(b) => b,
        None => return Err(fail("local is not $-prefixed")),
    };
    let mut split: usize = 0;
    while split < body.len() && !('0' <= body[split] && body[split] <= '9')
        invariant
            split <= body@.len(),
            forall|j: int| 0 <= j < split ==> !('0' <= #[trigger] body@[j] <= '9'),
        decreases body@.len() - split,
    {
        split = split + 1;
    }
    proof {
        lemma_first_digit(body@, split as int);
    }
    if split >= body.len() {
        return Err(fail("local has no index"));
    }
    let type_str = crate::text::slice_vec(&body, 0, split);
    let index = match crate::text::parse_usize(&crate::text::slice_vec(&body, split, body.len())) {
        Some(v) => v,
        None => return Err(fail("local index is not a number")),
    };
    let d = stack_of_type(&type_str);
    let arg_count = match d {
        LocalStack::Int => st.arg_int,
        LocalStack::Obj => st.arg_obj,
        LocalStack::Long => st.arg_long,
    };
    let mut out = if index < arg_count {
        string_from("arg_")
    } else {
        string_from("local_")
    };
    push_str(&mut out, stack_token_of(d));
    push_str(&mut out, "_");
    if index < arg_count {
        push_u64(&mut out, index as u64);
    } else {
        push_u64(&mut out, (index - arg_count) as u64);
    }
    Ok(out)
}

/// The position after the last `_` of `s`, or 0.
spec fn after_last_underscore(s: Seq<char>) -> int
    decreases s.len(),
{
    if s.len() == 0 {
        0
    } else if s.last() == '_' {
        s.len() as int
    } else {
        after_last_underscore(s.drop_last())
    }
}

proof fn lemma_after_last_underscore(s: Seq<char>, i: int)
    requires
        0 <= i <= s.len(),
        forall|j: int| i <= j < s.len() ==> #[trigger] s[j] != '_',
        i > 0 ==> s[i - 1] == '_',
    ensures
        after_last_underscore(s) == i,
    decreases s.len(),
{
    if s.len() > 0 && i < s.len() {
        assert forall|j: int| i <= j < s.drop_last().len() implies #[trigger] s.drop_last()[j] != '_' by {
            assert(s.drop_last()[j] == s[j]);
        }
        lemma_after_last_underscore(s.drop_last(), i);
    }
}

/// The index of a decoder name: the number after its last `_`, or 0.
spec fn decoder_index(d: Seq<char>) -> usize {
    match crate::text::parse_in_range(d.skip(after_last_underscore(d)), false, 0, usize::MAX as int) {
        Some(v) => v as usize,
        None => 0,
    }
}

/// Adds a local the first time its decoder name is declared; its index is
/// the number after the last `_`, or 0.
fn register_local(st: &mut ParseState, decoder: &str, ty: &str)
    requires
        state_wf(*old(st)),
    ensures
        state_wf(*final(st)),
        (exists|j: int| 0 <= j < old(st).locals@.len() && #[trigger] old(st).locals@[j].name@ == decoder@)
            ==> *final(st) == *old(st),
        !(exists|j: int| 0 <= j < old(st).locals@.len() && #[trigger] old(st).locals@[j].name@ == decoder@) ==> ({
            &&& final(st).locals@.len() == old(st).locals@.len() + 1
            &&& final(st).locals@.drop_last() == old(st).locals@
            &&& final(st).locals@.last().name@ == decoder@
            &&& final(st).locals@.last().index == decoder_index(decoder@)
            &&& final(st).locals@.last().type_annotation == (if crate::text::trim(ty@) == "number"@ {
                TypeAnnotation::Number
            } else if crate::text::trim(ty@) == "bigint"@ {
                TypeAnnotation::BigInt
            } else if crate::text::trim(ty@) == "string"@ {
                TypeAnnotation::String
            } else if crate::text::trim(ty@) == "boolean"@ {
                TypeAnnotation::Boolean
            } else {
                TypeAnnotation::Unknown
            })
            &&& final(st).arg_int == old(st).arg_int
            &&& final(st).arg_obj == old(st).arg_obj
            &&& final(st).arg_long == old(st).arg_long
            &&& final(st).arrays == old(st).arrays
            &&& final(st).gosub_names == old(st).gosub_names
        }),
{
    let mut k: usize = 0;
    while k < st.locals.len()
        invariant
            k <= st.locals@.len(),
            *st == *old(st),
            state_wf(*old(st)),
            forall|j: int| 0 <= j < k ==> st.locals@[j].name@ != decoder@,
        decreases st.locals@.len() - k,
    {
        if str_eq(st.locals[k].name.as_str(), decoder) {
            return;
        }
        k = k + 1;
    }
    let dc = chars_of(decoder);
    let mut last: usize = dc.len();
    while last > 0 && dc[last - 1] != '_'
        invariant
            last <= dc@.len(),
            forall|j: int| last <= j < dc@.len() ==> #[trigger] dc@[j] != '_',
        decreases last,
    {
        last = last - 1;
    }
    proof {
        lemma_after_last_underscore(dc@, last as int);
    }
    let index = match crate::text::parse_usize(&crate::text::slice_vec(&dc, last, dc.len())) {
        Some(v) => v,
        None => 0,
    };
    let local = LocalVariable { index, name: string_from(decoder), type_annotation: parse_type_annotation(ty) };
    st.locals.push(local);
}

fn parse_usize(toks: &Vec<Tok>, pos: usize) -> (r: Result<(usize, usize), Error>)
    ensures
        r is Ok <==> (pos < toks@.len() && (toks@[pos as int] matches Tok::Num(v) && v >= 0)),
        r matches Ok((n, _)) ==> (toks@[pos as int] matches Tok::Num(v) && n == v as usize),
        r matches Ok((_, q)) ==> q == pos + 1 && pos < toks@.len(),
{
    if pos < toks.len() {
        match &toks[pos] {
            Tok::Num(v) => if *v >= 0 {
                return Ok((*v as usize, pos + 1));
            },
            _ => {},
        }
    }
    Err(fail("expected a non-negative integer"))
}

/// The value of a number token, negated after a `-`, where it fits an
/// `i32`; `i32::MAX` where it does not (the negation of `i64::MIN` stays
/// `i64::MIN`).
pub open spec fn signed_token_value(v: i64, neg: bool) -> i32 {
    let w: int = if neg {
        if v == i64::MIN {
            i64::MIN as int
        } else {
            -v
        }
    } else {
        v as int
    };
    if i32::MIN <= w <= i32::MAX {
        w as i32
    } else {
        i32::MAX
    }
}

fn parse_signed_int(toks: &Vec<Tok>, pos: usize) -> (r: Result<(i32, usize), Error>)
    requires
        pos <= toks@.len(),
        toks@.len() <= usize::MAX,
    ensures
        ({
            let neg = pos < toks@.len() && toks@[pos as int]@ == TokV::P(Punct::Minus);
            let p = if neg {
                pos + 1
            } else {
                pos as int
            };
            &&& r is Ok <==> (p < toks@.len() && toks@[p] is Num)
            &&& r matches Ok((value, q)) ==> q == p + 1 && (toks@[p] matches Tok::Num(v) && value
                == signed_token_value(v, neg))
        }),
        r matches Ok((_, q)) ==> pos < q <= toks@.len(),
{
    let negative = punct_at(toks, pos, Punct::Minus);
    let p = if negative {
        pos + 1
    } else {
        pos
    };
    if p < toks.len() {
        match &toks[p] {
            Tok::Num(v) => {
                let w: i64 = if negative {
                    if *v == i64::MIN {
                        i64::MIN
                    } else {
                        -*v
                    }
                } else {
                    *v
                };
                let value: i32 = if i32::MIN as i64 <= w && w <= i32::MAX as i64 {
                    w as i32
                } else {
                    i32::MAX
                };
                return Ok((value, p + 1));
            },
            _ => {},
        }
    }
    Err(fail("expected an integer"))
}

fn parse_stmts_until_eof(
    ctx: &RuneScriptContext,
    toks: &Vec<Tok>,
    pos: usize,
    st: &mut ParseState,
) -> (r: Result<(Vec<StructuredStmt>, usize), Error>)
    requires
        pos <= toks@.len(),
        toks@.len() <= usize::MAX,
        state_wf(*old(st)),
    ensures
        state_wf(*final(st)),
        r matches Ok((_, q)) ==> pos <= q <= toks@.len(),
    decreases toks@.len() - pos, 12nat,
{
    let mut stmts: Vec<StructuredStmt> = Vec::new();
    let mut cur = pos;
    while cur < toks.len()
        invariant
            pos <= cur <= toks@.len(),
            toks@.len() <= usize::MAX,
            state_wf(*st),
        decreases toks@.len() - cur,
    {
        let (stmt, next) = parse_stmt(ctx, toks, cur, st)?;
        if let Some(x) = stmt {
            stmts.push(x);
        }
        cur = next;
    }
    Ok((stmts, cur))
}

fn parse_block(ctx: &RuneScriptContext, toks: &Vec<Tok>, pos: usize, st: &mut ParseState) -> (r: Result<
    (Vec<StructuredStmt>, usize),
    Error,
>)
    requires
        pos <= toks@.len(),
        toks@.len() <= usize::MAX,
        state_wf(*old(st)),
    ensures
        state_wf(*final(st)),
        r matches Ok((_, q)) ==> pos < q <= toks@.len(),
    decreases toks@.len() - pos, 11nat,
{
    let mut cur = expect(toks, pos, Punct::LBrace)?;
    let mut stmts: Vec<StructuredStmt> = Vec::new();
    while !punct_at(toks, cur, Punct::RBrace)
        invariant
            pos < cur <= toks@.len(),
            toks@.len() <= usize::MAX,
            state_wf(*st),
        decreases toks@.len() - cur,
    {
        if cur >= toks.len() {
            return Err(fail("unterminated block"));
        }
        let (stmt, next) = parse_stmt(ctx, toks, cur, st)?;
        if let Some(x) = stmt {
            stmts.push(x);
        }
        cur = next;
    }
    let end = expect(toks, cur, Punct::RBrace)?;
    Ok((stmts, end))
}

/// A switch case body: statements up to the next `case` or the closing
/// brace.
fn parse_case_body(ctx: &RuneScriptContext, toks: &Vec<Tok>, pos: usize, st: &mut ParseState) -> (r: Result<
    (Vec<StructuredStmt>, usize),
    Error,
>)
    requires
        pos <= toks@.len(),
        toks@.len() <= usize::MAX,
        state_wf(*old(st)),
    ensures
        state_wf(*final(st)),
        r matches Ok((_, q)) ==> pos <= q <= toks@.len(),
    decreases toks@.len() - pos, 11nat,
{
    let mut stmts: Vec<StructuredStmt> = Vec::new();
    let mut cur = pos;
    while !punct_at(toks, cur, Punct::RBrace) && !ident_is(toks, cur, "case")
        invariant
            pos <= cur <= toks@.len(),
            toks@.len() <= usize::MAX,
            state_wf(*st),
        decreases toks@.len() - cur,
    {
        if cur >= toks.len() {
            return Err(fail("unterminated switch case"));
        }
        let (stmt, next) = parse_stmt(ctx, toks, cur, st)?;
        if let Some(x) = stmt {
            stmts.push(x);
        }
        cur = next;
    }
    Ok((stmts, cur))
}

/// One statement; `None` for a bare local declaration.
fn parse_stmt(ctx: &RuneScriptContext, toks: &Vec<Tok>, pos: usize, st: &mut ParseState) -> (r: Result<
    (Option<StructuredStmt>, usize),
    Error,
>)
    requires
        pos <= toks@.len(),
        toks@.len() <= usize::MAX,
        state_wf(*old(st)),
    ensures
        state_wf(*final(st)),
        r matches Ok((_, q)) ==> pos < q <= toks@.len(),
    decreases toks@.len() - pos, 10nat,
{
    if ident_is(toks, pos, "if") {
        let (x, q) = parse_if(ctx, toks, pos, st)?;
        return Ok((Some(x), q));
    }
    if ident_is(toks, pos, "while") {
        let (x, q) = parse_while(ctx, toks, pos, st)?;
        return Ok((Some(x), q));
    }
    if ident_is(toks, pos, "switch_int") {
        let (x, q) = parse_switch(ctx, toks, pos, st)?;
        return Ok((Some(x), q));
    }
    if ident_is(toks, pos, "goto") || ident_is(toks, pos, "label") {
        let is_goto = ident_is(toks, pos, "goto");
        let q = expect(toks, pos + 1, Punct::LParen)?;
        let (target, q) = parse_usize(toks, q)?;
        let q = expect(toks, q, Punct::RParen)?;
        let q = expect(toks, q, Punct::Semi)?;
        if is_goto {
            return Ok((Some(StructuredStmt::Goto { target }), q));
        }
        return Ok((Some(StructuredStmt::Label { target }), q));
    }
    if ident_is(toks, pos, "return") {
        let mut q = pos + 1;
        let value = if punct_at(toks, q, Punct::LParen) {
            let (e, q2) = parse_expr(ctx, toks, q + 1, st, 0)?;
            q = expect(toks, q2, Punct::RParen)?;
            Some(e)
        } else {
            None
        };
        let q = expect(toks, q, Punct::Semi)?;
        return Ok((Some(StructuredStmt::Return { value }), q));
    }
    if ident_is(toks, pos, "break") || ident_is(toks, pos, "continue") {
        let is_break = ident_is(toks, pos, "break");
        let q = expect(toks, pos + 1, Punct::Semi)?;
        if is_break {
            return Ok((Some(StructuredStmt::Break), q));
        }
        return Ok((Some(StructuredStmt::Continue), q));
    }
    if ident_is(toks, pos, "stackpush_then") {
        let (call, q) = parse_primary(ctx, toks, pos, st)?;
        let q = expect(toks, q, Punct::Semi)?;
        if let Expression::Call(c) = &call {
            let n = c.arguments.len();
            if n > 0 {
                if let Expression::GotoExpr(g) = &c.arguments[n - 1] {
                    let target = g.target;
                    let mut values: Vec<Expression> = Vec::new();
                    let mut k: usize = 0;
                    while k < n - 1
                        invariant
                            k <= n - 1,
                            n == c.arguments@.len(),
                        decreases n - 1 - k,
                    {
                        values.push(c.arguments[k].clone());
                        k = k + 1;
                    }
                    return Ok((Some(StructuredStmt::StackGoto { target, values }), q));
                }
            }
        }
        return Ok((Some(StructuredStmt::Expr { expr: call }), q));
    }
    if pos < toks.len() {
        if let Tok::Ident(kw) = &toks[pos] {
            let kc = chars_of(kw.as_str());
            if crate::text::starts_with(&kc, "def_") {
                return parse_def(ctx, toks, pos, st);
            }
        }
    }
    let (lhs, q) = parse_primary(ctx, toks, pos, st)?;
    if punct_at(toks, q, Punct::Eq) {
        let (value, q2) = parse_expr(ctx, toks, q + 1, st, 0)?;
        let q3 = expect(toks, q2, Punct::Semi)?;
        let target = expr_to_target(lhs)?;
        return Ok((Some(StructuredStmt::Assignment { target, value }), q3));
    }
    let q2 = expect(toks, q, Punct::Semi)?;
    Ok((Some(StructuredStmt::Expr { expr: lhs }), q2))
}

fn parse_if(ctx: &RuneScriptContext, toks: &Vec<Tok>, pos: usize, st: &mut ParseState) -> (r: Result<
    (StructuredStmt, usize),
    Error,
>)
    requires
        pos < toks@.len(),
        toks@.len() <= usize::MAX,
        state_wf(*old(st)),
    ensures
        state_wf(*final(st)),
        r matches Ok((_, q)) ==> pos < q <= toks@.len(),
    decreases toks@.len() - pos, 9nat,
{
    let q = expect(toks, pos + 1, Punct::LParen)?;
    let (condition, q) = parse_expr(ctx, toks, q, st, 0)?;
    let q = expect(toks, q, Punct::RParen)?;
    let (then_body, q) = parse_block(ctx, toks, q, st)?;
    if ident_is(toks, q, "else") {
        let (e, q2) = parse_block(ctx, toks, q + 1, st)?;
        return Ok((StructuredStmt::If { condition, then_body, else_body: Some(e) }, q2));
    }
    Ok((StructuredStmt::If { condition, then_body, else_body: None }, q))
}

fn parse_while(ctx: &RuneScriptContext, toks: &Vec<Tok>, pos: usize, st: &mut ParseState) -> (r: Result<
    (StructuredStmt, usize),
    Error,
>)
    requires
        pos < toks@.len(),
        toks@.len() <= usize::MAX,
        state_wf(*old(st)),
    ensures
        state_wf(*final(st)),
        r matches Ok((_, q)) ==> pos < q <= toks@.len(),
    decreases toks@.len() - pos, 9nat,
{
    let q = expect(toks, pos + 1, Punct::LParen)?;
    let (_condition, q) = parse_expr(ctx, toks, q, st, 0)?;
    let q = expect(toks, q, Punct::RParen)?;
    let (body, q) = parse_block(ctx, toks, q, st)?;
    Ok((StructuredStmt::While { body }, q))
}

fn parse_switch(ctx: &RuneScriptContext, toks: &Vec<Tok>, pos: usize, st: &mut ParseState) -> (r: Result<
    (StructuredStmt, usize),
    Error,
>)
    requires
        pos < toks@.len(),
        toks@.len() <= usize::MAX,
        state_wf(*old(st)),
    ensures
        state_wf(*final(st)),
        r matches Ok((_, q)) ==> pos < q <= toks@.len(),
    decreases toks@.len() - pos, 9nat,
{
    let q = expect(toks, pos + 1, Punct::LParen)?;
    let (expr, q) = parse_expr(ctx, toks, q, st, 0)?;
    let q = expect(toks, q, Punct::RParen)?;
    let mut cur = expect(toks, q, Punct::LBrace)?;
    let mut cases: Vec<SwitchCaseStmt> = Vec::new();
    let mut default_body: Option<Vec<StructuredStmt>> = None;
    while !punct_at(toks, cur, Punct::RBrace)
        invariant
            pos < cur <= toks@.len(),
            toks@.len() <= usize::MAX,
            state_wf(*st),
        decreases toks@.len() - cur,
    {
        if !ident_is(toks, cur, "case") {
            return Err(fail("expected `case` in switch"));
        }
        if ident_is(toks, cur + 1, "default") {
            let q = expect(toks, cur + 2, Punct::Colon)?;
            let (body, q2) = parse_case_body(ctx, toks, q, st)?;
            default_body = Some(body);
            cur = q2;
        } else {
            let (value, q) = parse_signed_int(toks, cur + 1)?;
            let q = expect(toks, q, Punct::Colon)?;
            let (body, q2) = parse_case_body(ctx, toks, q, st)?;
            let fallthrough = body.len() == 0;
            cases.push(SwitchCaseStmt { value, body, fallthrough, break_after: false });
            cur = q2;
        }
    }
    let end = expect(toks, cur, Punct::RBrace)?;
    Ok((StructuredStmt::Switch { expr, cases, default_body }, end))
}

/// `def_<type> $name;`, `def_<type> $name = value;`, or an array
/// definition `def_<type> $arr<index>[_<type bits>](size);`.
fn parse_def(ctx: &RuneScriptContext, toks: &Vec<Tok>, pos: usize, st: &mut ParseState) -> (r: Result<
    (Option<StructuredStmt>, usize),
    Error,
>)
    requires
        pos <= toks@.len(),
        toks@.len() <= usize::MAX,
        state_wf(*old(st)),
    ensures
        state_wf(*final(st)),
        r matches Ok((_, q)) ==> pos < q <= toks@.len(),
    decreases toks@.len() - pos, 9nat,
{
    let (keyword, q) = expect_ident(toks, pos)?;
    let kc = chars_of(keyword.as_str());
    let ty = match crate::text::strip_prefix(&kc, "def_") {
        Some(t) => string_of(&t),
        None => return Err(fail("bad def keyword")),
    };
    let (name, q) = expect_ident(toks, q)?;
    let nc = chars_of(name.as_str());
    let body = match crate::text::strip_prefix(&nc, "$") {
        Some(b) => b,
        None => return Err(fail("def target is not a local")),
    };
    if let Some(arr) = crate::text::strip_prefix(&body, "arr") {
        let (index, type_low) = match crate::text::split_once(&arr, '_') {
            Some((i, t)) => match (crate::text::parse_u32(&i), crate::text::parse_u32(&t)) {
                (Some(a), Some(b)) => (a, b),
                _ => return Err(fail("bad array index")),
            },
            None => match crate::text::parse_u32(&arr) {
                Some(a) => (a, 0u32),
                None => return Err(fail("bad array index")),
            },
        };
        let raw: u32 = (index << 16u32) | type_low;
        let q = expect(toks, q, Punct::LParen)?;
        let (size, q) = parse_expr(ctx, toks, q, st, 0)?;
        let q = expect(toks, q, Punct::RParen)?;
        let q = expect(toks, q, Punct::Semi)?;
        let mut known = false;
        let mut k: usize = 0;
        while k < st.arrays.len()
            decreases st.arrays@.len() - k,
        {
            if st.arrays[k] == raw {
                known = true;
            }
            k = k + 1;
        }
        if !known {
            st.arrays.push(raw);
        }
        let mut callee = string_from("define_array_");
        push_u64(&mut callee, raw as u64);
        let expr = Expression::Call(CallExpr { callee: Box::new(ident_expr(callee)), arguments: vec![size] });
        return Ok((Some(StructuredStmt::Expr { expr }), q));
    }
    let decoder = local_decoder_name(st, name.as_str())?;
    register_local(st, decoder.as_str(), ty.as_str());
    if punct_at(toks, q, Punct::Semi) {
        return Ok((None, q + 1));
    }
    let q = expect(toks, q, Punct::Eq)?;
    let (value, q) = parse_expr(ctx, toks, q, st, 0)?;
    let q = expect(toks, q, Punct::Semi)?;
    Ok((Some(StructuredStmt::Assignment { target: AssignmentTarget::Identifier(decoder), value }), q))
}

/// An operand or an operator of a flat operator chain.
pub enum ChainItem {
    Operand(i32),
    Operator(BinaryOp),
}

/// The number literal a number token reads as: its value, capped at
/// `i32::MAX`.
pub open spec fn num_value(v: i64) -> i32 {
    if v <= i32::MAX {
        v as i32
    } else {
        i32::MAX
    }
}

/// What a token of a chain stands for.
pub open spec fn chain_item(t: TokV) -> ChainItem {
    match t {
        TokV::Num(v) => ChainItem::Operand(num_value(v)),
        _ => match punct_binary_op(t) {
            Some(op) => ChainItem::Operator(op),
            None => ChainItem::Operand(0),
        },
    }
}

/// The tokens from `pos` to `end` alternate number, binary operator,
/// number, ..., ending with a number, and the token at `end`, if any, is
/// no binary operator, `.` or `(`: a chain of operators over numbers.
pub open spec fn num_chain(t: Seq<TokV>, pos: int, end: int) -> bool {
    &&& 0 <= pos < end <= t.len()
    &&& (end - pos) % 2 == 1
    &&& forall|k: int|
        pos <= k < end ==> (if (k - pos) % 2 == 0 {
            #[trigger] t[k] is Num
        } else {
            punct_binary_op(t[k]) is Some
        })
    &&& end < t.len() ==> (punct_binary_op(t[end]) is None && t[end] != TokV::P(Punct::Dot) && t[end] != TokV::P(
        Punct::LParen,
    ))
}

/// The operands and operators of an expression, left to right.
pub open spec fn flat_items(e: Expression) -> Seq<ChainItem>
    decreases e,
{
    match e {
        Expression::BinaryOperation(b) => flat_items(*b.left) + seq![ChainItem::Operator(b.op)] + flat_items(
            *b.right,
        ),
        Expression::NumberLiteral(n) => seq![ChainItem::Operand(n.value)],
        _ => seq![],
    }
}

/// Each binary operation of `e` binds at least as tightly as `min`.
pub open spec fn binds_at_least(e: Expression, min: int) -> bool
    decreases e,
{
    match e {
        Expression::BinaryOperation(b) => crate::transpile::ast::binding_power(b.op) >= min && binds_at_least(
            *b.left,
            min,
        ) && binds_at_least(*b.right, min),
        _ => true,
    }
}

/// The operator of `e`, where it is a binary operation.
pub open spec fn top_op(e: Expression) -> Option<BinaryOp> {
    match e {
        Expression::BinaryOperation(b) => Some(b.op),
        _ => None,
    }
}

/// Precedence decides the grouping of `e`: an operation's left operand
/// binds at least as tightly as it (equal operators group to the left),
/// and its right operand strictly more tightly.
pub open spec fn grouped_by_precedence(e: Expression) -> bool
    decreases e,
{
    match e {
        Expression::BinaryOperation(b) => {
            &&& (top_op(*b.left) matches Some(l) ==> crate::transpile::ast::binding_power(l)
                >= crate::transpile::ast::binding_power(b.op))
            &&& (top_op(*b.right) matches Some(r) ==> crate::transpile::ast::binding_power(r)
                > crate::transpile::ast::binding_power(b.op))
            &&& grouped_by_precedence(*b.left)
            &&& grouped_by_precedence(*b.right)
        },
        _ => true,
    }
}

/// What `parse_expr` gives on an operator chain from `pos` to `end`: an
/// expression whose operands and operators are those of the tokens from
/// `pos` to `q`, in order, grouped by precedence, all binding at least as
/// tightly as `min_prec`, where `q` ends the chain or holds an operator
/// that binds more loosely.
pub open spec fn parses_chain(t: Seq<TokV>, pos: int, end: int, min_prec: int, e: Expression, q: int) -> bool {
    &&& pos < q <= end
    &&& (q - pos) % 2 == 1
    &&& flat_items(e) == t.subrange(pos, q).map_values(|k: TokV| chain_item(k))
    &&& grouped_by_precedence(e)
    &&& binds_at_least(e, min_prec)
    &&& q < end ==> crate::transpile::ast::binding_power(punct_binary_op(t[q])->Some_0) < min_prec
}

proof fn lemma_chain_end_unique(t: Seq<TokV>, pos: int, e1: int, e2: int)
    requires
        num_chain(t, pos, e1),
        num_chain(t, pos, e2),
    ensures
        e1 == e2,
{
    if e1 < e2 {
        assert(punct_binary_op(t[e1]) is Some);
    } else if e2 < e1 {
        assert(punct_binary_op(t[e2]) is Some);
    }
}

/// An expression whose binary operators bind at least as tightly as
/// `min_prec`; operators of equal precedence group to the left.
fn parse_expr(ctx: &RuneScriptContext, toks: &Vec<Tok>, pos: usize, st: &mut ParseState, min_prec: i32) -> (r:
    Result<(Expression, usize), Error>)
    requires
        pos <= toks@.len(),
        toks@.len() <= usize::MAX,
        state_wf(*old(st)),
    ensures
        state_wf(*final(st)),
        r matches Ok((_, q)) ==> pos < q <= toks@.len(),
        forall|end: int|
            #[trigger] num_chain(toks_view(toks@), pos as int, end) ==> (r matches Ok((e, q)) && parses_chain(
                toks_view(toks@),
                pos as int,
                end,
                min_prec as int,
                e,
                q as int,
            )),
    decreases toks@.len() - pos, 8nat,
{
    let ghost t = toks_view(toks@);
    let ghost is_chain = exists|end: int| num_chain(t, pos as int, end);
    let ghost end: int = choose|end: int| num_chain(t, pos as int, end);
    proof {
        if is_chain {
            assert(t[pos as int] == toks@[pos as int]@);
            assert(t[pos as int] is Num);
            if pos + 1 < toks@.len() {
                assert(t[pos + 1] == toks@[pos + 1]@);
                if pos + 1 < end {
                    assert(punct_binary_op(t[pos + 1]) is Some);
                }
            }
        }
    }
    let (mut left, mut cur) = parse_primary(ctx, toks, pos, st)?;
    proof {
        if is_chain {
            assert(t.subrange(pos as int, cur as int).map_values(|k: TokV| chain_item(k)) =~= seq![
                chain_item(t[pos as int]),
            ]);
        }
    }
    loop
        invariant
            pos < cur <= toks@.len(),
            toks@.len() <= usize::MAX,
            state_wf(*st),
            t == toks_view(toks@),
            is_chain == exists|e: int| num_chain(t, pos as int, e),
            is_chain ==> num_chain(t, pos as int, end),
            is_chain ==> cur <= end && (cur - pos) % 2 == 1,
            is_chain ==> flat_items(left) == t.subrange(pos as int, cur as int).map_values(|k: TokV| chain_item(k)),
            is_chain ==> grouped_by_precedence(left),
            is_chain ==> binds_at_least(left, min_prec as int),
            is_chain ==> (top_op(left) matches Some(l) ==> (cur < end ==> crate::transpile::ast::binding_power(
                punct_binary_op(t[cur as int])->Some_0,
            ) <= crate::transpile::ast::binding_power(l))),
        ensures
            is_chain ==> parses_chain(t, pos as int, end, min_prec as int, left, cur as int),
        decreases toks@.len() - cur,
    {
        let op = match binary_op_at(toks, cur) {
            Some(o) => o,
            None => {
                proof {
                    if is_chain && cur < end {
                        assert(t[cur as int] == toks@[cur as int]@);
                        assert(punct_binary_op(t[cur as int]) is Some);
                    }
                }
                break;
            },
        };
        proof {
            assert(t[cur as int] == toks@[cur as int]@);
        }
        let prec = op_prec(op);
        if prec < min_prec {
            break;
        }
        proof {
            if is_chain {
                if cur == end {
                    assert(punct_binary_op(t[end]) is None);
                }
                assert(num_chain(t, cur + 1, end)) by {
                    assert forall|k: int| cur + 1 <= k < end implies (if (k - (cur + 1)) % 2 == 0 {
                        #[trigger] t[k] is Num
                    } else {
                        punct_binary_op(t[k]) is Some
                    }) by {
                        assert((k - pos) % 2 == (k - (cur + 1)) % 2);
                    }
                }
            }
        }
        let ghost left0 = left;
        let ghost cur0 = cur;
        let sub = parse_expr(ctx, toks, cur + 1, st, prec + 1);
        proof {
            if is_chain {
                let n1: usize = (cur + 1) as usize;
                assert(num_chain(toks_view(toks@), n1 as int, end));
                assert(sub is Ok);
            }
            if sub is Err {
                assert forall|e2: int| !#[trigger] num_chain(toks_view(toks@), pos as int, e2) by {
                    if num_chain(toks_view(toks@), pos as int, e2) {
                        assert(num_chain(t, pos as int, e2));
                        assert(is_chain);
                    }
                }
            }
        }
        let (right, next) = sub?;
        left = Expression::BinaryOperation(BinaryOperation { op, left: Box::new(left), right: Box::new(right) });
        cur = next;
        proof {
            if is_chain {
                assert(parses_chain(t, cur0 + 1, end, prec + 1, right, next as int));
                let f = |k: TokV| chain_item(k);
                assert(t.subrange(pos as int, cur as int).map_values(f) =~= t.subrange(pos as int, cur0 as int).map_values(f)
                    + seq![chain_item(t[cur0 as int])] + t.subrange(cur0 + 1, cur as int).map_values(f));
                assert(chain_item(t[cur0 as int]) == ChainItem::Operator(op));
                lemma_binds_weaken(right, prec + 1, min_prec as int);
            }
        }
    }
    proof {
        assert forall|e2: int| #[trigger] num_chain(t, pos as int, e2) implies e2 == end by {
            lemma_chain_end_unique(t, pos as int, e2, end);
        }
    }
    Ok((left, cur))
}

proof fn lemma_binds_weaken(e: Expression, a: int, b: int)
    requires
        binds_at_least(e, a),
        b <= a,
    ensures
        binds_at_least(e, b),
    decreases e,
{
    match e {
        Expression::BinaryOperation(x) => {
            lemma_binds_weaken(*x.left, a, b);
            lemma_binds_weaken(*x.right, a, b);
        },
        _ => {},
    }
}

/// An atom followed by any `.property` and `(args)` postfixes.
fn parse_primary(ctx: &RuneScriptContext, toks: &Vec<Tok>, pos: usize, st: &mut ParseState) -> (r: Result<
    (Expression, usize),
    Error,
>)
    requires
        pos <= toks@.len(),
        toks@.len() <= usize::MAX,
        state_wf(*old(st)),
    ensures
        state_wf(*final(st)),
        r matches Ok((_, q)) ==> pos < q <= toks@.len(),
        (pos + 1 < toks@.len() && toks@[pos as int]@ is Num && toks@[pos + 1]@ != TokV::P(Punct::Dot)
            && toks@[pos + 1]@ != TokV::P(Punct::LParen)) ==> r == Ok::<(Expression, usize), Error>(
            (Expression::NumberLiteral(NumberLiteral { value: num_value(toks@[pos as int]@->Num_0) }), (pos + 1) as usize),
        ),
        (pos + 1 == toks@.len() && toks@[pos as int]@ is Num) ==> r == Ok::<(Expression, usize), Error>(
            (Expression::NumberLiteral(NumberLiteral { value: num_value(toks@[pos as int]@->Num_0) }), (pos + 1) as usize),
        ),
    decreases toks@.len() - pos, 7nat,
{
    let (atom, q) = parse_atom(ctx, toks, pos, st)?;
    parse_postfix(ctx, toks, q, st, atom)
}

/// `.property` and `(args)` postfixes; a single number applied to a call
/// picks one of its results.
fn parse_postfix(
    ctx: &RuneScriptContext,
    toks: &Vec<Tok>,
    pos: usize,
    st: &mut ParseState,
    base: Expression,
) -> (r: Result<(Expression, usize), Error>)
    requires
        pos <= toks@.len(),
        toks@.len() <= usize::MAX,
        state_wf(*old(st)),
    ensures
        state_wf(*final(st)),
        r matches Ok((_, q)) ==> pos <= q <= toks@.len(),
        (pos == toks@.len() || (toks@[pos as int]@ != TokV::P(Punct::Dot) && toks@[pos as int]@ != TokV::P(
            Punct::LParen,
        ))) ==> r == Ok::<(Expression, usize), Error>((base, pos)),
    decreases toks@.len() - pos, 5nat,
{
    let ghost base0 = base;
    let ghost bare = pos == toks@.len() || (toks@[pos as int]@ != TokV::P(Punct::Dot) && toks@[pos as int]@
        != TokV::P(Punct::LParen));
    let mut base = base;
    let mut cur = pos;
    loop
        invariant
            pos <= cur <= toks@.len(),
            toks@.len() <= usize::MAX,
            state_wf(*st),
            bare ==> cur == pos && base == base0,
            bare == (pos == toks@.len() || (toks@[pos as int]@ != TokV::P(Punct::Dot) && toks@[pos as int]@
                != TokV::P(Punct::LParen))),
        decreases toks@.len() - cur,
    {
        if punct_at(toks, cur, Punct::Dot) {
            let (property, q) = expect_ident(toks, cur + 1)?;
            base = Expression::PropertyAccess(PropertyAccess { object: Box::new(base), property });
            cur = q;
        } else if punct_at(toks, cur, Punct::LParen) {
            let (arguments, q) = parse_call_args(ctx, toks, cur, st)?;
            let index = if arguments.len() == 1 {
                match (&base, &arguments[0]) {
                    (Expression::Call(_), Expression::NumberLiteral(n)) => Some(n.value),
                    _ => None,
                }
            } else {
                None
            };
            base = match index {
                Some(v) => Expression::ArrayAccess(
                    ArrayAccess {
                        array: Box::new(base),
                        index: Box::new(Expression::NumberLiteral(NumberLiteral { value: v })),
                    },
                ),
                None => Expression::Call(CallExpr { callee: Box::new(base), arguments }),
            };
            cur = q;
        } else {
            break;
        }
    }
    Ok((base, cur))
}

fn parse_call_args(ctx: &RuneScriptContext, toks: &Vec<Tok>, pos: usize, st: &mut ParseState) -> (r: Result<
    (Vec<Expression>, usize),
    Error,
>)
    requires
        pos <= toks@.len(),
        toks@.len() <= usize::MAX,
        state_wf(*old(st)),
    ensures
        state_wf(*final(st)),
        r matches Ok((_, q)) ==> pos < q <= toks@.len(),
    decreases toks@.len() - pos, 4nat,
{
    let mut cur = expect(toks, pos, Punct::LParen)?;
    let mut args: Vec<Expression> = Vec::new();
    while !punct_at(toks, cur, Punct::RParen)
        invariant
            pos < cur <= toks@.len(),
            toks@.len() <= usize::MAX,
            state_wf(*st),
        decreases toks@.len() - cur,
    {
        let (e, q) = parse_expr(ctx, toks, cur, st, 0)?;
        args.push(e);
        cur = if punct_at(toks, q, Punct::Comma) {
            q + 1
        } else {
            q
        };
    }
    let end = expect(toks, cur, Punct::RParen)?;
    Ok((args, end))
}

fn parse_atom(ctx: &RuneScriptContext, toks: &Vec<Tok>, pos: usize, st: &mut ParseState) -> (r: Result<
    (Expression, usize),
    Error,
>)
    requires
        pos <= toks@.len(),
        toks@.len() <= usize::MAX,
        state_wf(*old(st)),
    ensures
        state_wf(*final(st)),
        r matches Ok((_, q)) ==> pos < q <= toks@.len(),
        (pos < toks@.len() && toks@[pos as int]@ is Num) ==> r == Ok::<(Expression, usize), Error>(
            (Expression::NumberLiteral(NumberLiteral { value: num_value(toks@[pos as int]@->Num_0) }), (pos + 1) as usize),
        ),
    decreases toks@.len() - pos, 6nat,
{
    if pos >= toks.len() {
        return Err(fail("unexpected end of RuneScript source"));
    }
    match &toks[pos] {
        Tok::P(Punct::Minus) => {
            if pos + 1 < toks.len() {
                match &toks[pos + 1] {
                    Tok::Num(v) => {
                        let w: i64 = if *v == i64::MIN {
                            i64::MIN
                        } else {
                            -*v
                        };
                        let value: i32 = if i32::MIN as i64 <= w && w <= i32::MAX as i64 {
                            w as i32
                        } else {
                            i32::MIN
                        };
                        return Ok((Expression::NumberLiteral(NumberLiteral { value }), pos + 2));
                    },
                    Tok::Long(v) => {
                        let value: i64 = if *v == i64::MIN {
                            i64::MIN
                        } else {
                            -*v
                        };
                        return Ok((Expression::BigIntLiteral(BigIntLiteral { value }), pos + 2));
                    },
                    _ => {},
                }
            }
            let (operand, q) = parse_atom(ctx, toks, pos + 1, st)?;
            Ok((Expression::UnaryOperation(UnaryOperation { op: UnaryOp::Neg, operand: Box::new(operand) }), q))
        },
        Tok::Num(v) => {
            let value: i32 = if *v <= i32::MAX as i64 {
                *v as i32
            } else {
                i32::MAX
            };
            Ok((Expression::NumberLiteral(NumberLiteral { value }), pos + 1))
        },
        Tok::Long(v) => Ok((Expression::BigIntLiteral(BigIntLiteral { value: *v }), pos + 1)),
        Tok::Str(v) => Ok((Expression::StringLiteral(StringLiteral { value: v.clone() }), pos + 1)),
        Tok::P(Punct::LParen) => {
            let (inner, q) = parse_expr(ctx, toks, pos + 1, st, 0)?;
            let q = expect(toks, q, Punct::RParen)?;
            Ok((inner, q))
        },
        Tok::P(Punct::Tilde) => parse_gosub(ctx, toks, pos, st),
        Tok::Ident(_) => parse_ident_primary(ctx, toks, pos, st),
        _ => Err(fail("unexpected token in expression")),
    }
}

/// `~name` or `~name(args)`: a call of a script by its own name.
fn parse_gosub(ctx: &RuneScriptContext, toks: &Vec<Tok>, pos: usize, st: &mut ParseState) -> (r: Result<
    (Expression, usize),
    Error,
>)
    requires
        pos <= toks@.len(),
        toks@.len() <= usize::MAX,
        state_wf(*old(st)),
    ensures
        state_wf(*final(st)),
        r matches Ok((_, q)) ==> pos < q <= toks@.len(),
    decreases toks@.len() - pos, 3nat,
{
    let q = expect(toks, pos, Punct::Tilde)?;
    let (name, q) = expect_ident(toks, q)?;
    crate::transpile::structured_writer::insert_sorted(&mut st.gosub_names, name.clone());
    let (arguments, q) = if punct_at(toks, q, Punct::LParen) {
        parse_call_args(ctx, toks, q, st)?
    } else {
        (Vec::new(), q)
    };
    Ok((Expression::Call(CallExpr { callee: Box::new(ident_expr(name)), arguments }), q))
}

fn parse_ident_primary(ctx: &RuneScriptContext, toks: &Vec<Tok>, pos: usize, st: &mut ParseState) -> (r: Result<
    (Expression, usize),
    Error,
>)
    requires
        pos <= toks@.len(),
        toks@.len() <= usize::MAX,
        state_wf(*old(st)),
    ensures
        state_wf(*final(st)),
        r matches Ok((_, q)) ==> pos < q <= toks@.len(),
    decreases toks@.len() - pos, 3nat,
{
    let (name, q) = expect_ident(toks, pos)?;
    let n = name.as_str();
    if str_eq(n, "calc") {
        let q = expect(toks, q, Punct::LParen)?;
        let (inner, q) = parse_expr(ctx, toks, q, st, 0)?;
        let q = expect(toks, q, Punct::RParen)?;
        return Ok((inner, q));
    }
    if str_eq(n, "true") || str_eq(n, "false") {
        return Ok((Expression::BooleanLiteral(BooleanLiteral { value: str_eq(n, "true") }), q));
    }
    if str_eq(n, "pop") && punct_at(toks, q, Punct::LParen) {
        let q = expect(toks, q + 1, Punct::RParen)?;
        return Ok((
            Expression::Call(CallExpr { callee: Box::new(ident_expr(string_from("pop"))), arguments: Vec::new() }),
            q,
        ));
    }
    if str_eq(n, "callback") && punct_at(toks, q, Punct::LParen) {
        return parse_callback(ctx, toks, q, st);
    }
    if str_eq(n, "goto") && punct_at(toks, q, Punct::LParen) {
        let (target, q) = parse_usize(toks, q + 1)?;
        let q = expect(toks, q, Punct::RParen)?;
        return Ok((Expression::GotoExpr(GotoExpr { target }), q));
    }
    let nc = chars_of(n);
    if let Some(body) = crate::text::strip_prefix(&nc, "$") {
        if let Some(index_text) = crate::text::strip_prefix(&body, "arr") {
            let index = match crate::text::parse_u32(&index_text) {
                Some(i) => i,
                None => return Err(fail("bad array index")),
            };
            let q = expect(toks, q, Punct::LParen)?;
            let (idx, q) = parse_expr(ctx, toks, q, st, 0)?;
            let q = expect(toks, q, Punct::RParen)?;
            let mut arr = string_from("array_");
            push_u64(&mut arr, index as u64);
            return Ok((
                Expression::ArrayAccess(ArrayAccess { array: Box::new(ident_expr(arr)), index: Box::new(idx) }),
                q,
            ));
        }
        let decoder = local_decoder_name(st, n)?;
        return Ok((ident_expr(decoder), q));
    }
    if let Some(var) = crate::text::strip_prefix(&nc, "%") {
        return Ok((ident_expr(string_of(&var)), q));
    }
    if punct_at(toks, q, Punct::LParen) {
        let (arguments, q2) = parse_call_args(ctx, toks, q, st)?;
        return Ok((Expression::Call(CallExpr { callee: Box::new(command_callee(ctx, n)), arguments }), q2));
    }
    Ok((ident_expr(name), q))
}

/// `callback("script", [args], [watchers], "descriptor")`, after the name.
fn parse_callback(ctx: &RuneScriptContext, toks: &Vec<Tok>, pos: usize, st: &mut ParseState) -> (r: Result<
    (Expression, usize),
    Error,
>)
    requires
        pos <= toks@.len(),
        toks@.len() <= usize::MAX,
        state_wf(*old(st)),
    ensures
        state_wf(*final(st)),
        r matches Ok((_, q)) ==> pos < q <= toks@.len(),
    decreases toks@.len() - pos, 2nat,
{
    let q = expect(toks, pos, Punct::LParen)?;
    let (script, q) = expect_string(toks, q)?;
    let q = expect(toks, q, Punct::Comma)?;
    let (arguments, q) = parse_bracket_exprs(ctx, toks, q, st)?;
    let q = expect(toks, q, Punct::Comma)?;
    let (watchers, q) = parse_bracket_idents(toks, q)?;
    let q = expect(toks, q, Punct::Comma)?;
    let (raw_descriptor, q) = expect_string(toks, q)?;
    let q = expect(toks, q, Punct::RParen)?;
    Ok((Expression::CallbackLiteral(CallbackLiteral { script, script_id: None, raw_descriptor, arguments, watchers }), q))
}

fn parse_bracket_exprs(ctx: &RuneScriptContext, toks: &Vec<Tok>, pos: usize, st: &mut ParseState) -> (r: Result<
    (Vec<Expression>, usize),
    Error,
>)
    requires
        pos <= toks@.len(),
        toks@.len() <= usize::MAX,
        state_wf(*old(st)),
    ensures
        state_wf(*final(st)),
        r matches Ok((_, q)) ==> pos < q <= toks@.len(),
    decreases toks@.len() - pos, 2nat,
{
    let mut cur = expect(toks, pos, Punct::LBracket)?;
    let mut out: Vec<Expression> = Vec::new();
    while !punct_at(toks, cur, Punct::RBracket)
        invariant
            pos < cur <= toks@.len(),
            toks@.len() <= usize::MAX,
            state_wf(*st),
        decreases toks@.len() - cur,
    {
        let (e, q) = parse_expr(ctx, toks, cur, st, 0)?;
        out.push(e);
        cur = if punct_at(toks, q, Punct::Comma) {
            q + 1
        } else {
            q
        };
    }
    let end = expect(toks, cur, Punct::RBracket)?;
    Ok((out, end))
}

/// `[name, Dotted.name, ...]`.
fn parse_bracket_idents(toks: &Vec<Tok>, pos: usize) -> (r: Result<(Vec<String>, usize), Error>)
    requires
        pos <= toks@.len(),
        toks@.len() <= usize::MAX,
    ensures
        r matches Ok((_, q)) ==> pos < q <= toks@.len(),
{
    let mut cur = expect(toks, pos, Punct::LBracket)?;
    let mut out: Vec<String> = Vec::new();
    while !punct_at(toks, cur, Punct::RBracket)
        invariant
            pos < cur <= toks@.len(),
            toks@.len() <= usize::MAX,
        decreases toks@.len() - cur,
    {
        let (first, q) = expect_ident(toks, cur)?;
        let mut name = first;
        let mut q = q;
        while punct_at(toks, q, Punct::Dot)
            invariant
                cur < q <= toks@.len(),
                toks@.len() <= usize::MAX,
            decreases toks@.len() - q,
        {
            let (part, q2) = expect_ident(toks, q + 1)?;
            push_str(&mut name, ".");
            push_str(&mut name, part.as_str());
            q = q2;
        }
        out.push(name);
        cur = if punct_at(toks, q, Punct::Comma) {
            q + 1
        } else {
            q
        };
    }
    let end = expect(toks, cur, Punct::RBracket)?;
    Ok((out, end))
}

/// `(type $name, ...)` or `(type, ...)`: each entry's type (a union
/// `a | b` kept whole) and optional name.
fn parse_paren_decl_group(toks: &Vec<Tok>, pos: usize) -> (r: Result<(Vec<(String, Option<String>)>, usize), Error>)
    requires
        pos <= toks@.len(),
        toks@.len() <= usize::MAX,
    ensures
        r matches Ok((es, q)) ==> pos < q <= toks@.len() && es@.len() <= q - pos,
{
    let mut cur = expect(toks, pos, Punct::LParen)?;
    let mut entries: Vec<(String, Option<String>)> = Vec::new();
    while !punct_at(toks, cur, Punct::RParen)
        invariant
            pos < cur <= toks@.len(),
            toks@.len() <= usize::MAX,
            entries@.len() < cur - pos,
        decreases toks@.len() - cur,
    {
        let (first, q) = expect_ident(toks, cur)?;
        let mut ty = first;
        let mut q = q;
        while punct_at(toks, q, Punct::Pipe)
            invariant
                cur < q <= toks@.len(),
                toks@.len() <= usize::MAX,
            decreases toks@.len() - q,
        {
            let (part, q2) = expect_ident(toks, q + 1)?;
            push_str(&mut ty, " | ");
            push_str(&mut ty, part.as_str());
            q = q2;
        }
        let name = if q < toks.len() {
            match &toks[q] {
                Tok::Ident(n) => {
                    let n2 = n.clone();
                    q = q + 1;
                    Some(n2)
                },
                _ => None,
            }
        } else {
            None
        };
        entries.push((ty, name));
        cur = if punct_at(toks, q, Punct::Comma) {
            q + 1
        } else {
            q
        };
    }
    let end = expect(toks, cur, Punct::RParen)?;
    Ok((entries, end))
}

/// An argument named `arg_<stack>_<index>` after its own index.
pub open spec fn named_arg(a: ArgumentVariable) -> bool {
    exists|d: LocalStack| a.name@ == arg_name(d, a.index as nat)
}

/// An import of one script by its name, from `./<name>`.
pub open spec fn gosub_import(i: ImportStatement) -> bool {
    &&& i.named_exports@.len() == 1
    &&& i.module@ == "./"@ + i.named_exports@[0]@
    &&& !i.is_type_only
}

/// What a parse guarantees of the script's shape: its name is the first
/// token, it carries no id, raw name or header comments, every argument is
/// named after its stack and index, the locals have distinct names, and
/// each import brings in one called script.
pub open spec fn parsed_shape(toks: Seq<TokV>, sc: StructuredScript) -> bool {
    &&& toks.len() > 0
    &&& toks[0] == TokV::Ident(sc.function_name@)
    &&& sc.script_id == ScriptId(0)
    &&& sc.raw_name is None
    &&& sc.header_comments@.len() == 0
    &&& forall|k: int| 0 <= k < sc.arguments@.len() ==> #[trigger] named_arg(sc.arguments@[k])
    &&& forall|i: int, j: int|
        0 <= i < j < sc.locals@.len() ==> sc.locals@[i].name@ != sc.locals@[j].name@
    &&& forall|k: int| 0 <= k < sc.imports@.len() ==> #[trigger] gosub_import(sc.imports@[k])
}

fn parse_script(ctx: &RuneScriptContext, toks: &Vec<Tok>) -> (r: Result<StructuredScript, Error>)
    requires
        toks@.len() <= usize::MAX,
    ensures
        r matches Ok(sc) ==> parsed_shape(toks_view(toks@), sc),
{
    let (function_name, mut cur) = expect_ident(toks, 0)?;
    let mut params: Vec<(String, Option<String>)> = Vec::new();
    let mut rets: Vec<(String, Option<String>)> = Vec::new();
    if punct_at(toks, cur, Punct::LParen) {
        let (g, q) = parse_paren_decl_group(toks, cur)?;
        params = g;
        cur = q;
        if punct_at(toks, cur, Punct::LParen) {
            let (g2, q2) = parse_paren_decl_group(toks, cur)?;
            rets = g2;
            cur = q2;
        }
    }
    let mut arguments: Vec<ArgumentVariable> = Vec::new();
    let mut n_int: usize = 0;
    let mut n_obj: usize = 0;
    let mut n_long: usize = 0;
    let mut k: usize = 0;
    while k < params.len()
        invariant
            k <= params@.len(),
            params@.len() <= toks@.len() <= usize::MAX,
            n_int + n_obj + n_long == k,
            forall|j: int| 0 <= j < arguments@.len() ==> #[trigger] named_arg(arguments@[j]),
        decreases params@.len() - k,
    {
        let tc = chars_of(params[k].0.as_str());
        let d = stack_of_type(&tc);
        let index = match d {
            LocalStack::Int => n_int,
            LocalStack::Obj => n_obj,
            LocalStack::Long => n_long,
        };
        match d {
            LocalStack::Int => n_int = n_int + 1,
            LocalStack::Obj => n_obj = n_obj + 1,
            LocalStack::Long => n_long = n_long + 1,
        }
        let mut name = string_from("arg_");
        push_str(&mut name, stack_token_of(d));
        push_str(&mut name, "_");
        push_u64(&mut name, index as u64);
        let a = ArgumentVariable { index, name, type_annotation: parse_type_annotation(params[k].0.as_str()) };
        proof {
            assert(a.name@ == arg_name(d, a.index as nat));
            assert(named_arg(a));
        }
        arguments.push(a);
        k = k + 1;
    }
    let return_type = build_return_type(&rets);
    let mut st = ParseState {
        arg_int: n_int,
        arg_obj: n_obj,
        arg_long: n_long,
        locals: Vec::new(),
        arrays: Vec::new(),
        gosub_names: Vec::new(),
    };
    let (body, _end) = parse_stmts_until_eof(ctx, toks, cur, &mut st)?;
    let mut imports: Vec<ImportStatement> = Vec::new();
    let mut g: usize = 0;
    while g < st.gosub_names.len()
        invariant
            g <= st.gosub_names@.len(),
            forall|j: int| 0 <= j < imports@.len() ==> #[trigger] gosub_import(imports@[j]),
        decreases st.gosub_names@.len() - g,
    {
        let name = st.gosub_names[g].clone();
        let mut module = string_from("./");
        push_str(&mut module, name.as_str());
        let imp = ImportStatement { module, named_exports: vec![name], is_type_only: false };
        proof {
            assert(imp.named_exports@[0]@ == name@);
        }
        imports.push(imp);
        g = g + 1;
    }
    let sc = StructuredScript {
        script_id: ScriptId(0),
        raw_name: None,
        header_comments: Vec::new(),
        imports,
        function_name,
        arguments,
        locals: st.locals,
        arrays: st.arrays,
        return_type,
        body,
    };
    proof {
        assert(toks_view(toks@)[0] == toks@[0]@);
    }
    Ok(sc)
}

/// Reads RuneScript source as the RuneScript renderer writes it back into
/// a structured script: `$<type><index>` locals become the decoder names
/// (`arg_int_0`, `local_int_2`) by the header's argument counts,
/// `def_` declarations register locals, `calc(...)` and grouping brackets
/// vanish, `~name` calls keep their name and are imported, `cc_`/`if_`
/// commands become `UI.` methods and canonical commands their names
/// without underscores. Fails (`Invalid`) on source it cannot read.
pub fn parse_runescript(source: &str, ctx: &RuneScriptContext) -> (r: Result<StructuredScript, Error>)
    ensures
        lex_spec(source@) is None ==> (r matches Err(e) && e.kind == ErrorKind::Invalid),
        r matches Ok(sc) ==> (lex_spec(source@) matches Some(ts) && parsed_shape(ts, sc)),
{
    let toks = lex(source)?;
    proof {
        assert(toks@.len() == toks.len());
    }
    parse_script(ctx, &toks)
}

} // verus!
