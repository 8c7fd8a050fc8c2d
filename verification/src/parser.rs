//! An older, simpler parser over raw source text: parenthesized binary
//! expressions, method calls, assignments, `if` blocks and `exit`
//! statements, with `#` line comments. It works on a character cursor
//! into the stored input; each production returns the cursor position
//! after itself and any trailing whitespace, or an error with the
//! position it failed at.

use vstd::prelude::*;

use crate::htn_vm::{AbsVal, EndState, Num};
use crate::lexer::{digits_end, digits_val, is_digit, lemma_digits_end};
use crate::tokens::VmValue;

verus! {

broadcast use vstd::std_specs::vec::axiom_vec_index_decreases, vstd::seq::axiom_seq_index_decreases, vstd::std_specs::vec::axiom_vec_decreases_to_view;

/// A statement of this grammar. `CallTask` is reserved: no production
/// yields it.
#[derive(Debug, PartialEq, Eq)]
pub enum Instruction {
    Assign(String, ParseValue),
    CallTask(String),
    If(ParseValue, Vec<Instruction>, Option<Vec<Instruction>>),
    Exit(EndState),
    Value(Box<ParseValue>),
}

/// A binary operator of this grammar.
#[derive(Debug, Clone, Copy, PartialEq, Eq, Structural)]
pub enum Operator {
    Add,
    Sub,
    Mul,
    Div,
    Mod,
    And,
    Or,
    Eq,
    Neq,
    Lt,
    Gt,
    Lte,
    Gte,
}

/// An expression of this grammar.
#[derive(Debug, PartialEq, Eq)]
pub enum ParseValue {
    Literal(VmValue),
    Variable(String),
    CallMethod(String, String, Vec<ParseValue>),
    Expression(Box<ParseValue>, Operator, Box<ParseValue>),
}

/// The mathematical value of an expression.
pub enum AbsPv {
    Literal(AbsVal),
    Variable(Seq<char>),
    CallMethod(Seq<char>, Seq<char>, Seq<AbsPv>),
    Expression(Box<AbsPv>, Operator, Box<AbsPv>),
}

/// The mathematical value of a statement.
pub enum AbsIns {
    Assign(Seq<char>, AbsPv),
    CallTask(Seq<char>),
    If(AbsPv, Seq<AbsIns>, Option<Seq<AbsIns>>),
    Exit(EndState),
    Value(AbsPv),
}

pub open spec fn abs_pv_list(s: Seq<ParseValue>) -> Seq<AbsPv>
    decreases s, 1int,
{
    if s.len() == 0 {
        Seq::empty()
    } else {
        let n = s.len() - 1;
        abs_pv_list(s.subrange(0, n)).push(s[n].view())
    }
}

impl View for ParseValue {
    type V = AbsPv;

    open spec fn view(&self) -> AbsPv
        decreases self, 0int,
    {
        match self {
            ParseValue::Literal(v) => AbsPv::Literal(v.view()),
            ParseValue::Variable(name) => AbsPv::Variable(name@),
            ParseValue::CallMethod(t, m, args) => AbsPv::CallMethod(t@, m@, abs_pv_list(args@)),
            ParseValue::Expression(l, op, r) => AbsPv::Expression(
                Box::new((**l).view()),
                *op,
                Box::new((**r).view()),
            ),
        }
    }
}

pub open spec fn abs_ins_list(s: Seq<Instruction>) -> Seq<AbsIns>
    decreases s, 1int,
{
    if s.len() == 0 {
        Seq::empty()
    } else {
        let n = s.len() - 1;
        abs_ins_list(s.subrange(0, n)).push(s[n].view())
    }
}

impl View for Instruction {
    type V = AbsIns;

    open spec fn view(&self) -> AbsIns
        decreases self, 0int,
    {
        match self {
            Instruction::Assign(name, v) => AbsIns::Assign(name@, v.view()),
            Instruction::CallTask(name) => AbsIns::CallTask(name@),
            Instruction::If(cond, a, b) => AbsIns::If(
                cond.view(),
                abs_ins_list(a@),
                match b {
                    Some(bv) => Some(abs_ins_list(bv@)),
                    None => None,
                },
            ),
            Instruction::Exit(state) => AbsIns::Exit(*state),
            Instruction::Value(v) => AbsIns::Value((**v).view()),
        }
    }
}

/// ASCII whitespace, as this parser trims it.
pub open spec fn is_ws(c: char) -> bool {
    c == ' ' || c == '\t' || c == '\n' || c == '\r'
}

/// The end of a whitespace run: where the input stands after trimming.
pub open spec fn ws_end(s: Seq<char>, at: int) -> int
    decreases s.len() - at,
{
    if at < s.len() && is_ws(s[at]) {
        ws_end(s, at + 1)
    } else {
        at
    }
}

pub proof fn lemma_ws_end(s: Seq<char>, at: int)
    requires
        0 <= at <= s.len(),
    ensures
        at <= ws_end(s, at) <= s.len(),
    decreases s.len() - at,
{
    if at < s.len() && is_ws(s[at]) {
        lemma_ws_end(s, at + 1);
    }
}

/// An identifier character of this grammar: underscore, hyphen, or an
/// ASCII letter.
pub open spec fn is_ident2(c: char) -> bool {
    c == '_' || c == '-' || ('a' <= c && c <= 'z') || ('A' <= c && c <= 'Z')
}

pub open spec fn ident2_end(s: Seq<char>, at: int) -> int
    decreases s.len() - at,
{
    if at < s.len() && is_ident2(s[at]) {
        ident2_end(s, at + 1)
    } else {
        at
    }
}

pub proof fn lemma_ident2_end(s: Seq<char>, at: int)
    requires
        0 <= at <= s.len(),
    ensures
        at <= ident2_end(s, at) <= s.len(),
    decreases s.len() - at,
{
    if at < s.len() && is_ident2(s[at]) {
        lemma_ident2_end(s, at + 1);
    }
}

/// ASCII punctuation, as `parse_operator` delimits its span.
pub open spec fn is_punct(c: char) -> bool {
    ('!' <= c && c <= '/') || (':' <= c && c <= '@') || ('[' <= c && c <= '`') || ('{' <= c && c
        <= '~')
}

pub open spec fn punct_end(s: Seq<char>, at: int) -> int
    decreases s.len() - at,
{
    if at < s.len() && is_punct(s[at]) {
        punct_end(s, at + 1)
    } else {
        at
    }
}

pub proof fn lemma_punct_end(s: Seq<char>, at: int)
    requires
        0 <= at <= s.len(),
    ensures
        at <= punct_end(s, at) <= s.len(),
    decreases s.len() - at,
{
    if at < s.len() && is_punct(s[at]) {
        lemma_punct_end(s, at + 1);
    }
}

/// The end of a `#` run.
pub open spec fn hash_end(s: Seq<char>, at: int) -> int
    decreases s.len() - at,
{
    if at < s.len() && s[at] == '#' {
        hash_end(s, at + 1)
    } else {
        at
    }
}

pub proof fn lemma_hash_end(s: Seq<char>, at: int)
    requires
        0 <= at <= s.len(),
    ensures
        at <= hash_end(s, at) <= s.len(),
        at < s.len() && s[at] == '#' ==> at < hash_end(s, at),
    decreases s.len() - at,
{
    if at < s.len() && s[at] == '#' {
        lemma_hash_end(s, at + 1);
    }
}

/// The position of the first occurrence of `c` at or after `at`, or
/// the end of the input.
pub open spec fn find_char(s: Seq<char>, at: int, c: char) -> int
    decreases s.len() - at,
{
    if at >= s.len() {
        s.len() as int
    } else if s[at] == c {
        at
    } else {
        find_char(s, at + 1, c)
    }
}

pub proof fn lemma_find_char(s: Seq<char>, at: int, c: char)
    requires
        0 <= at <= s.len(),
    ensures
        at <= find_char(s, at, c) <= s.len(),
        find_char(s, at, c) < s.len() ==> s[find_char(s, at, c)] == c,
    decreases s.len() - at,
{
    if at < s.len() && s[at] != c {
        lemma_find_char(s, at + 1, c);
    }
}

/// Whether the input continues with the given word at `at`.
pub open spec fn has_prefix(s: Seq<char>, at: int, w: Seq<char>) -> bool {
    at + w.len() <= s.len() && s.subrange(at, at + w.len()) == w
}

/// The operator a punctuation span spells, if any.
pub open spec fn operator_of(w: Seq<char>) -> Option<Operator> {
    if w == "+"@ {
        Some(Operator::Add)
    } else if w == "-"@ {
        Some(Operator::Sub)
    } else if w == "*"@ {
        Some(Operator::Mul)
    } else if w == "/"@ {
        Some(Operator::Div)
    } else if w == "%"@ {
        Some(Operator::Mod)
    } else if w == "&&"@ {
        Some(Operator::And)
    } else if w == "||"@ {
        Some(Operator::Or)
    } else if w == "=="@ {
        Some(Operator::Eq)
    } else if w == "!="@ {
        Some(Operator::Neq)
    } else if w == "<"@ {
        Some(Operator::Lt)
    } else if w == ">"@ {
        Some(Operator::Gt)
    } else if w == "<="@ {
        Some(Operator::Lte)
    } else if w == ">="@ {
        Some(Operator::Gte)
    } else {
        None
    }
}

/// The position after a `#` comment: the `#` run, everything to the
/// next newline, and trailing whitespace; `None` where no `#` stands.
pub open spec fn sp2_comment(s: Seq<char>, at: int) -> Option<int>
    recommends
        0 <= at <= s.len(),
{
    if at < s.len() && s[at] == '#' {
        let h = hash_end(s, at);
        let nl = find_char(s, h, '\n');
        if nl >= s.len() {
            Some(s.len() as int)
        } else {
            Some(ws_end(s, nl))
        }
    } else {
        None
    }
}

/// The end state named at `at`: a leading `S`, `F` or `R` suffices.
pub open spec fn sp2_end_state(s: Seq<char>, at: int) -> Option<(EndState, int)>
    recommends
        0 <= at <= s.len(),
{
    if at < s.len() && s[at] == 'S' {
        Some((EndState::Success, ws_end(s, at + 1)))
    } else if at < s.len() && s[at] == 'F' {
        Some((EndState::Failure, ws_end(s, at + 1)))
    } else if at < s.len() && s[at] == 'R' {
        Some((EndState::Running, ws_end(s, at + 1)))
    } else if has_prefix(s, at, "Success"@) {
        Some((EndState::Success, ws_end(s, at + 7)))
    } else if has_prefix(s, at, "Failure"@) {
        Some((EndState::Failure, ws_end(s, at + 7)))
    } else if has_prefix(s, at, "Running"@) {
        Some((EndState::Running, ws_end(s, at + 7)))
    } else {
        None
    }
}

/// The operator span at `at`: the punctuation run, empty when the run
/// reaches the end of the input.
pub open spec fn op_span(s: Seq<char>, at: int) -> Seq<char>
    recommends
        0 <= at <= s.len(),
{
    let e = punct_end(s, at);
    if e == s.len() {
        Seq::empty()
    } else {
        s.subrange(at, e)
    }
}

/// The operator at `at`.
pub open spec fn sp2_operator(s: Seq<char>, at: int) -> Option<(Operator, int)>
    recommends
        0 <= at <= s.len(),
{
    let w = op_span(s, at);
    match operator_of(w) {
        Some(op) => Some((op, ws_end(s, at + w.len()))),
        None => None,
    }
}

/// The identifier span at `at`: the identifier-character run, empty
/// when the run reaches the end of the input.
pub open spec fn ident_span(s: Seq<char>, at: int) -> Seq<char>
    recommends
        0 <= at <= s.len(),
{
    let e = ident2_end(s, at);
    if e == s.len() {
        Seq::empty()
    } else {
        s.subrange(at, e)
    }
}

/// The identifier at `at`.
pub open spec fn sp2_identifier(s: Seq<char>, at: int) -> Option<(Seq<char>, int)>
    recommends
        0 <= at <= s.len(),
{
    let w = ident_span(s, at);
    if w.len() == 0 {
        None
    } else {
        Some((w, ws_end(s, at + w.len())))
    }
}

/// The digit span at `at`, with the same end-of-input quirk.
pub open spec fn digit_span(s: Seq<char>, at: int) -> Seq<char>
    recommends
        0 <= at <= s.len(),
{
    let e = digits_end(s, at);
    if e == s.len() {
        Seq::empty()
    } else {
        s.subrange(at, e)
    }
}

/// The integer at `at`: a digit run whose value fits in `i32`.
pub open spec fn sp2_int(s: Seq<char>, at: int) -> Option<(i32, int)>
    recommends
        0 <= at <= s.len(),
{
    let w = digit_span(s, at);
    if w.len() == 0 || digits_val(w) > i32::MAX {
        None
    } else {
        Some((digits_val(w) as i32, ws_end(s, at + w.len())))
    }
}

/// The single-quoted string at `at`; its body is taken literally.
pub open spec fn sp2_string(s: Seq<char>, at: int) -> Option<(Seq<char>, int)>
    recommends
        0 <= at <= s.len(),
{
    if at < s.len() && s[at] == '\'' {
        let e = find_char(s, at + 1, '\'');
        if e >= s.len() {
            None
        } else {
            Some((s.subrange(at + 1, e), ws_end(s, e + 1)))
        }
    } else {
        None
    }
}

/// The constant at `at`: a string, an integer, `Null`, `True` or
/// `False`.
pub open spec fn sp2_constant(s: Seq<char>, at: int) -> Option<(AbsVal, int)>
    recommends
        0 <= at <= s.len(),
{
    if sp2_string(s, at) is Some {
        let (w, p) = sp2_string(s, at)->0;
        Some((AbsVal::Str(w), p))
    } else if sp2_int(s, at) is Some {
        let (v, p) = sp2_int(s, at)->0;
        Some((AbsVal::Int(v), p))
    } else if has_prefix(s, at, "Null"@) {
        Some((AbsVal::Null, ws_end(s, at + 4)))
    } else if has_prefix(s, at, "True"@) {
        Some((AbsVal::Bool(true), ws_end(s, at + 4)))
    } else if has_prefix(s, at, "False"@) {
        Some((AbsVal::Bool(false), ws_end(s, at + 5)))
    } else {
        None
    }
}

/// A value, by ordered choice: a parenthesized expression, a constant,
/// a method call, a variable.
pub open spec fn sp2_value(s: Seq<char>, at: int) -> Option<(AbsPv, int)>
    decreases s.len() - at, 20int,
        when 0 <= at <= s.len()
{
    if sp2_expression(s, at) is Some {
        sp2_expression(s, at)
    } else if sp2_constant(s, at) is Some {
        let (v, p) = sp2_constant(s, at)->0;
        Some((AbsPv::Literal(v), p))
    } else if sp2_method_call(s, at) is Some {
        sp2_method_call(s, at)
    } else {
        match sp2_identifier(s, at) {
            Some((w, p)) => Some((AbsPv::Variable(w), p)),
            None => None,
        }
    }
}

/// A parenthesized binary expression: `( value op value )`.
pub open spec fn sp2_expression(s: Seq<char>, at: int) -> Option<(AbsPv, int)>
    decreases s.len() - at, 19int,
        when 0 <= at <= s.len()
{
    if at < s.len() && s[at] == '(' {
        let a1 = ws_end(s, at + 1);
        if at < a1 <= s.len() {
            match sp2_value(s, a1) {
                None => None,
                Some((l, p)) => if a1 <= p <= s.len() {
                    match sp2_operator(s, p) {
                        None => None,
                        Some((op, p2)) => if at < p2 <= s.len() {
                            match sp2_value(s, p2) {
                                None => None,
                                Some((r, p3)) => if p3 < s.len() && s[p3] == ')' {
                                    Some(
                                        (
                                            AbsPv::Expression(Box::new(l), op, Box::new(r)),
                                            ws_end(s, p3 + 1),
                                        ),
                                    )
                                } else {
                                    None
                                },
                            }
                        } else {
                            None
                        },
                    }
                } else {
                    None
                },
            }
        } else {
            None
        }
    } else {
        None
    }
}

/// A method call: `target.method(arguments)`.
pub open spec fn sp2_method_call(s: Seq<char>, at: int) -> Option<(AbsPv, int)>
    decreases s.len() - at, 18int,
        when 0 <= at <= s.len()
{
    match sp2_identifier(s, at) {
        None => None,
        Some((target, p)) => if p < s.len() && s[p] == '.' {
            let a2 = ws_end(s, p + 1);
            if a2 <= s.len() {
                match sp2_identifier(s, a2) {
                    None => None,
                    Some((method, p2)) => if p2 < s.len() && s[p2] == '(' {
                        let a3 = ws_end(s, p2 + 1);
                        if at < a3 <= s.len() {
                            match sp2_margs(s, a3) {
                                None => None,
                                Some((args, p3)) => if p3 < s.len() {
                                    Some(
                                        (
                                            AbsPv::CallMethod(target, method, args),
                                            ws_end(s, p3 + 1),
                                        ),
                                    )
                                } else {
                                    None
                                },
                            }
                        } else {
                            None
                        }
                    } else {
                        None
                    },
                }
            } else {
                None
            }
        } else {
            None
        },
    }
}

/// A comma-separated argument list; the returned position is that of
/// the closing parenthesis.
pub open spec fn sp2_margs(s: Seq<char>, at: int) -> Option<(Seq<AbsPv>, int)>
    decreases s.len() - at, 21int,
        when 0 <= at <= s.len()
{
    if at < s.len() && s[at] == ')' {
        Some((Seq::empty(), at))
    } else {
        match sp2_value(s, at) {
            None => None,
            Some((v, p)) => if at < p <= s.len() {
                let p2 = if p < s.len() && s[p] == ',' {
                    ws_end(s, p + 1)
                } else {
                    p
                };
                if at < p2 <= s.len() {
                    match sp2_margs(s, p2) {
                        None => None,
                        Some((rest, q)) => Some((seq![v] + rest, q)),
                    }
                } else {
                    None
                }
            } else {
                None
            },
        }
    }
}

/// An `exit` statement.
pub open spec fn sp2_exit(s: Seq<char>, at: int) -> Option<(AbsIns, int)>
    recommends
        0 <= at <= s.len(),
{
    if has_prefix(s, at, "exit"@) {
        let a = ws_end(s, at + 4);
        if a <= s.len() {
            match sp2_end_state(s, a) {
                Some((st, p)) => Some((AbsIns::Exit(st), p)),
                None => None,
            }
        } else {
            None
        }
    } else {
        None
    }
}

/// An assignment: `identifier = value`.
pub open spec fn sp2_assign(s: Seq<char>, at: int) -> Option<(AbsIns, int)>
    decreases s.len() - at, 25int,
        when 0 <= at <= s.len()
{
    match sp2_identifier(s, at) {
        None => None,
        Some((name, p)) => if p < s.len() && s[p] == '=' {
            let a = ws_end(s, p + 1);
            if at < a <= s.len() {
                match sp2_value(s, a) {
                    Some((v, q)) => Some((AbsIns::Assign(name, v), q)),
                    None => None,
                }
            } else {
                None
            }
        } else {
            None
        },
    }
}

/// An `if` statement with a braced body and an optional `else` block;
/// a present `else` whose block fails is an error.
pub open spec fn sp2_if(s: Seq<char>, at: int) -> Option<(AbsIns, int)>
    decreases s.len() - at, 27int,
        when 0 <= at <= s.len()
{
    if has_prefix(s, at, "if"@) {
        let a = ws_end(s, at + 2);
        if at < a <= s.len() {
            match sp2_value(s, a) {
                None => None,
                Some((cond, p)) => if at < p <= s.len() {
                    match sp2_block(s, p) {
                        None => None,
                        Some((body, p2)) => if at < p2 <= s.len() {
                            if has_prefix(s, p2, "else"@) {
                                let a2 = ws_end(s, p2 + 4);
                                if at < a2 <= s.len() {
                                    match sp2_block(s, a2) {
                                        Some((eb, p3)) => Some(
                                            (AbsIns::If(cond, body, Some(eb)), p3),
                                        ),
                                        None => None,
                                    }
                                } else {
                                    None
                                }
                            } else {
                                Some((AbsIns::If(cond, body, None), p2))
                            }
                        } else {
                            None
                        },
                    }
                } else {
                    None
                },
            }
        } else {
            None
        }
    } else {
        None
    }
}

/// A braced block of instructions.
pub open spec fn sp2_block(s: Seq<char>, at: int) -> Option<(Seq<AbsIns>, int)>
    decreases s.len() - at, 29int,
        when 0 <= at <= s.len()
{
    if at < s.len() && s[at] == '{' {
        let a = ws_end(s, at + 1);
        if at < a <= s.len() {
            let (list, p) = sp2_instructions(s, a);
            if a <= p && p < s.len() && s[p] == '}' {
                Some((list, ws_end(s, p + 1)))
            } else {
                None
            }
        } else {
            None
        }
    } else {
        None
    }
}

/// One instruction, by ordered choice: an exit, an if, an assignment,
/// a bare value.
pub open spec fn sp2_instruction(s: Seq<char>, at: int) -> Option<(AbsIns, int)>
    decreases s.len() - at, 28int,
        when 0 <= at <= s.len()
{
    if sp2_exit(s, at) is Some {
        sp2_exit(s, at)
    } else if sp2_if(s, at) is Some {
        sp2_if(s, at)
    } else if sp2_assign(s, at) is Some {
        sp2_assign(s, at)
    } else {
        match sp2_value(s, at) {
            Some((v, p)) => Some((AbsIns::Value(v), p)),
            None => None,
        }
    }
}

/// The position after any run of comments.
pub open spec fn comments_end(s: Seq<char>, at: int) -> int
    decreases s.len() - at, 6int,
        when 0 <= at <= s.len()
{
    match sp2_comment(s, at) {
        Some(p) => if at < p <= s.len() {
            comments_end(s, p)
        } else {
            at
        },
        None => at,
    }
}

/// The instruction list: comments are skipped before each
/// instruction, and the list ends at the first position where no
/// instruction parses or the input is exhausted. It never fails.
pub open spec fn sp2_instructions(s: Seq<char>, at: int) -> (Seq<AbsIns>, int)
    decreases s.len() - at, 30int,
        when 0 <= at <= s.len()
{
    let c = comments_end(s, at);
    if at <= c <= s.len() {
        match sp2_instruction(s, c) {
            None => (Seq::empty(), c),
            Some((i, p)) => if at < p <= s.len() {
                if p >= s.len() {
                    (seq![i], p)
                } else {
                    let rest = sp2_instructions(s, p);
                    (seq![i] + rest.0, rest.1)
                }
            } else {
                (Seq::empty(), c)
            },
        }
    } else {
        (Seq::empty(), at)
    }
}

/// The outcome of a production: the position after it and its result,
/// or the position and width of the text it failed at, with a message.
pub type ParserResult<T> = Result<(usize, T), ((usize, usize), &'static str)>;

/// The parser: it owns the source text and works through character
/// positions into it.
pub struct Parser {
    pub input: String,
}

fn ws_end_exec(s: &str, at: usize, n: usize) -> (r: usize)
    requires
        n == s@.len(),
        at <= n,
    ensures
        r == ws_end(s@, at as int),
        at <= r <= n,
{
    proof {
        lemma_ws_end(s@, at as int);
    }
    let mut i = at;
    while i < n
        invariant
            at <= i <= n,
            n == s@.len(),
            ws_end(s@, at as int) == ws_end(s@, i as int),
        decreases n - i,
    {
        let c = s.get_char(i);
        if !(c == ' ' || c == '\t' || c == '\n' || c == '\r') {
            return i;
        }
        i += 1;
    }
    i
}

fn ident2_end_exec(s: &str, at: usize, n: usize) -> (r: usize)
    requires
        n == s@.len(),
        at <= n,
    ensures
        r == ident2_end(s@, at as int),
        at <= r <= n,
{
    proof {
        lemma_ident2_end(s@, at as int);
    }
    let mut i = at;
    while i < n
        invariant
            at <= i <= n,
            n == s@.len(),
            ident2_end(s@, at as int) == ident2_end(s@, i as int),
        decreases n - i,
    {
        let c = s.get_char(i);
        let u = c as u32;
        if !(c == '_' || c == '-' || (97 <= u && u <= 122) || (65 <= u && u <= 90)) {
            return i;
        }
        i += 1;
    }
    i
}

fn punct_end_exec(s: &str, at: usize, n: usize) -> (r: usize)
    requires
        n == s@.len(),
        at <= n,
    ensures
        r == punct_end(s@, at as int),
        at <= r <= n,
{
    proof {
        lemma_punct_end(s@, at as int);
    }
    let mut i = at;
    while i < n
        invariant
            at <= i <= n,
            n == s@.len(),
            punct_end(s@, at as int) == punct_end(s@, i as int),
        decreases n - i,
    {
        let u = s.get_char(i) as u32;
        if !((33 <= u && u <= 47) || (58 <= u && u <= 64) || (91 <= u && u <= 96) || (123 <= u && u
            <= 126)) {
            return i;
        }
        i += 1;
    }
    i
}

fn hash_end_exec(s: &str, at: usize, n: usize) -> (r: usize)
    requires
        n == s@.len(),
        at <= n,
    ensures
        r == hash_end(s@, at as int),
        at <= r <= n,
{
    proof {
        lemma_hash_end(s@, at as int);
    }
    let mut i = at;
    while i < n
        invariant
            at <= i <= n,
            n == s@.len(),
            hash_end(s@, at as int) == hash_end(s@, i as int),
        decreases n - i,
    {
        if s.get_char(i) != '#' {
            return i;
        }
        i += 1;
    }
    i
}

fn find_char_exec(s: &str, at: usize, n: usize, c: char) -> (r: usize)
    requires
        n == s@.len(),
        at <= n,
    ensures
        r == find_char(s@, at as int, c),
        at <= r <= n,
{
    proof {
        lemma_find_char(s@, at as int, c);
    }
    let mut i = at;
    while i < n
        invariant
            at <= i <= n,
            n == s@.len(),
            find_char(s@, at as int, c) == find_char(s@, i as int, c),
        decreases n - i,
    {
        if s.get_char(i) == c {
            return i;
        }
        i += 1;
    }
    i
}

impl Parser {
    /// A parser over the given source text.
    pub fn new(input: &str) -> (p: Parser)
        ensures
            p.input@ == input@,
    {
        Parser { input: input.to_owned() }
    }

    /// Parses a whole source text. It never fails: parsing stops at
    /// the first position where no instruction matches, and whatever
    /// parsed so far is the result.
    pub fn parse(input: &str) -> (r: Result<Vec<Instruction>, ((usize, usize), &'static str)>)
        ensures
            r is Ok,
            r matches Ok(instrs) ==> abs_ins_list(instrs@) == sp2_instructions(input@, 0).0,
    {
        let parser = Self::new(input);
        match parser.parse_instructions(0) {
            Ok((_, instrs)) => Ok(instrs),
            Err(e) => Err(e),
        }
    }

    /// The position where an error at `at` is reported: the first
    /// non-whitespace position at or after it.
    pub fn get_err_index(&self, at: usize) -> (r: usize)
        requires
            at <= self.input@.len(),
        ensures
            r == ws_end(self.input@, at as int),
    {
        ws_end_exec(self.input.as_str(), at, self.input.as_str().unicode_len())
    }

    /// Whether the input continues with the given word at `at`.
    fn prefix_is(&self, at: usize, w: &str) -> (r: bool)
        requires
            at <= self.input@.len(),
        ensures
            r == has_prefix(self.input@, at as int, w@),
    {
        let s = self.input.as_str();
        let n = s.unicode_len();
        let wl = w.unicode_len();
        if wl <= n - at {
            crate::htn_vm::str_eq(s.substring_char(at, at + wl), w)
        } else {
            false
        }
    }

    /// A `#` comment and its trailing whitespace.
    pub fn parse_comment(&self, at: usize) -> (r: ParserResult<()>)
        requires
            at <= self.input@.len(),
        ensures
            match r {
                Ok((q, _)) => sp2_comment(self.input@, at as int) == Some(q as int) && q
                    <= self.input@.len(),
                Err(..) => sp2_comment(self.input@, at as int) is None,
            },
    {
        let s = self.input.as_str();
        let n = s.unicode_len();
        if at < n && s.get_char(at) == '#' {
            let h = hash_end_exec(s, at, n);
            let nl = find_char_exec(s, h, n, '\n');
            if nl >= n {
                Ok((n, ()))
            } else {
                Ok((ws_end_exec(s, nl, n), ()))
            }
        } else {
            Err(((self.get_err_index(at), 1), "Expected comment"))
        }
    }

    /// The end state after `exit`.
    pub fn parse_end_state(&self, at: usize) -> (r: ParserResult<EndState>)
        requires
            at <= self.input@.len(),
        ensures
            match r {
                Ok((q, st)) => sp2_end_state(self.input@, at as int) == Some((st, q as int))
                    && at < q <= self.input@.len(),
                Err(..) => sp2_end_state(self.input@, at as int) is None,
            },
    {
        let s = self.input.as_str();
        let n = s.unicode_len();
        if at < n && s.get_char(at) == 'S' {
            Ok((ws_end_exec(s, at + 1, n), EndState::Success))
        } else if at < n && s.get_char(at) == 'F' {
            Ok((ws_end_exec(s, at + 1, n), EndState::Failure))
        } else if at < n && s.get_char(at) == 'R' {
            Ok((ws_end_exec(s, at + 1, n), EndState::Running))
        } else if self.prefix_is(at, "Success") {
            proof {
                reveal_strlit("Success");
            }
            Ok((ws_end_exec(s, at + 7, n), EndState::Success))
        } else if self.prefix_is(at, "Failure") {
            proof {
                reveal_strlit("Failure");
            }
            Ok((ws_end_exec(s, at + 7, n), EndState::Failure))
        } else if self.prefix_is(at, "Running") {
            proof {
                reveal_strlit("Running");
            }
            Ok((ws_end_exec(s, at + 7, n), EndState::Running))
        } else {
            Err(((self.get_err_index(at), 1), "Expected valid end state: Success, Failure, or Running"))
        }
    }

    /// A binary operator: the punctuation run at `at`, which must
    /// spell one of the accepted symbols.
    pub fn parse_operator(&self, at: usize) -> (r: ParserResult<Operator>)
        requires
            at <= self.input@.len(),
        ensures
            match r {
                Ok((q, op)) => sp2_operator(self.input@, at as int) == Some((op, q as int))
                    && at < q <= self.input@.len(),
                Err(..) => sp2_operator(self.input@, at as int) is None,
            },
    {
        let s = self.input.as_str();
        let n = s.unicode_len();
        let e = punct_end_exec(s, at, n);
        let w = if e == n {
            s.substring_char(at, at)
        } else {
            s.substring_char(at, e)
        };
        proof {
            assert(s@.subrange(at as int, at as int) =~= Seq::<char>::empty());
            assert(w@ == op_span(s@, at as int));
        }
        let wl = if e == n {
            0
        } else {
            e - at
        };
        let op = if crate::htn_vm::str_eq(w, "+") {
            Some(Operator::Add)
        } else if crate::htn_vm::str_eq(w, "-") {
            Some(Operator::Sub)
        } else if crate::htn_vm::str_eq(w, "*") {
            Some(Operator::Mul)
        } else if crate::htn_vm::str_eq(w, "/") {
            Some(Operator::Div)
        } else if crate::htn_vm::str_eq(w, "%") {
            Some(Operator::Mod)
        } else if crate::htn_vm::str_eq(w, "&&") {
            Some(Operator::And)
        } else if crate::htn_vm::str_eq(w, "||") {
            Some(Operator::Or)
        } else if crate::htn_vm::str_eq(w, "==") {
            Some(Operator::Eq)
        } else if crate::htn_vm::str_eq(w, "!=") {
            Some(Operator::Neq)
        } else if crate::htn_vm::str_eq(w, "<") {
            Some(Operator::Lt)
        } else if crate::htn_vm::str_eq(w, ">") {
            Some(Operator::Gt)
        } else if crate::htn_vm::str_eq(w, "<=") {
            Some(Operator::Lte)
        } else if crate::htn_vm::str_eq(w, ">=") {
            Some(Operator::Gte)
        } else {
            None
        };
        proof {
            assert(op == operator_of(op_span(s@, at as int)));
            if op is Some {
                reveal_strlit("+");
                reveal_strlit("-");
                reveal_strlit("*");
                reveal_strlit("/");
                reveal_strlit("%");
                reveal_strlit("&&");
                reveal_strlit("||");
                reveal_strlit("==");
                reveal_strlit("!=");
                reveal_strlit("<");
                reveal_strlit(">");
                reveal_strlit("<=");
                reveal_strlit(">=");
                assert(wl == op_span(s@, at as int).len());
            }
        }
        match op {
            Some(o) => Ok((ws_end_exec(s, at + wl, n), o)),
            None => Err(((self.get_err_index(at), wl), "Invalid operator")),
        }
    }

    /// An identifier: underscores, hyphens and ASCII letters.
    pub fn parse_identifier(&self, at: usize) -> (r: ParserResult<String>)
        requires
            at <= self.input@.len(),
        ensures
            match r {
                Ok((q, w)) => sp2_identifier(self.input@, at as int) == Some((w@, q as int)) && at
                    < q <= self.input@.len(),
                Err(..) => sp2_identifier(self.input@, at as int) is None,
            },
    {
        let s = self.input.as_str();
        let n = s.unicode_len();
        let e = ident2_end_exec(s, at, n);
        if e == n || e == at {
            proof {
                assert(s@.subrange(at as int, at as int) =~= Seq::<char>::empty());
            }
            Err(((self.get_err_index(at), 1), "Expected valid identifier"))
        } else {
            let w = s.substring_char(at, e);
            proof {
                lemma_ws_end(s@, e as int);
            }
            Ok((ws_end_exec(s, e, n), w.to_owned()))
        }
    }

    /// A single-quoted string; the text between the quotes is taken
    /// literally.
    pub fn parse_string(&self, at: usize) -> (r: ParserResult<String>)
        requires
            at <= self.input@.len(),
        ensures
            match r {
                Ok((q, w)) => sp2_string(self.input@, at as int) == Some((w@, q as int))
                    && at < q <= self.input@.len(),
                Err(..) => sp2_string(self.input@, at as int) is None,
            },
    {
        let s = self.input.as_str();
        let n = s.unicode_len();
        if at < n && s.get_char(at) == '\'' {
            let e = find_char_exec(s, at + 1, n, '\'');
            if e >= n {
                Err(((self.get_err_index(at), 1), "Expected ending `'`"))
            } else {
                let w = s.substring_char(at + 1, e);
                Ok((ws_end_exec(s, e + 1, n), w.to_owned()))
            }
        } else {
            Err(((self.get_err_index(at), 1), "Expected starting `'`"))
        }
    }

    /// An integer: a digit run whose value fits in `i32`.
    pub fn parse_int(&self, at: usize) -> (r: ParserResult<i32>)
        requires
            at <= self.input@.len(),
        ensures
            match r {
                Ok((q, v)) => sp2_int(self.input@, at as int) == Some((v, q as int))
                    && at < q <= self.input@.len(),
                Err(..) => sp2_int(self.input@, at as int) is None,
            },
    {
        let s = self.input.as_str();
        let n = s.unicode_len();
        let e = digits_end_pub(s, at, n);
        if e == n || e == at {
            proof {
                assert(s@.subrange(at as int, at as int) =~= Seq::<char>::empty());
            }
            Err(((self.get_err_index(at), 0), "Expected an integer"))
        } else {
            proof {
                lemma_digits_end(s@, at as int);
            }
            match digits_value_pub(s, at, e) {
                Some(v) => {
                    proof {
                        assert(digit_span(s@, at as int) =~= s@.subrange(at as int, e as int));
                    }
                    Ok((ws_end_exec(s, e, n), v))
                },
                None => {
                    proof {
                        assert(digit_span(s@, at as int) =~= s@.subrange(at as int, e as int));
                    }
                    Err(((self.get_err_index(at), e - at), "Expected an integer"))
                },
            }
        }
    }

    /// A number; the float form is recognized nowhere, so this is an
    /// integer.
    pub fn parse_number(&self, at: usize) -> (r: ParserResult<Num>)
        requires
            at <= self.input@.len(),
        ensures
            match r {
                Ok((q, v)) => (sp2_int(self.input@, at as int) matches Some((i, qq)) && v
                    == Num::Int(i) && q as int == qq) && at < q <= self.input@.len(),
                Err(..) => sp2_int(self.input@, at as int) is None,
            },
    {
        match self.parse_float(at) {
            Ok(_) => Err(((self.get_err_index(at), 1), "Expected a number")),
            Err(_) => match self.parse_int(at) {
                Ok((q, v)) => Ok((q, Num::Int(v))),
                Err(e) => Err(e),
            },
        }
    }

    /// The float grammar was never written: this always fails.
    fn parse_float(&self, at: usize) -> (r: ParserResult<i32>)
        requires
            at <= self.input@.len(),
        ensures
            r is Err,
    {
        Err(((self.get_err_index(at), 1), "Expected a float"))
    }
}

/// `abs_pv_list` maps each expression to its view.
proof fn lemma_abs_pv_list_index(s: Seq<ParseValue>)
    ensures
        abs_pv_list(s).len() == s.len(),
        forall|j: int| 0 <= j < s.len() ==> #[trigger] abs_pv_list(s)[j] == s[j].view(),
    decreases s.len(),
{
    if s.len() > 0 {
        let sub = s.subrange(0, s.len() - 1);
        lemma_abs_pv_list_index(sub);
        let n = s.len() - 1;
        assert(abs_pv_list(s) == abs_pv_list(sub).push(s[n].view()));
        assert forall|j: int| 0 <= j < s.len() implies #[trigger] abs_pv_list(s)[j]
            == s[j].view() by {
            if j < n {
                assert(abs_pv_list(s)[j] == abs_pv_list(sub)[j]);
                assert(sub[j] == s[j]);
            }
        }
    }
}

/// `abs_ins_list` maps each instruction to its view.
proof fn lemma_abs_ins_list_index(s: Seq<Instruction>)
    ensures
        abs_ins_list(s).len() == s.len(),
        forall|j: int| 0 <= j < s.len() ==> #[trigger] abs_ins_list(s)[j] == s[j].view(),
    decreases s.len(),
{
    if s.len() > 0 {
        let sub = s.subrange(0, s.len() - 1);
        lemma_abs_ins_list_index(sub);
        let n = s.len() - 1;
        assert(abs_ins_list(s) == abs_ins_list(sub).push(s[n].view()));
        assert forall|j: int| 0 <= j < s.len() implies #[trigger] abs_ins_list(s)[j]
            == s[j].view() by {
            if j < n {
                assert(abs_ins_list(s)[j] == abs_ins_list(sub)[j]);
                assert(sub[j] == s[j]);
            }
        }
    }
}

impl Parser {
    /// A constant: a string, an integer, `Null`, `True` or `False`.
    pub fn parse_constant(&self, at: usize) -> (r: ParserResult<VmValue>)
        requires
            at <= self.input@.len(),
        ensures
            match r {
                Ok((q, v)) => sp2_constant(self.input@, at as int) == Some((v@, q as int))
                    && at < q <= self.input@.len(),
                Err(..) => sp2_constant(self.input@, at as int) is None,
            },
    {
        let s = self.input.as_str();
        let n = s.unicode_len();
        match self.parse_string(at) {
            Ok((q, w)) => {
                return Ok((q, VmValue::String(w)));
            },
            Err(_) => (),
        }
        match self.parse_number(at) {
            Ok((q, v)) => {
                return Ok((q, VmValue::Number(v)));
            },
            Err(_) => (),
        }
        if self.prefix_is(at, "Null") {
            proof {
                reveal_strlit("Null");
            }
            return Ok((ws_end_exec(s, at + 4, n), VmValue::Null));
        }
        if self.prefix_is(at, "True") {
            proof {
                reveal_strlit("True");
            }
            return Ok((ws_end_exec(s, at + 4, n), VmValue::Bool(true)));
        }
        if self.prefix_is(at, "False") {
            proof {
                reveal_strlit("False");
            }
            return Ok((ws_end_exec(s, at + 5, n), VmValue::Bool(false)));
        }
        Err(((self.get_err_index(at), 1), "Expected constant value"))
    }

    /// A value, by ordered choice: a parenthesized expression, a
    /// constant, a method call, a variable.
    pub fn parse_value(&self, at: usize) -> (r: ParserResult<ParseValue>)
        requires
            at <= self.input@.len(),
        ensures
            match r {
                Ok((q, v)) => sp2_value(self.input@, at as int) == Some((v@, q as int))
                    && at < q <= self.input@.len(),
                Err(..) => sp2_value(self.input@, at as int) is None,
            },
        decreases self.input@.len() - at, 20int,
    {
        match self.parse_expression(at) {
            Ok((q, v)) => {
                return Ok((q, v));
            },
            Err(_) => (),
        }
        match self.parse_constant(at) {
            Ok((q, v)) => {
                return Ok((q, ParseValue::Literal(v)));
            },
            Err(_) => (),
        }
        match self.parse_method_call(at) {
            Ok((q, v)) => {
                return Ok((q, v));
            },
            Err(_) => (),
        }
        match self.parse_identifier(at) {
            Ok((q, w)) => Ok((q, ParseValue::Variable(w))),
            Err(e) => Err(e),
        }
    }

    /// A parenthesized binary expression: `( value op value )`.
    pub fn parse_expression(&self, at: usize) -> (r: ParserResult<ParseValue>)
        requires
            at <= self.input@.len(),
        ensures
            match r {
                Ok((q, v)) => sp2_expression(self.input@, at as int) == Some((v@, q as int))
                    && at < q <= self.input@.len(),
                Err(..) => sp2_expression(self.input@, at as int) is None,
            },
        decreases self.input@.len() - at, 19int,
    {
        let s = self.input.as_str();
        let n = s.unicode_len();
        if !(at < n && s.get_char(at) == '(') {
            return Err(((self.get_err_index(at), 1), "Expected opening `(` for expression"));
        }
        let a1 = ws_end_exec(s, at + 1, n);
        let (p, l) = match self.parse_value(a1) {
            Ok(x) => x,
            Err(e) => {
                return Err(e);
            },
        };
        let (p2, op) = match self.parse_operator(p) {
            Ok(x) => x,
            Err(e) => {
                return Err(e);
            },
        };
        if !(at < p2) {
            return Err(((self.get_err_index(p2), 1), "Expected closing `)` for expression"));
        }
        let (p3, rr) = match self.parse_value(p2) {
            Ok(x) => x,
            Err(e) => {
                return Err(e);
            },
        };
        if p3 < n && s.get_char(p3) == ')' {
            Ok(
                (
                    ws_end_exec(s, p3 + 1, n),
                    ParseValue::Expression(Box::new(l), op, Box::new(rr)),
                ),
            )
        } else {
            Err(((self.get_err_index(p3), 1), "Expected closing `)` for expression"))
        }
    }

    /// A method call: `target.method(arguments)`.
    pub fn parse_method_call(&self, at: usize) -> (r: ParserResult<ParseValue>)
        requires
            at <= self.input@.len(),
        ensures
            match r {
                Ok((q, v)) => sp2_method_call(self.input@, at as int) == Some((v@, q as int))
                    && at < q <= self.input@.len(),
                Err(..) => sp2_method_call(self.input@, at as int) is None,
            },
        decreases self.input@.len() - at, 18int,
    {
        let s = self.input.as_str();
        let n = s.unicode_len();
        let (p, target) = match self.parse_identifier(at) {
            Ok(x) => x,
            Err(e) => {
                return Err(e);
            },
        };
        if !(p < n && s.get_char(p) == '.') {
            return Err(((self.get_err_index(p), 1), "Expected `.` for method call"));
        }
        let a2 = ws_end_exec(s, p + 1, n);
        let (p2, method) = match self.parse_identifier(a2) {
            Ok(x) => x,
            Err(e) => {
                return Err(e);
            },
        };
        if !(p2 < n && s.get_char(p2) == '(') {
            return Err(((self.get_err_index(p2), 1), "Missing `(` for method call"));
        }
        let a3 = ws_end_exec(s, p2 + 1, n);
        let (p3, args) = match self.parse_margs(a3) {
            Ok(x) => x,
            Err(e) => {
                return Err(e);
            },
        };
        if p3 < n {
            Ok((ws_end_exec(s, p3 + 1, n), ParseValue::CallMethod(target, method, args)))
        } else {
            Err(((self.get_err_index(p3), 1), "Missing `)` for method call"))
        }
    }

    /// A comma-separated argument list; the returned position is that
    /// of the closing parenthesis.
    fn parse_margs(&self, at: usize) -> (r: ParserResult<Vec<ParseValue>>)
        requires
            at <= self.input@.len(),
        ensures
            match r {
                Ok((q, args)) => sp2_margs(self.input@, at as int) == Some(
                    (abs_pv_list(args@), q as int),
                ) && at <= q <= self.input@.len(),
                Err(..) => sp2_margs(self.input@, at as int) is None,
            },
        decreases self.input@.len() - at, 21int,
    {
        let s = self.input.as_str();
        let n = s.unicode_len();
        if at < n && s.get_char(at) == ')' {
            proof {
                assert(abs_pv_list(Seq::<ParseValue>::empty()) =~= Seq::<AbsPv>::empty());
            }
            return Ok((at, Vec::new()));
        }
        let (p, v) = match self.parse_value(at) {
            Ok(x) => x,
            Err(e) => {
                return Err(e);
            },
        };
        let p2 = if p < n && s.get_char(p) == ',' {
            ws_end_exec(s, p + 1, n)
        } else {
            p
        };
        match self.parse_margs(p2) {
            Ok((q, rest)) => {
                let ghost gsrc = rest@;
                let ghost grest = abs_pv_list(rest@);
                let mut out = rest;
                out.insert(0, v);
                proof {
                    lemma_abs_pv_list_index(out@);
                    lemma_abs_pv_list_index(gsrc);
                    assert(out@.subrange(1, out@.len() as int) =~= gsrc);
                    assert(forall|j: int| 1 <= j < out@.len() ==> out@[j] == gsrc[j - 1]);
                    assert(abs_pv_list(out@) =~= seq![out@[0].view()] + grest);
                }
                Ok((q, out))
            },
            Err(e) => Err(e),
        }
    }

    /// An `exit` statement.
    pub fn parse_exit(&self, at: usize) -> (r: ParserResult<Instruction>)
        requires
            at <= self.input@.len(),
        ensures
            match r {
                Ok((q, i)) => sp2_exit(self.input@, at as int) == Some((i@, q as int))
                    && at < q <= self.input@.len(),
                Err(..) => sp2_exit(self.input@, at as int) is None,
            },
    {
        let s = self.input.as_str();
        let n = s.unicode_len();
        if !self.prefix_is(at, "exit") {
            return Err(((self.get_err_index(at), 1), "Expected `exit`"));
        }
        proof {
            reveal_strlit("exit");
        }
        let a = ws_end_exec(s, at + 4, n);
        match self.parse_end_state(a) {
            Ok((q, st)) => Ok((q, Instruction::Exit(st))),
            Err(e) => Err(e),
        }
    }

    /// An assignment: `identifier = value`.
    pub fn parse_assign(&self, at: usize) -> (r: ParserResult<Instruction>)
        requires
            at <= self.input@.len(),
        ensures
            match r {
                Ok((q, i)) => sp2_assign(self.input@, at as int) == Some((i@, q as int))
                    && at < q <= self.input@.len(),
                Err(..) => sp2_assign(self.input@, at as int) is None,
            },
        decreases self.input@.len() - at, 25int,
    {
        let s = self.input.as_str();
        let n = s.unicode_len();
        let (p, name) = match self.parse_identifier(at) {
            Ok(x) => x,
            Err(e) => {
                return Err(e);
            },
        };
        if !(p < n && s.get_char(p) == '=') {
            return Err(((self.get_err_index(p), 1), "Expected `=` for assignment"));
        }
        let a = ws_end_exec(s, p + 1, n);
        match self.parse_value(a) {
            Ok((q, v)) => Ok((q, Instruction::Assign(name, v))),
            Err(e) => Err(e),
        }
    }

    /// An `if` statement; a present `else` whose block fails is an
    /// error.
    pub fn parse_if(&self, at: usize) -> (r: ParserResult<Instruction>)
        requires
            at <= self.input@.len(),
        ensures
            match r {
                Ok((q, i)) => sp2_if(self.input@, at as int) == Some((i@, q as int))
                    && at < q <= self.input@.len(),
                Err(..) => sp2_if(self.input@, at as int) is None,
            },
        decreases self.input@.len() - at, 27int,
    {
        let s = self.input.as_str();
        let n = s.unicode_len();
        if !self.prefix_is(at, "if") {
            return Err(((self.get_err_index(at), 1), ""));
        }
        proof {
            reveal_strlit("if");
        }
        let a = ws_end_exec(s, at + 2, n);
        let (p, cond) = match self.parse_value(a) {
            Ok(x) => x,
            Err(e) => {
                return Err(e);
            },
        };
        let (p2, body) = match self.parse_block(p) {
            Ok(x) => x,
            Err(e) => {
                return Err(e);
            },
        };
        if self.prefix_is(p2, "else") {
            proof {
                reveal_strlit("else");
            }
            let a2 = ws_end_exec(s, p2 + 4, n);
            match self.parse_block(a2) {
                Ok((p3, eb)) => Ok((p3, Instruction::If(cond, body, Some(eb)))),
                Err(e) => Err(e),
            }
        } else {
            Ok((p2, Instruction::If(cond, body, None)))
        }
    }

    /// A braced block of instructions.
    pub fn parse_block(&self, at: usize) -> (r: ParserResult<Vec<Instruction>>)
        requires
            at <= self.input@.len(),
        ensures
            match r {
                Ok((q, list)) => sp2_block(self.input@, at as int) == Some(
                    (abs_ins_list(list@), q as int),
                ) && at < q <= self.input@.len(),
                Err(..) => sp2_block(self.input@, at as int) is None,
            },
        decreases self.input@.len() - at, 29int,
    {
        let s = self.input.as_str();
        let n = s.unicode_len();
        if !(at < n && s.get_char(at) == '{') {
            return Err(((self.get_err_index(at), 1), "Expected opening `{`"));
        }
        let a = ws_end_exec(s, at + 1, n);
        let (p, list) = match self.parse_instructions(a) {
            Ok(x) => x,
            Err(e) => {
                return Err(e);
            },
        };
        if p < n && s.get_char(p) == '}' {
            Ok((ws_end_exec(s, p + 1, n), list))
        } else {
            Err(((self.get_err_index(p), 1), "Expected closing `}`"))
        }
    }

    /// One instruction, by ordered choice: an exit, an if, an
    /// assignment, a bare value.
    pub fn parse_instruction(&self, at: usize) -> (r: ParserResult<Instruction>)
        requires
            at <= self.input@.len(),
        ensures
            match r {
                Ok((q, i)) => sp2_instruction(self.input@, at as int) == Some((i@, q as int))
                    && at < q <= self.input@.len(),
                Err(..) => sp2_instruction(self.input@, at as int) is None,
            },
        decreases self.input@.len() - at, 28int,
    {
        match self.parse_exit(at) {
            Ok((q, i)) => {
                return Ok((q, i));
            },
            Err(_) => (),
        }
        match self.parse_if(at) {
            Ok((q, i)) => {
                return Ok((q, i));
            },
            Err(_) => (),
        }
        match self.parse_assign(at) {
            Ok((q, i)) => {
                return Ok((q, i));
            },
            Err(_) => (),
        }
        match self.parse_value(at) {
            Ok((q, v)) => Ok((q, Instruction::Value(Box::new(v)))),
            Err(..) => Err(((self.get_err_index(at), 1), "Invalid instruction")),
        }
    }

    /// The position after any run of comments.
    fn comments_end_exec(&self, at: usize) -> (r: usize)
        requires
            at <= self.input@.len(),
        ensures
            r == comments_end(self.input@, at as int),
            at <= r <= self.input@.len(),
    {
        let mut i = at;
        let ghost s = self.input@;
        loop
            invariant
                at <= i <= s.len(),
                s == self.input@,
                comments_end(s, at as int) == comments_end(s, i as int),
            decreases s.len() - i,
        {
            match self.parse_comment(i) {
                Ok((q, _)) => {
                    if i < q {
                        i = q;
                    } else {
                        return i;
                    }
                },
                Err(_) => {
                    return i;
                },
            }
        }
    }

    /// The instruction list: comments are skipped before each
    /// instruction, and parsing stops at the first position where no
    /// instruction matches or the input is exhausted. It never fails.
    pub fn parse_instructions(&self, at: usize) -> (r: ParserResult<Vec<Instruction>>)
        requires
            at <= self.input@.len(),
        ensures
            r is Ok,
            match r {
                Ok((q, list)) => sp2_instructions(self.input@, at as int) == (
                    abs_ins_list(list@),
                    q as int,
                ) && at <= q <= self.input@.len(),
                Err(..) => false,
            },
        decreases self.input@.len() - at, 30int,
    {
        proof {
            assert(abs_ins_list(Seq::<Instruction>::empty()) =~= Seq::<AbsIns>::empty());
        }
        let n = self.input.as_str().unicode_len();
        let c = self.comments_end_exec(at);
        match self.parse_instruction(c) {
            Err(_) => Ok((c, Vec::new())),
            Ok((p, i)) => {
                if p >= n {
                    let mut out: Vec<Instruction> = Vec::new();
                    out.push(i);
                    proof {
                        lemma_abs_ins_list_index(out@);
                        assert(abs_ins_list(out@) =~= seq![out@[0].view()]);
                    }
                    Ok((p, out))
                } else {
                    match self.parse_instructions(p) {
                        Ok((q, rest)) => {
                            let ghost gsrc = rest@;
                            let ghost grest = abs_ins_list(rest@);
                            let mut out = rest;
                            out.insert(0, i);
                            proof {
                                lemma_abs_ins_list_index(out@);
                                lemma_abs_ins_list_index(gsrc);
                                assert(out@.subrange(1, out@.len() as int) =~= gsrc);
                                assert(forall|j: int|
                                    1 <= j < out@.len() ==> out@[j] == gsrc[j - 1]);
                                assert(abs_ins_list(out@) =~= seq![out@[0].view()] + grest);
                            }
                            Ok((q, out))
                        },
                        Err(e) => Err(e),
                    }
                }
            },
        }
    }
}

/// The end of a digit run.
fn digits_end_pub(s: &str, at: usize, n: usize) -> (r: usize)
    requires
        n == s@.len(),
        at <= n,
    ensures
        r == digits_end(s@, at as int),
        at <= r <= n,
{
    proof {
        lemma_digits_end(s@, at as int);
    }
    let mut i = at;
    while i < n
        invariant
            at <= i <= n,
            n == s@.len(),
            digits_end(s@, at as int) == digits_end(s@, i as int),
        decreases n - i,
    {
        let u = s.get_char(i) as u32;
        if !(48 <= u && u <= 57) {
            return i;
        }
        i += 1;
    }
    i
}

/// The value of a digit run, or `None` when it exceeds `i32`.
fn digits_value_pub(s: &str, at: usize, e: usize) -> (r: Option<i32>)
    requires
        at <= e <= s@.len(),
        forall|j: int| at <= j < e ==> is_digit(#[trigger] s@[j]),
    ensures
        match r {
            Some(v) => digits_val(s@.subrange(at as int, e as int)) == v as int,
            None => digits_val(s@.subrange(at as int, e as int)) > i32::MAX,
        },
{
    crate::lexer::digits_value_exec(s, at, e)
}

} // verus!
