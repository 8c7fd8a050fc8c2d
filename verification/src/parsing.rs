//! The abstract syntax: statements and expression trees, as the parser
//! produces them and the emitter lowers them.

use vstd::prelude::*;

use crate::htn_vm::{AbsVal, EndState};
use crate::lexer::{abs_toks, AbsTok};
use crate::tokens::{FlowSym, HtnToken, Keyword, OpSym, VmValue};

verus! {

broadcast use vstd::std_specs::vec::axiom_vec_index_decreases, vstd::seq::axiom_seq_index_decreases, vstd::std_specs::vec::axiom_vec_decreases_to_view;

/// A statement.
#[derive(Debug, PartialEq, Eq)]
pub enum HtnInstr {
    Assign(String, ParseValue),
    If(ParseValue, Vec<HtnInstr>, Option<Vec<HtnInstr>>),
    Exit(EndState),
    Value(ParseValue),
    Noop,
}

/// A binary operator of the expression grammar.
#[derive(Debug, Clone, Copy, PartialEq, Eq, Structural)]
pub enum BinaryOp {
    Add,
    Sub,
    Mul,
    Div,
    Mod,
    And,
    Or,
    Eq,
    Neq,
    Lt,
    Gt,
    Lte,
    Gte,
}

/// A unary operator of the expression grammar.
#[derive(Debug, Clone, Copy, PartialEq, Eq, Structural)]
pub enum UnaryOp {
    Not,
    Neg,
    Dbg,
}

/// An expression. `Index` is parsed nowhere in the current grammar and
/// has no lowering; the emitter rejects a tree that contains it rather
/// than guess its bytecode.
#[derive(Debug, PartialEq, Eq)]
pub enum ParseValue {
    Literal(VmValue),
    Variable(String),
    Index(Box<ParseValue>, Box<ParseValue>),
    Call(Box<ParseValue>, Vec<ParseValue>),
    Access(Box<ParseValue>, String),
    Expression(Box<ParseValue>, BinaryOp, Box<ParseValue>),
    NullCoalesce(Box<ParseValue>, Box<ParseValue>),
    Unary(UnaryOp, Box<ParseValue>),
    Object(Vec<(String, ParseValue)>),
}

/// The mathematical value of an expression.
pub enum AbsExpr {
    Literal(AbsVal),
    Variable(Seq<char>),
    Index(Box<AbsExpr>, Box<AbsExpr>),
    Call(Box<AbsExpr>, Seq<AbsExpr>),
    Access(Box<AbsExpr>, Seq<char>),
    Expression(Box<AbsExpr>, BinaryOp, Box<AbsExpr>),
    NullCoalesce(Box<AbsExpr>, Box<AbsExpr>),
    Unary(UnaryOp, Box<AbsExpr>),
    Object(Seq<(Seq<char>, AbsExpr)>),
}

/// The mathematical value of a statement.
pub enum AbsInstr {
    Assign(Seq<char>, AbsExpr),
    If(AbsExpr, Seq<AbsInstr>, Option<Seq<AbsInstr>>),
    Exit(EndState),
    Value(AbsExpr),
    Noop,
}

pub open spec fn abs_expr_list(s: Seq<ParseValue>) -> Seq<AbsExpr>
    decreases s, 1int,
{
    if s.len() == 0 {
        Seq::empty()
    } else {
        let n = s.len() - 1;
        abs_expr_list(s.subrange(0, n)).push(s[n].view())
    }
}

pub open spec fn abs_expr_fields(s: Seq<(String, ParseValue)>) -> Seq<(Seq<char>, AbsExpr)>
    decreases s, 1int,
{
    if s.len() == 0 {
        Seq::empty()
    } else {
        let n = s.len() - 1;
        abs_expr_fields(s.subrange(0, n)).push((s[n].0@, s[n].1.view()))
    }
}

impl View for ParseValue {
    type V = AbsExpr;

    open spec fn view(&self) -> AbsExpr
        decreases self, 0int,
    {
        match self {
            ParseValue::Literal(v) => AbsExpr::Literal(v.view()),
            ParseValue::Variable(name) => AbsExpr::Variable(name@),
            ParseValue::Index(t, k) => AbsExpr::Index(Box::new((**t).view()), Box::new((**k).view())),
            ParseValue::Call(t, args) => AbsExpr::Call(Box::new((**t).view()), abs_expr_list(args@)),
            ParseValue::Access(t, key) => AbsExpr::Access(Box::new((**t).view()), key@),
            ParseValue::Expression(l, op, r) => AbsExpr::Expression(
                Box::new((**l).view()),
                *op,
                Box::new((**r).view()),
            ),
            ParseValue::NullCoalesce(l, r) => AbsExpr::NullCoalesce(
                Box::new((**l).view()),
                Box::new((**r).view()),
            ),
            ParseValue::Unary(op, t) => AbsExpr::Unary(*op, Box::new((**t).view())),
            ParseValue::Object(fields) => AbsExpr::Object(abs_expr_fields(fields@)),
        }
    }
}

pub open spec fn abs_instrs(s: Seq<HtnInstr>) -> Seq<AbsInstr>
    decreases s, 1int,
{
    if s.len() == 0 {
        Seq::empty()
    } else {
        let n = s.len() - 1;
        abs_instrs(s.subrange(0, n)).push(s[n].view())
    }
}

impl View for HtnInstr {
    type V = AbsInstr;

    open spec fn view(&self) -> AbsInstr
        decreases self, 0int,
    {
        match self {
            HtnInstr::Assign(name, v) => AbsInstr::Assign(name@, v.view()),
            HtnInstr::If(cond, a, b) => AbsInstr::If(
                cond.view(),
                abs_instrs(a@),
                match b {
                    Some(bv) => Some(abs_instrs(bv@)),
                    None => None,
                },
            ),
            HtnInstr::Exit(state) => AbsInstr::Exit(*state),
            HtnInstr::Value(v) => AbsInstr::Value(v.view()),
            HtnInstr::Noop => AbsInstr::Noop,
        }
    }
}

/// Whether every backslash in a double-quoted string's raw text is
/// followed by one of the accepted escape characters.
pub open spec fn well_escaped(s: Seq<char>) -> bool
    decreases s.len(),
{
    if s.len() == 0 {
        true
    } else if s[0] == '\\' {
        s.len() >= 2 && crate::lexer::is_escape_char(s[1]) && well_escaped(
            s.subrange(2, s.len() as int),
        )
    } else {
        well_escaped(s.subrange(1, s.len() as int))
    }
}

/// The character an escape letter denotes.
pub open spec fn escape_of(c: char) -> char {
    if c == 'b' {
        '\u{0008}'
    } else if c == 'f' {
        '\u{000C}'
    } else if c == 'n' {
        '\n'
    } else if c == 'r' {
        '\r'
    } else if c == 't' {
        '\t'
    } else {
        c
    }
}

/// The decoded text of a well-escaped double-quoted string body.
pub open spec fn decode_escapes(s: Seq<char>) -> Seq<char>
    decreases s.len(),
{
    if s.len() == 0 {
        Seq::empty()
    } else if s[0] == '\\' && s.len() >= 2 {
        seq![escape_of(s[1])] + decode_escapes(s.subrange(2, s.len() as int))
    } else {
        seq![s[0]] + decode_escapes(s.subrange(1, s.len() as int))
    }
}

/// The text of a single-quoted string body with each doubled quote
/// collapsed to one.
pub open spec fn collapse_quotes(s: Seq<char>) -> Seq<char>
    decreases s.len(),
{
    if s.len() == 0 {
        Seq::empty()
    } else if s[0] == '\'' && s.len() >= 2 && s[1] == '\'' {
        seq!['\''] + collapse_quotes(s.subrange(2, s.len() as int))
    } else {
        seq![s[0]] + collapse_quotes(s.subrange(1, s.len() as int))
    }
}

/// Relies on `unescape::unescape`: for text in which every backslash
/// precedes one of `b f n r t " \`, it returns exactly the text with
/// those escapes decoded.
#[verifier::external_body]
fn unescape_str(s: &str) -> (r: Option<String>)
    ensures
        r is Some || !well_escaped(s@),
        well_escaped(s@) && r is Some ==> r->0@ == decode_escapes(s@),
{
    unescape::unescape(s)
}

/// The first index of an expression field list whose key is `key`, or
/// -1.
pub open spec fn expr_field_find(fields: Seq<(Seq<char>, AbsExpr)>, key: Seq<char>) -> int
    decreases fields.len(),
{
    if fields.len() == 0 {
        -1
    } else if fields[0].0 == key {
        0
    } else {
        let r = expr_field_find(fields.subrange(1, fields.len() as int), key);
        if r < 0 {
            -1
        } else {
            r + 1
        }
    }
}

/// Store an expression under a key: an existing key keeps its place
/// and gets the new expression; a new key is appended last.
pub open spec fn expr_field_set(
    fields: Seq<(Seq<char>, AbsExpr)>,
    key: Seq<char>,
    value: AbsExpr,
) -> Seq<(Seq<char>, AbsExpr)> {
    let i = expr_field_find(fields, key);
    if i >= 0 {
        fields.update(i, (key, value))
    } else {
        fields.push((key, value))
    }
}

/// An object literal's fields with repeated keys folded: a repeated
/// key keeps its first position and its last expression.
pub open spec fn dedup_fields(pairs: Seq<(Seq<char>, AbsExpr)>) -> Seq<(Seq<char>, AbsExpr)>
    decreases pairs.len(),
{
    if pairs.len() == 0 {
        Seq::empty()
    } else {
        let n = pairs.len() - 1;
        expr_field_set(dedup_fields(pairs.subrange(0, n)), pairs[n].0, pairs[n].1)
    }
}

/// The string value a string-literal token denotes: a double-quoted
/// body with its escapes decoded (a bad escape fails the production),
/// a single-quoted body with doubled quotes collapsed.
pub open spec fn sp_strlit(toks: Seq<AbsTok>, pos: int) -> Option<(Seq<char>, int)>
    recommends
        0 <= pos,
{
    if pos < toks.len() {
        match toks[pos] {
            AbsTok::EscStr(t) => if well_escaped(t) {
                Some((decode_escapes(t), pos + 1))
            } else {
                None
            },
            AbsTok::RawStr(t) => Some((collapse_quotes(t), pos + 1)),
            _ => None,
        }
    } else {
        None
    }
}

/// The binary operator a token denotes at a precedence tier: tier 1 is
/// `* / %`, tier 2 `+ -`, tier 3 the comparisons, tier 4 `&&`, tier 5
/// `||`.
pub open spec fn tier_op(tier: int, t: AbsTok) -> Option<BinaryOp> {
    match t {
        AbsTok::OpSym(o) => {
            if tier == 1 {
                match o {
                    OpSym::Mul => Some(BinaryOp::Mul),
                    OpSym::Div => Some(BinaryOp::Div),
                    OpSym::Mod => Some(BinaryOp::Mod),
                    _ => None,
                }
            } else if tier == 2 {
                match o {
                    OpSym::Add => Some(BinaryOp::Add),
                    OpSym::Sub => Some(BinaryOp::Sub),
                    _ => None,
                }
            } else if tier == 3 {
                match o {
                    OpSym::Lt => Some(BinaryOp::Lt),
                    OpSym::Gt => Some(BinaryOp::Gt),
                    OpSym::Lte => Some(BinaryOp::Lte),
                    OpSym::Gte => Some(BinaryOp::Gte),
                    OpSym::Eq => Some(BinaryOp::Eq),
                    OpSym::Neq => Some(BinaryOp::Neq),
                    _ => None,
                }
            } else if tier == 4 {
                match o {
                    OpSym::And => Some(BinaryOp::And),
                    _ => None,
                }
            } else if tier == 5 {
                match o {
                    OpSym::Or => Some(BinaryOp::Or),
                    _ => None,
                }
            } else {
                None
            }
        },
        _ => None,
    }
}

/// The unary operator a token denotes.
pub open spec fn unary_of(t: AbsTok) -> Option<UnaryOp> {
    match t {
        AbsTok::OpSym(o) => match o {
            OpSym::Not => Some(UnaryOp::Not),
            OpSym::Sub => Some(UnaryOp::Neg),
            OpSym::Dbg => Some(UnaryOp::Dbg),
            _ => None,
        },
        _ => None,
    }
}

/// The end state an identifier names after `exit`.
pub open spec fn end_state_of(w: Seq<char>) -> Option<EndState> {
    if w == "Success"@ || w == "S"@ {
        Some(EndState::Success)
    } else if w == "Failure"@ || w == "F"@ {
        Some(EndState::Failure)
    } else if w == "Running"@ || w == "C"@ {
        Some(EndState::Running)
    } else {
        None
    }
}

/// A full expression: the loosest tier.
pub open spec fn sp_value(toks: Seq<AbsTok>, pos: int) -> Option<(AbsExpr, int)>
    decreases toks.len() - pos, 16int,
        when 0 <= pos <= toks.len()
{
    sp_tier(toks, pos, 5)
}

/// One precedence tier: a lower-tier expression, optionally followed
/// by one of the tier's operators and a right-recursive tail of the
/// same tier (so `a + b + c` parses as `a + (b + c)`); if the tail
/// fails, the lower-tier expression alone is the result.
pub open spec fn sp_tier(toks: Seq<AbsTok>, pos: int, tier: int) -> Option<(AbsExpr, int)>
    decreases toks.len() - pos, 10int + tier,
        when 0 <= pos <= toks.len() && 0 <= tier <= 5
{
    if tier <= 0 {
        sp_ts(toks, pos)
    } else {
        match sp_tier(toks, pos, tier - 1) {
            None => None,
            Some((l, p)) => if pos < p && p < toks.len() {
                match tier_op(tier, toks[p]) {
                    Some(op) => match sp_tier(toks, p + 1, tier) {
                        Some((r, q)) => Some(
                            (AbsExpr::Expression(Box::new(l), op, Box::new(r)), q),
                        ),
                        None => Some((l, p)),
                    },
                    None => Some((l, p)),
                }
            } else {
                Some((l, p))
            },
        }
    }
}

/// A unary-or-atom expression followed by its postfix suffixes.
pub open spec fn sp_ts(toks: Seq<AbsTok>, pos: int) -> Option<(AbsExpr, int)>
    decreases toks.len() - pos, 9int,
        when 0 <= pos <= toks.len()
{
    match sp_tu(toks, pos) {
        None => None,
        Some((b, p)) => if pos < p <= toks.len() {
            Some(sp_suffixes(toks, p, b))
        } else {
            Some((b, p))
        },
    }
}

/// The postfix suffixes applied left to right: a call argument list, a
/// member access, or a null-coalescing right-hand side. The fold stops
/// at the first position where no suffix parses.
pub open spec fn sp_suffixes(toks: Seq<AbsTok>, pos: int, base: AbsExpr) -> (AbsExpr, int)
    decreases toks.len() - pos, 17int,
        when 0 <= pos <= toks.len()
{
    if pos >= toks.len() {
        (base, pos)
    } else {
        match toks[pos] {
            AbsTok::FlowSym(FlowSym::OpenParen) => match sp_args(toks, pos + 1) {
                Some((args, q)) => if pos < q <= toks.len() {
                    sp_suffixes(toks, q, AbsExpr::Call(Box::new(base), args))
                } else {
                    (base, pos)
                },
                None => (base, pos),
            },
            AbsTok::FlowSym(FlowSym::Dot) => if pos + 1 < toks.len() && toks[pos + 1] is Ident {
                sp_suffixes(
                    toks,
                    pos + 2,
                    AbsExpr::Access(Box::new(base), toks[pos + 1]->Ident_0),
                )
            } else {
                (base, pos)
            },
            AbsTok::OpSym(OpSym::NullC) => match sp_value(toks, pos + 1) {
                Some((r, q)) => if pos < q <= toks.len() {
                    sp_suffixes(toks, q, AbsExpr::NullCoalesce(Box::new(base), Box::new(r)))
                } else {
                    (base, pos)
                },
                None => (base, pos),
            },
            _ => (base, pos),
        }
    }
}

/// A call's argument list after the opening parenthesis: expressions
/// separated by commas, a trailing comma allowed, closed by `)`. The
/// returned position is after the closing parenthesis.
pub open spec fn sp_args(toks: Seq<AbsTok>, pos: int) -> Option<(Seq<AbsExpr>, int)>
    decreases toks.len() - pos, 18int,
        when 0 <= pos <= toks.len()
{
    if pos < toks.len() && toks[pos] == AbsTok::FlowSym(FlowSym::CloseParen) {
        Some((Seq::empty(), pos + 1))
    } else {
        match sp_value(toks, pos) {
            None => None,
            Some((v, p)) => if pos < p && p < toks.len() {
                if toks[p] == AbsTok::FlowSym(FlowSym::Comma) {
                    match sp_args(toks, p + 1) {
                        Some((rest, q)) => Some((seq![v] + rest, q)),
                        None => None,
                    }
                } else if toks[p] == AbsTok::FlowSym(FlowSym::CloseParen) {
                    Some((seq![v], p + 1))
                } else {
                    None
                }
            } else {
                None
            },
        }
    }
}

/// An object literal's fields after the opening brace: string-literal
/// keys, each with a colon and an expression, separated by commas, a
/// trailing comma allowed, closed by `}`. The returned position is
/// after the closing brace.
pub open spec fn sp_obj(toks: Seq<AbsTok>, pos: int) -> Option<
    (Seq<(Seq<char>, AbsExpr)>, int),
>
    decreases toks.len() - pos, 18int,
        when 0 <= pos <= toks.len()
{
    if pos < toks.len() && toks[pos] == AbsTok::FlowSym(FlowSym::CloseBrace) {
        Some((Seq::empty(), pos + 1))
    } else {
        match sp_strlit(toks, pos) {
            None => None,
            Some((k, p1)) => if p1 < toks.len() && toks[p1] == AbsTok::FlowSym(FlowSym::Colon)
                && pos < p1 {
                match sp_value(toks, p1 + 1) {
                    None => None,
                    Some((v, p2)) => if p1 < p2 && p2 < toks.len() {
                        if toks[p2] == AbsTok::FlowSym(FlowSym::Comma) {
                            match sp_obj(toks, p2 + 1) {
                                Some((rest, q)) => Some((seq![(k, v)] + rest, q)),
                                None => None,
                            }
                        } else if toks[p2] == AbsTok::FlowSym(FlowSym::CloseBrace) {
                            Some((seq![(k, v)], p2 + 1))
                        } else {
                            None
                        }
                    } else {
                        None
                    },
                }
            } else {
                None
            },
        }
    }
}

/// A unary operator applied to an atom, or an atom.
pub open spec fn sp_tu(toks: Seq<AbsTok>, pos: int) -> Option<(AbsExpr, int)>
    decreases toks.len() - pos, 8int,
        when 0 <= pos <= toks.len()
{
    if pos < toks.len() {
        match unary_of(toks[pos]) {
            Some(u) => match sp_atom(toks, pos + 1) {
                Some((a, p)) => Some((AbsExpr::Unary(u, Box::new(a)), p)),
                None => None,
            },
            None => sp_atom(toks, pos),
        }
    } else {
        None
    }
}

/// An atom: an object literal, a literal, a variable, or a
/// parenthesized expression.
pub open spec fn sp_atom(toks: Seq<AbsTok>, pos: int) -> Option<(AbsExpr, int)>
    decreases toks.len() - pos, 7int,
        when 0 <= pos <= toks.len()
{
    if pos >= toks.len() {
        None
    } else {
        match toks[pos] {
            AbsTok::FlowSym(FlowSym::OpenBrace) => match sp_obj(toks, pos + 1) {
                Some((pairs, q)) => Some((AbsExpr::Object(dedup_fields(pairs)), q)),
                None => None,
            },
            AbsTok::Keyword(Keyword::True) => Some(
                (AbsExpr::Literal(AbsVal::Bool(true)), pos + 1),
            ),
            AbsTok::Keyword(Keyword::False) => Some(
                (AbsExpr::Literal(AbsVal::Bool(false)), pos + 1),
            ),
            AbsTok::Keyword(Keyword::Null) => Some((AbsExpr::Literal(AbsVal::Null), pos + 1)),
            AbsTok::Int(i) => Some((AbsExpr::Literal(AbsVal::Int(i)), pos + 1)),
            AbsTok::FloatLit(t) => Some((AbsExpr::Literal(AbsVal::FloatLit(t)), pos + 1)),
            AbsTok::EscStr(..) => match sp_strlit(toks, pos) {
                Some((sv, q)) => Some((AbsExpr::Literal(AbsVal::Str(sv)), q)),
                None => None,
            },
            AbsTok::RawStr(..) => match sp_strlit(toks, pos) {
                Some((sv, q)) => Some((AbsExpr::Literal(AbsVal::Str(sv)), q)),
                None => None,
            },
            AbsTok::Ident(name) => Some((AbsExpr::Variable(name), pos + 1)),
            AbsTok::FlowSym(FlowSym::OpenParen) => match sp_value(toks, pos + 1) {
                Some((v, p)) => if p < toks.len() && toks[p] == AbsTok::FlowSym(
                    FlowSym::CloseParen,
                ) {
                    Some((v, p + 1))
                } else {
                    None
                },
                None => None,
            },
            _ => None,
        }
    }
}

/// One statement, by ordered choice: an exit, an assignment, a bare
/// expression, an if-statement.
pub open spec fn sp_statement(toks: Seq<AbsTok>, pos: int) -> Option<(AbsInstr, int)>
    decreases toks.len() - pos, 28int,
        when 0 <= pos <= toks.len()
{
    if pos >= toks.len() {
        None
    } else if toks[pos] == AbsTok::Keyword(Keyword::Exit) && pos + 1 < toks.len() && toks[pos + 1]
        is Ident && end_state_of(toks[pos + 1]->Ident_0) is Some {
        Some((AbsInstr::Exit(end_state_of(toks[pos + 1]->Ident_0)->0), pos + 2))
    } else if toks[pos] is Ident && pos + 1 < toks.len() && toks[pos + 1] == AbsTok::OpSym(
        OpSym::Eq,
    ) && sp_value(toks, pos + 2) is Some {
        let (v, q) = sp_value(toks, pos + 2)->0;
        Some((AbsInstr::Assign(toks[pos]->Ident_0, v), q))
    } else if sp_value(toks, pos) is Some {
        let (v, q) = sp_value(toks, pos)->0;
        Some((AbsInstr::Value(v), q))
    } else if toks[pos] == AbsTok::Keyword(Keyword::If) {
        match sp_value(toks, pos + 1) {
            None => None,
            Some((cond, p)) => if pos < p <= toks.len() {
                match sp_block(toks, p) {
                    None => None,
                    Some((a, p2)) => if p < p2 <= toks.len() {
                        if p2 < toks.len() && toks[p2] == AbsTok::Keyword(Keyword::Else) {
                            match sp_block(toks, p2 + 1) {
                                Some((b, p3)) => Some(
                                    (AbsInstr::If(cond, a, Some(b)), p3),
                                ),
                                None => Some((AbsInstr::If(cond, a, None), p2)),
                            }
                        } else {
                            Some((AbsInstr::If(cond, a, None), p2))
                        }
                    } else {
                        None
                    },
                }
            } else {
                None
            },
        }
    } else {
        None
    }
}

/// A braced block of statements.
pub open spec fn sp_block(toks: Seq<AbsTok>, pos: int) -> Option<(Seq<AbsInstr>, int)>
    decreases toks.len() - pos, 29int,
        when 0 <= pos <= toks.len()
{
    if pos < toks.len() && toks[pos] == AbsTok::FlowSym(FlowSym::OpenBrace) {
        let (list, p) = sp_statements(toks, pos + 1);
        if pos + 1 <= p && p < toks.len() && toks[p] == AbsTok::FlowSym(FlowSym::CloseBrace) {
            Some((list, p + 1))
        } else {
            None
        }
    } else {
        None
    }
}

/// A statement list: statements separated by `;`, a trailing `;`
/// allowed, and no separator required after an if-statement's block.
pub open spec fn sp_statements(toks: Seq<AbsTok>, pos: int) -> (Seq<AbsInstr>, int)
    decreases toks.len() - pos, 30int,
        when 0 <= pos <= toks.len()
{
    if pos >= toks.len() {
        (Seq::empty(), pos)
    } else {
        match sp_statement(toks, pos) {
            None => (Seq::empty(), pos),
            Some((i, p)) => if pos < p <= toks.len() {
                if p < toks.len() && toks[p] == AbsTok::FlowSym(FlowSym::LineEnd) {
                    let rest = sp_statements(toks, p + 1);
                    (seq![i] + rest.0, rest.1)
                } else if i is If {
                    let rest = sp_statements(toks, p);
                    (seq![i] + rest.0, rest.1)
                } else {
                    (seq![i], p)
                }
            } else {
                (Seq::empty(), pos)
            },
        }
    }
}

/// A whole program: a statement list that consumes every token.
pub open spec fn sp_program(toks: Seq<AbsTok>) -> Option<Seq<AbsInstr>> {
    let r = sp_statements(toks, 0);
    if r.1 == toks.len() {
        Some(r.0)
    } else {
        None
    }
}

/// A parse failure: the token stream matches no statement form at some
/// point, or holds tokens after the last statement.
#[derive(Debug, Clone, Copy, PartialEq, Eq, Structural)]
pub struct ParseError;

/// Whether every backslash precedes an accepted escape character.
fn well_escaped_exec(t: &str) -> (r: bool)
    ensures
        r == well_escaped(t@),
{
    let n = t.unicode_len();
    let mut i: usize = 0;
    proof {
        assert(t@.subrange(0, n as int) =~= t@);
    }
    while i < n
        invariant
            i <= n,
            n == t@.len(),
            well_escaped(t@) == well_escaped(t@.subrange(i as int, n as int)),
        decreases n - i,
    {
        let ghost suf = t@.subrange(i as int, n as int);
        let c = t.get_char(i);
        proof {
            assert(suf[0] == t@[i as int]);
        }
        if c == '\\' {
            if i + 1 < n && crate::lexer::is_escape_char_exec(t.get_char(i + 1)) {
                proof {
                    assert(suf[1] == t@[i + 1]);
                    assert(suf.subrange(2, suf.len() as int) =~= t@.subrange(
                        i + 2 as int,
                        n as int,
                    ));
                }
                i += 2;
            } else {
                proof {
                    if i + 1 < n {
                        assert(suf[1] == t@[i + 1]);
                    }
                }
                return false;
            }
        } else {
            proof {
                assert(suf.subrange(1, suf.len() as int) =~= t@.subrange(i + 1 as int, n as int));
            }
            i += 1;
        }
    }
    proof {
        assert(t@.subrange(n as int, n as int) =~= Seq::<char>::empty());
    }
    true
}

/// Collapses each doubled single quote to one.
fn collapse_exec(t: &str) -> (r: String)
    ensures
        r@ == collapse_quotes(t@),
{
    let n = t.unicode_len();
    let mut out = String::new();
    let mut i: usize = 0;
    proof {
        assert(t@.subrange(0, n as int) =~= t@);
        assert(Seq::<char>::empty() + collapse_quotes(t@) =~= collapse_quotes(t@));
    }
    while i < n
        invariant
            i <= n,
            n == t@.len(),
            collapse_quotes(t@) == out@ + collapse_quotes(t@.subrange(i as int, n as int)),
        decreases n - i,
    {
        let ghost suf = t@.subrange(i as int, n as int);
        let c = t.get_char(i);
        proof {
            assert(suf[0] == t@[i as int]);
        }
        if c == '\'' && i + 1 < n && t.get_char(i + 1) == '\'' {
            proof {
                assert(suf[1] == t@[i + 1]);
                assert(suf.subrange(2, suf.len() as int) =~= t@.subrange(i + 2 as int, n as int));
            }
            out.append(t.substring_char(i, i + 1));
            i += 2;
        } else {
            proof {
                if i + 1 < n {
                    assert(suf[1] == t@[i + 1]);
                }
                assert(suf.subrange(1, suf.len() as int) =~= t@.subrange(i + 1 as int, n as int));
            }
            out.append(t.substring_char(i, i + 1));
            i += 1;
        }
    }
    proof {
        assert(t@.subrange(n as int, n as int) =~= Seq::<char>::empty());
        assert(out@ =~= out@ + Seq::<char>::empty());
    }
    out
}

/// Reads a string-literal token's value.
fn p_strlit(toks: &Vec<HtnToken>, pos: usize) -> (r: Option<(String, usize)>)
    requires
        pos <= toks@.len(),
    ensures
        match r {
            Some((s, q)) => sp_strlit(abs_toks(toks@), pos as int) == Some((s@, q as int)) && q
                == pos + 1,
            None => sp_strlit(abs_toks(toks@), pos as int) is None,
        },
{
    proof {
        if pos < toks@.len() {
            assert(abs_toks(toks@)[pos as int] == toks@[pos as int]@);
        }
    }
    if pos >= toks.len() {
        return None;
    }
    match &toks[pos] {
        HtnToken::EscStr(t) => {
            if well_escaped_exec(t.as_str()) {
                match unescape_str(t.as_str()) {
                    Some(d) => Some((d, pos + 1)),
                    None => None,
                }
            } else {
                None
            }
        },
        HtnToken::RawStr(t) => Some((collapse_exec(t.as_str()), pos + 1)),
        _ => None,
    }
}

/// `abs_expr_list` maps each expression to its view.
proof fn lemma_abs_expr_list_index(s: Seq<ParseValue>)
    ensures
        abs_expr_list(s).len() == s.len(),
        forall|j: int| 0 <= j < s.len() ==> #[trigger] abs_expr_list(s)[j] == s[j].view(),
    decreases s.len(),
{
    if s.len() > 0 {
        let sub = s.subrange(0, s.len() - 1);
        lemma_abs_expr_list_index(sub);
        let n = s.len() - 1;
        assert(abs_expr_list(s) == abs_expr_list(sub).push(s[n].view()));
        assert forall|j: int| 0 <= j < s.len() implies #[trigger] abs_expr_list(s)[j]
            == s[j].view() by {
            if j < n {
                assert(abs_expr_list(s)[j] == abs_expr_list(sub)[j]);
                assert(sub[j] == s[j]);
            }
        }
    }
}

/// `abs_expr_fields` maps each pair to the views of its key and value.
proof fn lemma_abs_expr_fields_index(s: Seq<(String, ParseValue)>)
    ensures
        abs_expr_fields(s).len() == s.len(),
        forall|j: int|
            0 <= j < s.len() ==> #[trigger] abs_expr_fields(s)[j] == (s[j].0@, s[j].1.view()),
    decreases s.len(),
{
    if s.len() > 0 {
        let sub = s.subrange(0, s.len() - 1);
        lemma_abs_expr_fields_index(sub);
        let n = s.len() - 1;
        assert(abs_expr_fields(s) == abs_expr_fields(sub).push((s[n].0@, s[n].1.view())));
        assert forall|j: int| 0 <= j < s.len() implies #[trigger] abs_expr_fields(s)[j] == (
        s[j].0@, s[j].1.view()) by {
            if j < n {
                assert(abs_expr_fields(s)[j] == abs_expr_fields(sub)[j]);
                assert(sub[j] == s[j]);
            }
        }
    }
}

/// `abs_instrs` maps each statement to its view.
proof fn lemma_abs_instrs_index(s: Seq<HtnInstr>)
    ensures
        abs_instrs(s).len() == s.len(),
        forall|j: int| 0 <= j < s.len() ==> #[trigger] abs_instrs(s)[j] == s[j].view(),
    decreases s.len(),
{
    if s.len() > 0 {
        let sub = s.subrange(0, s.len() - 1);
        lemma_abs_instrs_index(sub);
        let n = s.len() - 1;
        assert(abs_instrs(s) == abs_instrs(sub).push(s[n].view()));
        assert forall|j: int| 0 <= j < s.len() implies #[trigger] abs_instrs(s)[j]
            == s[j].view() by {
            if j < n {
                assert(abs_instrs(s)[j] == abs_instrs(sub)[j]);
                assert(sub[j] == s[j]);
            }
        }
    }
}

/// `expr_field_find` returns -1 or the first position holding the key.
proof fn lemma_expr_field_find(fields: Seq<(Seq<char>, AbsExpr)>, key: Seq<char>)
    ensures
        -1 <= expr_field_find(fields, key) < fields.len(),
        expr_field_find(fields, key) >= 0 ==> fields[expr_field_find(fields, key)].0 == key,
        expr_field_find(fields, key) == -1 ==> forall|j: int|
            0 <= j < fields.len() ==> (#[trigger] fields[j]).0 != key,
        forall|j: int|
            0 <= j < expr_field_find(fields, key) ==> (#[trigger] fields[j]).0 != key,
    decreases fields.len(),
{
    if fields.len() > 0 && fields[0].0 != key {
        let sub = fields.subrange(1, fields.len() as int);
        lemma_expr_field_find(sub, key);
        assert forall|j: int|
            0 <= j < fields.len() && expr_field_find(fields, key) == -1 implies (
        #[trigger] fields[j]).0 != key by {
            if j >= 1 {
                assert(fields[j] == sub[j - 1]);
            }
        }
        assert forall|j: int| 0 <= j < expr_field_find(fields, key) implies (
        #[trigger] fields[j]).0 != key by {
            if j >= 1 {
                assert(fields[j] == sub[j - 1]);
            }
        }
    }
}

/// Stores an expression under a key in a field list, as
/// `expr_field_set` describes.
#[verifier::loop_isolation(false)]
fn obj_insert(fields: &mut Vec<(String, ParseValue)>, key: String, value: ParseValue)
    ensures
        abs_expr_fields(final(fields)@) == expr_field_set(
            abs_expr_fields(old(fields)@),
            key@,
            value.view(),
        ),
{
    let ghost gv = value.view();
    let ghost prev = fields@;
    proof {
        lemma_abs_expr_fields_index(prev);
        lemma_expr_field_find(abs_expr_fields(prev), key@);
    }
    let n = fields.len();
    let mut i: usize = 0;
    while i < n
        invariant
            i <= n,
            n == fields@.len(),
            fields@ == prev,
            forall|j: int| 0 <= j < i ==> (#[trigger] fields@[j]).0@ != key@,
        decreases n - i,
    {
        if crate::htn_vm::str_eq(fields[i].0.as_str(), key.as_str()) {
            proof {
                let ff = expr_field_find(abs_expr_fields(prev), key@);
                assert(abs_expr_fields(prev)[i as int].0 == key@);
                if 0 <= ff < i {
                    assert(prev[ff].0@ != key@);
                    assert(abs_expr_fields(prev)[ff] == (prev[ff].0@, prev[ff].1.view()));
                }
                if ff == -1 {
                    assert(abs_expr_fields(prev)[i as int].0 != key@);
                }
            }
            let old_pair = fields.remove(i);
            fields.insert(i, (old_pair.0, value));
            proof {
                assert(fields@ =~= prev.update(i as int, (prev[i as int].0, fields@[i as int].1)));
                lemma_abs_expr_fields_index(fields@);
                assert(fields@[i as int].1.view() == gv);
                assert(abs_expr_fields(fields@) =~= expr_field_set(
                    abs_expr_fields(prev),
                    key@,
                    gv,
                ));
            }
            return ;
        }
        i += 1;
    }
    fields.push((key, value));
    proof {
        lemma_abs_expr_fields_index(fields@);
        assert(abs_expr_fields(fields@) =~= expr_field_set(abs_expr_fields(prev), key@, gv));
    }
}

/// Folds repeated keys of a parsed field list, as `dedup_fields`
/// describes.
#[verifier::loop_isolation(false)]
fn dedup_exec(pairs: Vec<(String, ParseValue)>) -> (out: Vec<(String, ParseValue)>)
    ensures
        abs_expr_fields(out@) == dedup_fields(abs_expr_fields(pairs@)),
{
    let ghost orig = pairs@;
    let ghost gp = abs_expr_fields(orig);
    proof {
        lemma_abs_expr_fields_index(orig);
    }
    let mut out: Vec<(String, ParseValue)> = Vec::new();
    let mut src = pairs;
    let n = src.len();
    let mut i: usize = 0;
    proof {
        assert(orig.subrange(0, n as int) =~= orig);
        assert(gp.subrange(0, 0) =~= Seq::<(Seq<char>, AbsExpr)>::empty());
        assert(abs_expr_fields(out@) =~= dedup_fields(gp.subrange(0, 0)));
    }
    while i < n
        invariant
            i <= n,
            gp.len() == n,
            src@ == orig.subrange(i as int, n as int),
            abs_expr_fields(out@) == dedup_fields(gp.subrange(0, i as int)),
        decreases n - i,
    {
        let pair = src.remove(0);
        proof {
            assert(pair == orig[i as int]);
            assert(src@ =~= orig.subrange(i + 1, n as int));
        }
        let ghost prev_out = abs_expr_fields(out@);
        obj_insert(&mut out, pair.0, pair.1);
        proof {
            assert(gp.subrange(0, i + 1).subrange(0, i as int) =~= gp.subrange(0, i as int));
            assert(gp.subrange(0, i + 1)[i as int] == gp[i as int]);
            assert(gp[i as int] == (orig[i as int].0@, orig[i as int].1.view()));
            assert(abs_expr_fields(out@) == dedup_fields(gp.subrange(0, i + 1)));
        }
        i += 1;
    }
    proof {
        assert(gp.subrange(0, n as int) =~= gp);
    }
    out
}

/// The binary operator a token denotes at a tier.
fn tier_op_exec(tier: u8, t: &HtnToken) -> (r: Option<BinaryOp>)
    ensures
        r == tier_op(tier as int, t@),
{
    match t {
        HtnToken::OpSym(o) => {
            if tier == 1 {
                match o {
                    OpSym::Mul => Some(BinaryOp::Mul),
                    OpSym::Div => Some(BinaryOp::Div),
                    OpSym::Mod => Some(BinaryOp::Mod),
                    _ => None,
                }
            } else if tier == 2 {
                match o {
                    OpSym::Add => Some(BinaryOp::Add),
                    OpSym::Sub => Some(BinaryOp::Sub),
                    _ => None,
                }
            } else if tier == 3 {
                match o {
                    OpSym::Lt => Some(BinaryOp::Lt),
                    OpSym::Gt => Some(BinaryOp::Gt),
                    OpSym::Lte => Some(BinaryOp::Lte),
                    OpSym::Gte => Some(BinaryOp::Gte),
                    OpSym::Eq => Some(BinaryOp::Eq),
                    OpSym::Neq => Some(BinaryOp::Neq),
                    _ => None,
                }
            } else if tier == 4 {
                match o {
                    OpSym::And => Some(BinaryOp::And),
                    _ => None,
                }
            } else if tier == 5 {
                match o {
                    OpSym::Or => Some(BinaryOp::Or),
                    _ => None,
                }
            } else {
                None
            }
        },
        _ => None,
    }
}

/// The unary operator a token denotes.
fn unary_of_exec(t: &HtnToken) -> (r: Option<UnaryOp>)
    ensures
        r == unary_of(t@),
{
    match t {
        HtnToken::OpSym(OpSym::Not) => Some(UnaryOp::Not),
        HtnToken::OpSym(OpSym::Sub) => Some(UnaryOp::Neg),
        HtnToken::OpSym(OpSym::Dbg) => Some(UnaryOp::Dbg),
        _ => None,
    }
}

/// A full expression: the loosest tier.
fn p_value(toks: &Vec<HtnToken>, pos: usize) -> (r: Option<(ParseValue, usize)>)
    requires
        pos <= toks@.len(),
    ensures
        match r {
            Some((v, q)) => sp_value(abs_toks(toks@), pos as int) == Some((v@, q as int)) && pos
                < q <= toks@.len(),
            None => sp_value(abs_toks(toks@), pos as int) is None,
        },
    decreases toks@.len() - pos, 16int,
{
    p_tier(toks, pos, 5)
}

/// One precedence tier.
fn p_tier(toks: &Vec<HtnToken>, pos: usize, tier: u8) -> (r: Option<(ParseValue, usize)>)
    requires
        pos <= toks@.len(),
        tier <= 5,
    ensures
        match r {
            Some((v, q)) => sp_tier(abs_toks(toks@), pos as int, tier as int) == Some(
                (v@, q as int),
            ) && pos < q <= toks@.len(),
            None => sp_tier(abs_toks(toks@), pos as int, tier as int) is None,
        },
    decreases toks@.len() - pos, 10int + tier,
{
    if tier == 0 {
        return p_ts(toks, pos);
    }
    match p_tier(toks, pos, tier - 1) {
        None => None,
        Some((l, p)) => {
            if p < toks.len() {
                proof {
                    assert(abs_toks(toks@)[p as int] == toks@[p as int]@);
                }
                match tier_op_exec(tier, &toks[p]) {
                    Some(op) => match p_tier(toks, p + 1, tier) {
                        Some((rr, q)) => Some(
                            (ParseValue::Expression(Box::new(l), op, Box::new(rr)), q),
                        ),
                        None => Some((l, p)),
                    },
                    None => Some((l, p)),
                }
            } else {
                Some((l, p))
            }
        },
    }
}

/// A unary-or-atom expression with its postfix suffixes.
fn p_ts(toks: &Vec<HtnToken>, pos: usize) -> (r: Option<(ParseValue, usize)>)
    requires
        pos <= toks@.len(),
    ensures
        match r {
            Some((v, q)) => sp_ts(abs_toks(toks@), pos as int) == Some((v@, q as int)) && pos < q
                <= toks@.len(),
            None => sp_ts(abs_toks(toks@), pos as int) is None,
        },
    decreases toks@.len() - pos, 9int,
{
    match p_tu(toks, pos) {
        None => None,
        Some((b, p)) => Some(p_suffixes(toks, p, b)),
    }
}

/// The postfix suffixes applied left to right.
fn p_suffixes(toks: &Vec<HtnToken>, pos: usize, base: ParseValue) -> (r: (ParseValue, usize))
    requires
        pos <= toks@.len(),
    ensures
        sp_suffixes(abs_toks(toks@), pos as int, base@) == (r.0@, r.1 as int),
        pos <= r.1 <= toks@.len(),
    decreases toks@.len() - pos, 17int,
{
    if pos >= toks.len() {
        return (base, pos);
    }
    proof {
        assert(abs_toks(toks@)[pos as int] == toks@[pos as int]@);
        if pos + 1 < toks@.len() {
            assert(abs_toks(toks@)[pos + 1] == toks@[pos + 1]@);
        }
    }
    match &toks[pos] {
        HtnToken::FlowSym(FlowSym::OpenParen) => {
            match p_args(toks, pos + 1) {
                Some((args, q)) => p_suffixes(toks, q, ParseValue::Call(Box::new(base), args)),
                None => (base, pos),
            }
        },
        HtnToken::FlowSym(FlowSym::Dot) => {
            if pos + 1 < toks.len() {
                match &toks[pos + 1] {
                    HtnToken::Ident(name) => {
                        let nm = name.clone();
                        p_suffixes(toks, pos + 2, ParseValue::Access(Box::new(base), nm))
                    },
                    _ => (base, pos),
                }
            } else {
                (base, pos)
            }
        },
        HtnToken::OpSym(OpSym::NullC) => {
            match p_value(toks, pos + 1) {
                Some((rr, q)) => p_suffixes(
                    toks,
                    q,
                    ParseValue::NullCoalesce(Box::new(base), Box::new(rr)),
                ),
                None => (base, pos),
            }
        },
        _ => (base, pos),
    }
}

/// A call's argument list after the opening parenthesis.
fn p_args(toks: &Vec<HtnToken>, pos: usize) -> (r: Option<(Vec<ParseValue>, usize)>)
    requires
        pos <= toks@.len(),
    ensures
        match r {
            Some((args, q)) => sp_args(abs_toks(toks@), pos as int) == Some(
                (abs_expr_list(args@), q as int),
            ) && pos < q <= toks@.len(),
            None => sp_args(abs_toks(toks@), pos as int) is None,
        },
    decreases toks@.len() - pos, 18int,
{
    proof {
        if pos < toks@.len() {
            assert(abs_toks(toks@)[pos as int] == toks@[pos as int]@);
        }
    }
    if pos < toks.len() && matches!(&toks[pos], HtnToken::FlowSym(FlowSym::CloseParen)) {
        proof {
            assert(abs_expr_list(Seq::<ParseValue>::empty()) =~= Seq::<AbsExpr>::empty());
        }
        return Some((Vec::new(), pos + 1));
    }
    match p_value(toks, pos) {
        None => None,
        Some((v, p)) => {
            if p < toks.len() {
                proof {
                    assert(abs_toks(toks@)[p as int] == toks@[p as int]@);
                }
                if matches!(&toks[p], HtnToken::FlowSym(FlowSym::Comma)) {
                    match p_args(toks, p + 1) {
                        Some((rest, q)) => {
                            let ghost gsrc = rest@;
                            let ghost grest = abs_expr_list(rest@);
                            let mut out = rest;
                            out.insert(0, v);
                            proof {
                                lemma_abs_expr_list_index(out@);
                                lemma_abs_expr_list_index(gsrc);
                                assert(out@.subrange(1, out@.len() as int) =~= gsrc);
                                assert(forall|j: int|
                                    1 <= j < out@.len() ==> out@[j] == gsrc[j - 1]);
                                assert(abs_expr_list(out@) =~= seq![out@[0].view()] + grest);
                            }
                            Some((out, q))
                        },
                        None => None,
                    }
                } else if matches!(&toks[p], HtnToken::FlowSym(FlowSym::CloseParen)) {
                    let mut out: Vec<ParseValue> = Vec::new();
                    out.push(v);
                    proof {
                        lemma_abs_expr_list_index(out@);
                        assert(abs_expr_list(out@) =~= seq![out@[0].view()]);
                    }
                    Some((out, p + 1))
                } else {
                    None
                }
            } else {
                None
            }
        },
    }
}

/// An object literal's fields after the opening brace.
fn p_obj(toks: &Vec<HtnToken>, pos: usize) -> (r: Option<(Vec<(String, ParseValue)>, usize)>)
    requires
        pos <= toks@.len(),
    ensures
        match r {
            Some((pairs, q)) => sp_obj(abs_toks(toks@), pos as int) == Some(
                (abs_expr_fields(pairs@), q as int),
            ) && pos < q <= toks@.len(),
            None => sp_obj(abs_toks(toks@), pos as int) is None,
        },
    decreases toks@.len() - pos, 18int,
{
    proof {
        if pos < toks@.len() {
            assert(abs_toks(toks@)[pos as int] == toks@[pos as int]@);
        }
    }
    if pos < toks.len() && matches!(&toks[pos], HtnToken::FlowSym(FlowSym::CloseBrace)) {
        proof {
            assert(abs_expr_fields(Seq::<(String, ParseValue)>::empty()) =~= Seq::<
                (Seq<char>, AbsExpr),
            >::empty());
        }
        return Some((Vec::new(), pos + 1));
    }
    match p_strlit(toks, pos) {
        None => None,
        Some((k, p1)) => {
            proof {
                if p1 < toks@.len() {
                    assert(abs_toks(toks@)[p1 as int] == toks@[p1 as int]@);
                }
            }
            if p1 < toks.len() && matches!(&toks[p1], HtnToken::FlowSym(FlowSym::Colon)) {
                match p_value(toks, p1 + 1) {
                    None => None,
                    Some((v, p2)) => {
                        if p2 < toks.len() {
                            proof {
                                assert(abs_toks(toks@)[p2 as int] == toks@[p2 as int]@);
                            }
                            if matches!(&toks[p2], HtnToken::FlowSym(FlowSym::Comma)) {
                                match p_obj(toks, p2 + 1) {
                                    Some((rest, q)) => {
                                        let ghost gsrc = rest@;
                                        let ghost grest = abs_expr_fields(rest@);
                                        let mut out = rest;
                                        out.insert(0, (k, v));
                                        proof {
                                            lemma_abs_expr_fields_index(out@);
                                            lemma_abs_expr_fields_index(gsrc);
                                            assert(out@.subrange(1, out@.len() as int) =~= gsrc);
                                            assert(forall|j: int|
                                                1 <= j < out@.len() ==> out@[j] == gsrc[j - 1]);
                                            assert(abs_expr_fields(out@) =~= seq![
                                                (out@[0].0@, out@[0].1.view()),
                                            ] + grest);
                                        }
                                        Some((out, q))
                                    },
                                    None => None,
                                }
                            } else if matches!(&toks[p2], HtnToken::FlowSym(FlowSym::CloseBrace)) {
                                let mut out: Vec<(String, ParseValue)> = Vec::new();
                                out.push((k, v));
                                proof {
                                    lemma_abs_expr_fields_index(out@);
                                    assert(abs_expr_fields(out@) =~= seq![
                                        (out@[0].0@, out@[0].1.view()),
                                    ]);
                                }
                                Some((out, p2 + 1))
                            } else {
                                None
                            }
                        } else {
                            None
                        }
                    },
                }
            } else {
                None
            }
        },
    }
}

/// A unary operator applied to an atom, or an atom.
fn p_tu(toks: &Vec<HtnToken>, pos: usize) -> (r: Option<(ParseValue, usize)>)
    requires
        pos <= toks@.len(),
    ensures
        match r {
            Some((v, q)) => sp_tu(abs_toks(toks@), pos as int) == Some((v@, q as int)) && pos < q
                <= toks@.len(),
            None => sp_tu(abs_toks(toks@), pos as int) is None,
        },
    decreases toks@.len() - pos, 8int,
{
    if pos >= toks.len() {
        return None;
    }
    proof {
        assert(abs_toks(toks@)[pos as int] == toks@[pos as int]@);
    }
    match unary_of_exec(&toks[pos]) {
        Some(u) => match p_atom(toks, pos + 1) {
            Some((a, p)) => Some((ParseValue::Unary(u, Box::new(a)), p)),
            None => None,
        },
        None => p_atom(toks, pos),
    }
}

/// An atom: an object literal, a literal, a variable, or a
/// parenthesized expression.
fn p_atom(toks: &Vec<HtnToken>, pos: usize) -> (r: Option<(ParseValue, usize)>)
    requires
        pos <= toks@.len(),
    ensures
        match r {
            Some((v, q)) => sp_atom(abs_toks(toks@), pos as int) == Some((v@, q as int)) && pos
                < q <= toks@.len(),
            None => sp_atom(abs_toks(toks@), pos as int) is None,
        },
    decreases toks@.len() - pos, 7int,
{
    if pos >= toks.len() {
        return None;
    }
    proof {
        assert(abs_toks(toks@)[pos as int] == toks@[pos as int]@);
    }
    match &toks[pos] {
        HtnToken::FlowSym(FlowSym::OpenBrace) => match p_obj(toks, pos + 1) {
            Some((pairs, q)) => {
                let fields = dedup_exec(pairs);
                Some((ParseValue::Object(fields), q))
            },
            None => None,
        },
        HtnToken::Keyword(Keyword::True) => Some(
            (ParseValue::Literal(VmValue::Bool(true)), pos + 1),
        ),
        HtnToken::Keyword(Keyword::False) => Some(
            (ParseValue::Literal(VmValue::Bool(false)), pos + 1),
        ),
        HtnToken::Keyword(Keyword::Null) => Some((ParseValue::Literal(VmValue::Null), pos + 1)),
        HtnToken::Int(i) => Some(
            (ParseValue::Literal(VmValue::Number(crate::htn_vm::Num::Int(*i))), pos + 1),
        ),
        HtnToken::Float(t) => Some(
            (
                ParseValue::Literal(VmValue::Number(crate::htn_vm::Num::Float(t.clone()))),
                pos + 1,
            ),
        ),
        HtnToken::EscStr(..) => match p_strlit(toks, pos) {
            Some((sv, q)) => Some((ParseValue::Literal(VmValue::String(sv)), q)),
            None => None,
        },
        HtnToken::RawStr(..) => match p_strlit(toks, pos) {
            Some((sv, q)) => Some((ParseValue::Literal(VmValue::String(sv)), q)),
            None => None,
        },
        HtnToken::Ident(name) => Some((ParseValue::Variable(name.clone()), pos + 1)),
        HtnToken::FlowSym(FlowSym::OpenParen) => match p_value(toks, pos + 1) {
            Some((v, p)) => {
                if p < toks.len() {
                    proof {
                        assert(abs_toks(toks@)[p as int] == toks@[p as int]@);
                    }
                    if matches!(&toks[p], HtnToken::FlowSym(FlowSym::CloseParen)) {
                        Some((v, p + 1))
                    } else {
                        None
                    }
                } else {
                    None
                }
            },
            None => None,
        },
        _ => None,
    }
}

/// One statement, by ordered choice.
fn p_statement(toks: &Vec<HtnToken>, pos: usize) -> (r: Option<(HtnInstr, usize)>)
    requires
        pos <= toks@.len(),
    ensures
        match r {
            Some((i, q)) => sp_statement(abs_toks(toks@), pos as int) == Some((i@, q as int))
                && pos < q <= toks@.len(),
            None => sp_statement(abs_toks(toks@), pos as int) is None,
        },
    decreases toks@.len() - pos, 28int,
{
    if pos >= toks.len() {
        return None;
    }
    proof {
        assert(abs_toks(toks@)[pos as int] == toks@[pos as int]@);
        if pos + 1 < toks@.len() {
            assert(abs_toks(toks@)[pos + 1] == toks@[pos + 1]@);
        }
    }
    if matches!(&toks[pos], HtnToken::Keyword(Keyword::Exit)) && pos + 1 < toks.len() {
        match &toks[pos + 1] {
            HtnToken::Ident(w) => {
                let st = if str_is_one(w.as_str(), "Success", "S") {
                    Some(EndState::Success)
                } else if str_is_one(w.as_str(), "Failure", "F") {
                    Some(EndState::Failure)
                } else if str_is_one(w.as_str(), "Running", "C") {
                    Some(EndState::Running)
                } else {
                    None
                };
                proof {
                    assert(st == end_state_of(w@));
                }
                match st {
                    Some(state) => {
                        return Some((HtnInstr::Exit(state), pos + 2));
                    },
                    None => (),
                }
            },
            _ => (),
        }
    }
    if matches!(&toks[pos], HtnToken::Ident(..)) && pos + 1 < toks.len() && matches!(
        &toks[pos + 1],
        HtnToken::OpSym(OpSym::Eq),
    ) {
        match p_value(toks, pos + 2) {
            Some((v, q)) => {
                let name = match &toks[pos] {
                    HtnToken::Ident(n) => n.clone(),
                    _ => String::new(),
                };
                return Some((HtnInstr::Assign(name, v), q));
            },
            None => (),
        }
    }
    match p_value(toks, pos) {
        Some((v, q)) => {
            return Some((HtnInstr::Value(v), q));
        },
        None => (),
    }
    if matches!(&toks[pos], HtnToken::Keyword(Keyword::If)) {
        match p_value(toks, pos + 1) {
            None => None,
            Some((cond, p)) => match p_block(toks, p) {
                None => None,
                Some((a, p2)) => {
                    proof {
                        if p2 < toks@.len() {
                            assert(abs_toks(toks@)[p2 as int] == toks@[p2 as int]@);
                        }
                    }
                    if p2 < toks.len() && matches!(&toks[p2], HtnToken::Keyword(Keyword::Else)) {
                        match p_block(toks, p2 + 1) {
                            Some((b, p3)) => Some((HtnInstr::If(cond, a, Some(b)), p3)),
                            None => Some((HtnInstr::If(cond, a, None), p2)),
                        }
                    } else {
                        Some((HtnInstr::If(cond, a, None), p2))
                    }
                },
            },
        }
    } else {
        None
    }
}

/// Whether a word is one of two given spellings.
fn str_is_one(w: &str, a: &str, b: &str) -> (r: bool)
    ensures
        r == (w@ == a@ || w@ == b@),
{
    crate::htn_vm::str_eq(w, a) || crate::htn_vm::str_eq(w, b)
}

/// A braced block of statements.
fn p_block(toks: &Vec<HtnToken>, pos: usize) -> (r: Option<(Vec<HtnInstr>, usize)>)
    requires
        pos <= toks@.len(),
    ensures
        match r {
            Some((list, q)) => sp_block(abs_toks(toks@), pos as int) == Some(
                (abs_instrs(list@), q as int),
            ) && pos < q <= toks@.len(),
            None => sp_block(abs_toks(toks@), pos as int) is None,
        },
    decreases toks@.len() - pos, 29int,
{
    proof {
        if pos < toks@.len() {
            assert(abs_toks(toks@)[pos as int] == toks@[pos as int]@);
        }
    }
    if pos < toks.len() && matches!(&toks[pos], HtnToken::FlowSym(FlowSym::OpenBrace)) {
        let (list, p) = p_statements(toks, pos + 1);
        proof {
            if p < toks@.len() {
                assert(abs_toks(toks@)[p as int] == toks@[p as int]@);
            }
        }
        if p < toks.len() && matches!(&toks[p], HtnToken::FlowSym(FlowSym::CloseBrace)) {
            Some((list, p + 1))
        } else {
            None
        }
    } else {
        None
    }
}

/// A statement list.
fn p_statements(toks: &Vec<HtnToken>, pos: usize) -> (r: (Vec<HtnInstr>, usize))
    requires
        pos <= toks@.len(),
    ensures
        sp_statements(abs_toks(toks@), pos as int) == (abs_instrs(r.0@), r.1 as int),
        pos <= r.1 <= toks@.len(),
    decreases toks@.len() - pos, 30int,
{
    proof {
        assert(abs_instrs(Seq::<HtnInstr>::empty()) =~= Seq::<AbsInstr>::empty());
    }
    if pos >= toks.len() {
        return (Vec::new(), pos);
    }
    match p_statement(toks, pos) {
        None => (Vec::new(), pos),
        Some((i, p)) => {
            proof {
                if p < toks@.len() {
                    assert(abs_toks(toks@)[p as int] == toks@[p as int]@);
                }
            }
            if p < toks.len() && matches!(&toks[p], HtnToken::FlowSym(FlowSym::LineEnd)) {
                let rest = p_statements(toks, p + 1);
                let ghost gsrc = rest.0@;
                let ghost grest = abs_instrs(rest.0@);
                let mut out = rest.0;
                out.insert(0, i);
                proof {
                    lemma_abs_instrs_index(out@);
                    lemma_abs_instrs_index(gsrc);
                    assert(out@.subrange(1, out@.len() as int) =~= gsrc);
                    assert(forall|j: int| 1 <= j < out@.len() ==> out@[j] == gsrc[j - 1]);
                    assert(abs_instrs(out@) =~= seq![out@[0].view()] + grest);
                }
                (out, rest.1)
            } else {
                let is_if = matches!(&i, HtnInstr::If(..));
                if is_if {
                    let rest = p_statements(toks, p);
                    let ghost gsrc = rest.0@;
                    let ghost grest = abs_instrs(rest.0@);
                    let mut out = rest.0;
                    out.insert(0, i);
                    proof {
                        lemma_abs_instrs_index(out@);
                        lemma_abs_instrs_index(gsrc);
                        assert(out@.subrange(1, out@.len() as int) =~= gsrc);
                        assert(forall|j: int| 1 <= j < out@.len() ==> out@[j] == gsrc[j - 1]);
                        assert(abs_instrs(out@) =~= seq![out@[0].view()] + grest);
                    }
                    (out, rest.1)
                } else {
                    let mut out: Vec<HtnInstr> = Vec::new();
                    out.push(i);
                    proof {
                        lemma_abs_instrs_index(out@);
                        assert(abs_instrs(out@) =~= seq![out@[0].view()]);
                    }
                    (out, p)
                }
            }
        },
    }
}

/// Parses a token stream into a statement list; `sp_program` says
/// exactly which programs parse and to what. A token stream in which
/// some point matches no statement form, or which holds tokens after
/// the last statement, is a hard parse failure for the whole program.
pub fn htn_parser(tokens: &Vec<HtnToken>) -> (r: Result<Vec<HtnInstr>, ParseError>)
    ensures
        match r {
            Ok(instrs) => sp_program(abs_toks(tokens@)) == Some(abs_instrs(instrs@)),
            Err(..) => sp_program(abs_toks(tokens@)) is None,
        },
{
    let (list, p) = p_statements(tokens, 0);
    if p == tokens.len() {
        Ok(list)
    } else {
        Err(ParseError)
    }
}

} // verus!
