//! The lexer: source text to a token sequence. It never fails
//! outright: comments and whitespace are discarded, and an
//! unrecognizable character (or a malformed token, such as an integer
//! literal out of range or a bad escape) is recovered from by skipping
//! one character and retrying.
//!
//! Tokens use longest match: a keyword is an identifier-shaped word
//! that spells exactly `True`, `False`, `Null`, `if`, `else` or
//! `exit`; digits followed by `.` form a float literal; `<=`, `>=`,
//! `==`, `!=`, `&&`, `||` and `??` are read as one symbol. Identifiers
//! are ASCII letters, digits and underscores, starting with a letter
//! or underscore.

use vstd::prelude::*;

use crate::tokens::{FlowSym, HtnToken, Keyword, OpSym};

verus! {

/// The mathematical value of a token.
pub enum AbsTok {
    Ident(Seq<char>),
    Int(i32),
    FloatLit(Seq<char>),
    RawStr(Seq<char>),
    EscStr(Seq<char>),
    Keyword(Keyword),
    OpSym(OpSym),
    FlowSym(FlowSym),
}

impl View for HtnToken {
    type V = AbsTok;

    open spec fn view(&self) -> AbsTok {
        match self {
            HtnToken::Ident(s) => AbsTok::Ident(s@),
            HtnToken::Int(i) => AbsTok::Int(*i),
            HtnToken::Float(s) => AbsTok::FloatLit(s@),
            HtnToken::RawStr(s) => AbsTok::RawStr(s@),
            HtnToken::EscStr(s) => AbsTok::EscStr(s@),
            HtnToken::Keyword(k) => AbsTok::Keyword(*k),
            HtnToken::OpSym(o) => AbsTok::OpSym(*o),
            HtnToken::FlowSym(f) => AbsTok::FlowSym(*f),
        }
    }
}

/// The mathematical values of a token sequence.
pub open spec fn abs_toks(s: Seq<HtnToken>) -> Seq<AbsTok> {
    s.map_values(|t: HtnToken| t.view())
}

pub open spec fn is_space(c: char) -> bool {
    c == ' ' || c == '\t' || c == '\n' || c == '\r'
}

pub open spec fn is_digit(c: char) -> bool {
    '0' <= c && c <= '9'
}

pub open spec fn is_alpha(c: char) -> bool {
    ('a' <= c && c <= 'z') || ('A' <= c && c <= 'Z')
}

pub open spec fn is_ident_start(c: char) -> bool {
    is_alpha(c) || c == '_'
}

pub open spec fn is_ident_cont(c: char) -> bool {
    is_ident_start(c) || is_digit(c)
}

/// The escapes a double-quoted string accepts after a backslash.
pub open spec fn is_escape_char(c: char) -> bool {
    c == 'b' || c == 'f' || c == 'n' || c == 'r' || c == 't' || c == '"' || c == '\\'
}

/// The position right after a line comment: everything up to and
/// including the next newline, or the end of the input.
pub open spec fn skip_line(s: Seq<char>, pos: int) -> int
    decreases s.len() - pos,
{
    if pos >= s.len() {
        s.len() as int
    } else if s[pos] == '\n' {
        pos + 1
    } else {
        skip_line(s, pos + 1)
    }
}

pub proof fn lemma_skip_line(s: Seq<char>, pos: int)
    requires
        0 <= pos <= s.len(),
    ensures
        pos <= skip_line(s, pos) <= s.len(),
    decreases s.len() - pos,
{
    if pos < s.len() && s[pos] != '\n' {
        lemma_skip_line(s, pos + 1);
    }
}

/// The position of the next character that is neither whitespace nor
/// inside a `#` line comment.
pub open spec fn skip_trivia(s: Seq<char>, pos: int) -> int
    decreases s.len() - pos,
        when 0 <= pos
        via skip_trivia_decreases
{
    if pos >= s.len() {
        s.len() as int
    } else if is_space(s[pos]) {
        skip_trivia(s, pos + 1)
    } else if s[pos] == '#' {
        skip_trivia(s, skip_line(s, pos + 1))
    } else {
        pos
    }
}

#[via_fn]
proof fn skip_trivia_decreases(s: Seq<char>, pos: int) {
    if 0 <= pos < s.len() && !is_space(s[pos]) && s[pos] == '#' {
        lemma_skip_line(s, pos + 1);
    }
}

pub proof fn lemma_skip_trivia(s: Seq<char>, pos: int)
    requires
        0 <= pos <= s.len(),
    ensures
        pos <= skip_trivia(s, pos) <= s.len(),
        skip_trivia(s, pos) < s.len() ==> !is_space(s[skip_trivia(s, pos)]) && s[skip_trivia(
            s,
            pos,
        )] != '#',
    decreases s.len() - pos,
{
    if pos < s.len() {
        if is_space(s[pos]) {
            lemma_skip_trivia(s, pos + 1);
        } else if s[pos] == '#' {
            lemma_skip_line(s, pos + 1);
            lemma_skip_trivia(s, skip_line(s, pos + 1));
        }
    }
}

/// The end of a digit run.
pub open spec fn digits_end(s: Seq<char>, pos: int) -> int
    decreases s.len() - pos,
{
    if pos < s.len() && is_digit(s[pos]) {
        digits_end(s, pos + 1)
    } else {
        pos
    }
}

pub proof fn lemma_digits_end(s: Seq<char>, pos: int)
    requires
        0 <= pos <= s.len(),
    ensures
        pos <= digits_end(s, pos) <= s.len(),
        digits_end(s, pos) < s.len() ==> !is_digit(s[digits_end(s, pos)]),
        forall|j: int| pos <= j < digits_end(s, pos) ==> is_digit(#[trigger] s[j]),
    decreases s.len() - pos,
{
    if pos < s.len() && is_digit(s[pos]) {
        lemma_digits_end(s, pos + 1);
    }
}

/// The end of an identifier run.
pub open spec fn ident_end(s: Seq<char>, pos: int) -> int
    decreases s.len() - pos,
{
    if pos < s.len() && is_ident_cont(s[pos]) {
        ident_end(s, pos + 1)
    } else {
        pos
    }
}

pub proof fn lemma_ident_end(s: Seq<char>, pos: int)
    requires
        0 <= pos <= s.len(),
    ensures
        pos <= ident_end(s, pos) <= s.len(),
        ident_end(s, pos) < s.len() ==> !is_ident_cont(s[ident_end(s, pos)]),
        forall|j: int| pos <= j < ident_end(s, pos) ==> is_ident_cont(#[trigger] s[j]),
    decreases s.len() - pos,
{
    if pos < s.len() && is_ident_cont(s[pos]) {
        lemma_ident_end(s, pos + 1);
    }
}

/// The position of the closing quote of a single-quoted string whose
/// body starts at `pos`, where `''` is an escaped quote, or `None` if
/// the string never closes.
pub open spec fn raw_end(s: Seq<char>, pos: int) -> Option<int>
    decreases s.len() - pos,
{
    if pos >= s.len() {
        None
    } else if s[pos] != '\'' {
        raw_end(s, pos + 1)
    } else if pos + 1 < s.len() && s[pos + 1] == '\'' {
        raw_end(s, pos + 2)
    } else {
        Some(pos)
    }
}

pub proof fn lemma_raw_end(s: Seq<char>, pos: int)
    requires
        0 <= pos,
    ensures
        match raw_end(s, pos) {
            Some(e) => pos <= e < s.len() && s[e] == '\'',
            None => true,
        },
    decreases s.len() - pos,
{
    if pos < s.len() {
        if s[pos] != '\'' {
            lemma_raw_end(s, pos + 1);
        } else if pos + 1 < s.len() && s[pos + 1] == '\'' {
            lemma_raw_end(s, pos + 2);
        }
    }
}

/// The position of the closing quote of a double-quoted string whose
/// body starts at `pos`, or `None` if it never closes or holds an
/// escape other than `\b \f \n \r \t \" \\`.
pub open spec fn esc_end(s: Seq<char>, pos: int) -> Option<int>
    decreases s.len() - pos,
{
    if pos >= s.len() {
        None
    } else if s[pos] == '"' {
        Some(pos)
    } else if s[pos] == '\\' {
        if pos + 1 < s.len() && is_escape_char(s[pos + 1]) {
            esc_end(s, pos + 2)
        } else {
            None
        }
    } else {
        esc_end(s, pos + 1)
    }
}

pub proof fn lemma_esc_end(s: Seq<char>, pos: int)
    requires
        0 <= pos,
    ensures
        match esc_end(s, pos) {
            Some(e) => pos <= e < s.len() && s[e] == '"',
            None => true,
        },
    decreases s.len() - pos,
{
    if pos < s.len() && s[pos] != '"' {
        if s[pos] == '\\' {
            if pos + 1 < s.len() && is_escape_char(s[pos + 1]) {
                lemma_esc_end(s, pos + 2);
            }
        } else {
            lemma_esc_end(s, pos + 1);
        }
    }
}

/// The numeric value of a digit run.
pub open spec fn digits_val(s: Seq<char>) -> int
    decreases s.len(),
{
    if s.len() == 0 {
        0
    } else {
        digits_val(s.subrange(0, s.len() - 1)) * 10 + (s[s.len() - 1] as int - '0' as int)
    }
}

pub proof fn lemma_digits_val_nonneg(s: Seq<char>)
    requires
        forall|j: int| 0 <= j < s.len() ==> is_digit(#[trigger] s[j]),
    ensures
        digits_val(s) >= 0,
    decreases s.len(),
{
    if s.len() > 0 {
        lemma_digits_val_nonneg(s.subrange(0, s.len() - 1));
    }
}

/// The keyword a word spells, if any.
pub open spec fn keyword_of(w: Seq<char>) -> Option<Keyword> {
    if w == "True"@ {
        Some(Keyword::True)
    } else if w == "False"@ {
        Some(Keyword::False)
    } else if w == "Null"@ {
        Some(Keyword::Null)
    } else if w == "if"@ {
        Some(Keyword::If)
    } else if w == "else"@ {
        Some(Keyword::Else)
    } else if w == "exit"@ {
        Some(Keyword::Exit)
    } else {
        None
    }
}

/// The next token starting exactly at `pos` (no leading trivia), and
/// the position after it; `None` when no token starts here, in which
/// case the lexer skips one character and retries.
pub open spec fn next_token(s: Seq<char>, pos: int) -> Option<(AbsTok, int)>
    recommends
        0 <= pos < s.len(),
{
    let c = s[pos];
    if is_ident_start(c) {
        let e = ident_end(s, pos);
        let w = s.subrange(pos, e);
        match keyword_of(w) {
            Some(k) => Some((AbsTok::Keyword(k), e)),
            None => Some((AbsTok::Ident(w), e)),
        }
    } else if is_digit(c) {
        let e = digits_end(s, pos);
        if e < s.len() && s[e] == '.' {
            let e2 = digits_end(s, e + 1);
            Some((AbsTok::FloatLit(s.subrange(pos, e2)), e2))
        } else {
            let v = digits_val(s.subrange(pos, e));
            if v <= i32::MAX {
                Some((AbsTok::Int(v as i32), e))
            } else {
                None
            }
        }
    } else if c == '\'' {
        match raw_end(s, pos + 1) {
            Some(e) => Some((AbsTok::RawStr(s.subrange(pos + 1, e)), e + 1)),
            None => None,
        }
    } else if c == '"' {
        match esc_end(s, pos + 1) {
            Some(e) => Some((AbsTok::EscStr(s.subrange(pos + 1, e)), e + 1)),
            None => None,
        }
    } else {
        next_symbol(s, pos)
    }
}

/// The operator or flow symbol starting at `pos`, longest first.
pub open spec fn next_symbol(s: Seq<char>, pos: int) -> Option<(AbsTok, int)>
    recommends
        0 <= pos < s.len(),
{
    let c = s[pos];
    let two = pos + 1 < s.len();
    if c == '&' {
        Some((AbsTok::OpSym(OpSym::And), if two && s[pos + 1] == '&' {
            pos + 2
        } else {
            pos + 1
        }))
    } else if c == '|' {
        Some((AbsTok::OpSym(OpSym::Or), if two && s[pos + 1] == '|' {
            pos + 2
        } else {
            pos + 1
        }))
    } else if c == '=' {
        Some((AbsTok::OpSym(OpSym::Eq), if two && s[pos + 1] == '=' {
            pos + 2
        } else {
            pos + 1
        }))
    } else if c == '<' {
        if two && s[pos + 1] == '=' {
            Some((AbsTok::OpSym(OpSym::Lte), pos + 2))
        } else {
            Some((AbsTok::OpSym(OpSym::Lt), pos + 1))
        }
    } else if c == '>' {
        if two && s[pos + 1] == '=' {
            Some((AbsTok::OpSym(OpSym::Gte), pos + 2))
        } else {
            Some((AbsTok::OpSym(OpSym::Gt), pos + 1))
        }
    } else if c == '!' {
        if two && s[pos + 1] == '=' {
            Some((AbsTok::OpSym(OpSym::Neq), pos + 2))
        } else {
            Some((AbsTok::OpSym(OpSym::Not), pos + 1))
        }
    } else if c == '?' {
        if two && s[pos + 1] == '?' {
            Some((AbsTok::OpSym(OpSym::NullC), pos + 2))
        } else {
            None
        }
    } else if c == '+' {
        Some((AbsTok::OpSym(OpSym::Add), pos + 1))
    } else if c == '-' {
        Some((AbsTok::OpSym(OpSym::Sub), pos + 1))
    } else if c == '*' {
        Some((AbsTok::OpSym(OpSym::Mul), pos + 1))
    } else if c == '/' {
        Some((AbsTok::OpSym(OpSym::Div), pos + 1))
    } else if c == '%' {
        Some((AbsTok::OpSym(OpSym::Mod), pos + 1))
    } else if c == '$' {
        Some((AbsTok::OpSym(OpSym::Dbg), pos + 1))
    } else if c == '(' {
        Some((AbsTok::FlowSym(FlowSym::OpenParen), pos + 1))
    } else if c == ')' {
        Some((AbsTok::FlowSym(FlowSym::CloseParen), pos + 1))
    } else if c == '{' {
        Some((AbsTok::FlowSym(FlowSym::OpenBrace), pos + 1))
    } else if c == '}' {
        Some((AbsTok::FlowSym(FlowSym::CloseBrace), pos + 1))
    } else if c == '[' {
        Some((AbsTok::FlowSym(FlowSym::OpenSquare), pos + 1))
    } else if c == ']' {
        Some((AbsTok::FlowSym(FlowSym::CloseSquare), pos + 1))
    } else if c == ':' {
        Some((AbsTok::FlowSym(FlowSym::Colon), pos + 1))
    } else if c == ',' {
        Some((AbsTok::FlowSym(FlowSym::Comma), pos + 1))
    } else if c == '.' {
        Some((AbsTok::FlowSym(FlowSym::Dot), pos + 1))
    } else if c == ';' {
        Some((AbsTok::FlowSym(FlowSym::LineEnd), pos + 1))
    } else {
        None
    }
}

pub proof fn lemma_next_token(s: Seq<char>, pos: int)
    requires
        0 <= pos < s.len(),
    ensures
        match next_token(s, pos) {
            Some((t, q)) => pos < q <= s.len(),
            None => true,
        },
{
    lemma_ident_end(s, pos);
    lemma_digits_end(s, pos);
    if pos + 1 <= s.len() {
        lemma_raw_end(s, pos + 1);
        lemma_esc_end(s, pos + 1);
        if is_digit(s[pos]) {
            let e = digits_end(s, pos);
            if e < s.len() && s[e] == '.' {
                lemma_digits_end(s, e + 1);
            }
        }
    }
}

/// The token sequence of the input from `pos` on.
pub open spec fn spec_lex(s: Seq<char>, pos: int) -> Seq<AbsTok>
    decreases s.len() - pos,
        when 0 <= pos <= s.len()
        via spec_lex_decreases
{
    let p = skip_trivia(s, pos);
    if p >= s.len() {
        Seq::empty()
    } else {
        match next_token(s, p) {
            Some((t, q)) => seq![t] + spec_lex(s, q),
            None => spec_lex(s, p + 1),
        }
    }
}

#[via_fn]
proof fn spec_lex_decreases(s: Seq<char>, pos: int) {
    if 0 <= pos <= s.len() {
        lemma_skip_trivia(s, pos);
        let p = skip_trivia(s, pos);
        if p < s.len() {
            lemma_next_token(s, p);
        }
    }
}

fn is_space_exec(c: char) -> (r: bool)
    ensures
        r == is_space(c),
{
    c == ' ' || c == '\t' || c == '\n' || c == '\r'
}

fn is_digit_exec(c: char) -> (r: bool)
    ensures
        r == is_digit(c),
{
    let u = c as u32;
    48 <= u && u <= 57
}

fn is_ident_start_exec(c: char) -> (r: bool)
    ensures
        r == is_ident_start(c),
{
    let u = c as u32;
    (97 <= u && u <= 122) || (65 <= u && u <= 90) || c == '_'
}

fn is_ident_cont_exec(c: char) -> (r: bool)
    ensures
        r == is_ident_cont(c),
{
    is_ident_start_exec(c) || is_digit_exec(c)
}

pub(crate) fn is_escape_char_exec(c: char) -> (r: bool)
    ensures
        r == is_escape_char(c),
{
    c == 'b' || c == 'f' || c == 'n' || c == 'r' || c == 't' || c == '"' || c == '\\'
}

fn skip_line_exec(s: &str, pos: usize, n: usize) -> (r: usize)
    requires
        n == s@.len(),
        pos <= n,
    ensures
        r == skip_line(s@, pos as int),
        pos <= r <= n,
{
    let mut i = pos;
    while i < n
        invariant
            pos <= i <= n,
            n == s@.len(),
            skip_line(s@, pos as int) == skip_line(s@, i as int),
        decreases n - i,
    {
        if s.get_char(i) == '\n' {
            return i + 1;
        }
        i += 1;
    }
    i
}

fn skip_trivia_exec(s: &str, pos: usize, n: usize) -> (r: usize)
    requires
        n == s@.len(),
        pos <= n,
    ensures
        r == skip_trivia(s@, pos as int),
        pos <= r <= n,
        r < n ==> !is_space(s@[r as int]) && s@[r as int] != '#',
{
    proof {
        lemma_skip_trivia(s@, pos as int);
    }
    let mut i = pos;
    while i < n
        invariant
            pos <= i <= n,
            n == s@.len(),
            skip_trivia(s@, pos as int) == skip_trivia(s@, i as int),
        decreases n - i,
    {
        let c = s.get_char(i);
        if is_space_exec(c) {
            i += 1;
        } else if c == '#' {
            proof {
                lemma_skip_line(s@, i + 1 as int);
            }
            i = skip_line_exec(s, i + 1, n);
        } else {
            return i;
        }
    }
    i
}

fn digits_end_exec(s: &str, pos: usize, n: usize) -> (r: usize)
    requires
        n == s@.len(),
        pos <= n,
    ensures
        r == digits_end(s@, pos as int),
        pos <= r <= n,
{
    proof {
        lemma_digits_end(s@, pos as int);
    }
    let mut i = pos;
    while i < n
        invariant
            pos <= i <= n,
            n == s@.len(),
            digits_end(s@, pos as int) == digits_end(s@, i as int),
        decreases n - i,
    {
        if !is_digit_exec(s.get_char(i)) {
            return i;
        }
        i += 1;
    }
    i
}

fn ident_end_exec(s: &str, pos: usize, n: usize) -> (r: usize)
    requires
        n == s@.len(),
        pos <= n,
    ensures
        r == ident_end(s@, pos as int),
        pos <= r <= n,
{
    proof {
        lemma_ident_end(s@, pos as int);
    }
    let mut i = pos;
    while i < n
        invariant
            pos <= i <= n,
            n == s@.len(),
            ident_end(s@, pos as int) == ident_end(s@, i as int),
        decreases n - i,
    {
        if !is_ident_cont_exec(s.get_char(i)) {
            return i;
        }
        i += 1;
    }
    i
}

fn raw_end_exec(s: &str, pos: usize, n: usize) -> (r: Option<usize>)
    requires
        n == s@.len(),
        pos <= n,
    ensures
        match r {
            Some(e) => raw_end(s@, pos as int) == Some(e as int) && pos <= e < n,
            None => raw_end(s@, pos as int) is None,
        },
{
    proof {
        lemma_raw_end(s@, pos as int);
    }
    let mut i = pos;
    while i < n
        invariant
            pos <= i <= n,
            n == s@.len(),
            raw_end(s@, pos as int) == raw_end(s@, i as int),
        decreases n - i,
    {
        if s.get_char(i) != '\'' {
            i += 1;
        } else if i + 1 < n && s.get_char(i + 1) == '\'' {
            i += 2;
        } else {
            proof {
                lemma_raw_end(s@, i as int);
            }
            return Some(i);
        }
    }
    None
}

fn esc_end_exec(s: &str, pos: usize, n: usize) -> (r: Option<usize>)
    requires
        n == s@.len(),
        pos <= n,
    ensures
        match r {
            Some(e) => esc_end(s@, pos as int) == Some(e as int) && pos <= e < n,
            None => esc_end(s@, pos as int) is None,
        },
{
    proof {
        lemma_esc_end(s@, pos as int);
    }
    let mut i = pos;
    while i < n
        invariant
            pos <= i <= n,
            n == s@.len(),
            esc_end(s@, pos as int) == esc_end(s@, i as int),
        decreases n - i,
    {
        let c = s.get_char(i);
        if c == '"' {
            proof {
                lemma_esc_end(s@, i as int);
            }
            return Some(i);
        } else if c == '\\' {
            if i + 1 < n && is_escape_char_exec(s.get_char(i + 1)) {
                i += 2;
            } else {
                return None;
            }
        } else {
            i += 1;
        }
    }
    None
}

/// Reads the value of a digit run, or `None` when it exceeds `i32`.
pub(crate) fn digits_value_exec(s: &str, pos: usize, e: usize) -> (r: Option<i32>)
    requires
        pos <= e <= s@.len(),
        forall|j: int| pos <= j < e ==> is_digit(#[trigger] s@[j]),
    ensures
        match r {
            Some(v) => digits_val(s@.subrange(pos as int, e as int)) == v as int,
            None => digits_val(s@.subrange(pos as int, e as int)) > i32::MAX,
        },
{
    let ghost w = s@.subrange(pos as int, e as int);
    let mut acc: u64 = 0;
    let mut over = false;
    let mut i = pos;
    while i < e
        invariant
            pos <= i <= e <= s@.len(),
            w == s@.subrange(pos as int, e as int),
            forall|j: int| 0 <= j < w.len() ==> is_digit(#[trigger] w[j]),
            !over ==> acc as int == digits_val(w.subrange(0, i - pos)) && acc <= i32::MAX,
            over ==> digits_val(w.subrange(0, i - pos)) > i32::MAX,
        decreases e - i,
    {
        let c = s.get_char(i);
        proof {
            assert(w[i - pos] == s@[i as int]);
            assert(is_digit(s@[i as int]));
        }
        let d = (c as u32) - 48;
        proof {
            assert(w[i - pos] == s@[i as int]);
            assert(w.subrange(0, i - pos + 1).subrange(0, i - pos) =~= w.subrange(0, i - pos));
            assert(digits_val(w.subrange(0, i - pos + 1)) == digits_val(w.subrange(0, i - pos))
                * 10 + (w[i - pos] as int - '0' as int));
        }
        if !over {
            let next = acc * 10 + (d as u64);
            if next > (i32::MAX as u64) {
                over = true;
            } else {
                acc = next;
            }
        } else {
            proof {
                lemma_digits_val_nonneg(w.subrange(0, i - pos));
            }
        }
        i += 1;
    }
    proof {
        assert(w.subrange(0, e - pos) =~= w);
    }
    if over {
        None
    } else {
        Some(acc as i32)
    }
}

/// Reads the token starting exactly at `pos`, as `next_token` gives
/// it.
fn next_token_exec(s: &str, pos: usize, n: usize) -> (r: Option<(HtnToken, usize)>)
    requires
        n == s@.len(),
        pos < n,
    ensures
        match r {
            Some((t, q)) => next_token(s@, pos as int) == Some((t@, q as int)) && pos < q <= n,
            None => next_token(s@, pos as int) is None,
        },
{
    proof {
        lemma_next_token(s@, pos as int);
    }
    let c = s.get_char(pos);
    if is_ident_start_exec(c) {
        let e = ident_end_exec(s, pos, n);
        proof {
            lemma_ident_end(s@, pos as int);
        }
        let w = s.substring_char(pos, e);
        let tok = if str_is(w, "True") {
            HtnToken::Keyword(Keyword::True)
        } else if str_is(w, "False") {
            HtnToken::Keyword(Keyword::False)
        } else if str_is(w, "Null") {
            HtnToken::Keyword(Keyword::Null)
        } else if str_is(w, "if") {
            HtnToken::Keyword(Keyword::If)
        } else if str_is(w, "else") {
            HtnToken::Keyword(Keyword::Else)
        } else if str_is(w, "exit") {
            HtnToken::Keyword(Keyword::Exit)
        } else {
            HtnToken::Ident(w.to_owned())
        };
        Some((tok, e))
    } else if is_digit_exec(c) {
        let e = digits_end_exec(s, pos, n);
        proof {
            lemma_digits_end(s@, pos as int);
        }
        if e < n && s.get_char(e) == '.' {
            let e2 = digits_end_exec(s, e + 1, n);
            Some((HtnToken::Float(s.substring_char(pos, e2).to_owned()), e2))
        } else {
            match digits_value_exec(s, pos, e) {
                Some(v) => Some((HtnToken::Int(v), e)),
                None => None,
            }
        }
    } else if c == '\'' {
        match raw_end_exec(s, pos + 1, n) {
            Some(e) => Some((HtnToken::RawStr(s.substring_char(pos + 1, e).to_owned()), e + 1)),
            None => None,
        }
    } else if c == '"' {
        match esc_end_exec(s, pos + 1, n) {
            Some(e) => Some((HtnToken::EscStr(s.substring_char(pos + 1, e).to_owned()), e + 1)),
            None => None,
        }
    } else {
        next_symbol_exec(s, pos, n)
    }
}

/// Character-sequence equality against a literal.
fn str_is(a: &str, b: &str) -> (r: bool)
    ensures
        r == (a@ == b@),
{
    crate::htn_vm::str_eq(a, b)
}

fn next_symbol_exec(s: &str, pos: usize, n: usize) -> (r: Option<(HtnToken, usize)>)
    requires
        n == s@.len(),
        pos < n,
    ensures
        match r {
            Some((t, q)) => next_symbol(s@, pos as int) == Some((t@, q as int)) && pos < q <= n,
            None => next_symbol(s@, pos as int) is None,
        },
{
    let c = s.get_char(pos);
    let two = pos + 1 < n;
    if c == '&' {
        let q = if two && s.get_char(pos + 1) == '&' {
            pos + 2
        } else {
            pos + 1
        };
        Some((HtnToken::OpSym(OpSym::And), q))
    } else if c == '|' {
        let q = if two && s.get_char(pos + 1) == '|' {
            pos + 2
        } else {
            pos + 1
        };
        Some((HtnToken::OpSym(OpSym::Or), q))
    } else if c == '=' {
        let q = if two && s.get_char(pos + 1) == '=' {
            pos + 2
        } else {
            pos + 1
        };
        Some((HtnToken::OpSym(OpSym::Eq), q))
    } else if c == '<' {
        if two && s.get_char(pos + 1) == '=' {
            Some((HtnToken::OpSym(OpSym::Lte), pos + 2))
        } else {
            Some((HtnToken::OpSym(OpSym::Lt), pos + 1))
        }
    } else if c == '>' {
        if two && s.get_char(pos + 1) == '=' {
            Some((HtnToken::OpSym(OpSym::Gte), pos + 2))
        } else {
            Some((HtnToken::OpSym(OpSym::Gt), pos + 1))
        }
    } else if c == '!' {
        if two && s.get_char(pos + 1) == '=' {
            Some((HtnToken::OpSym(OpSym::Neq), pos + 2))
        } else {
            Some((HtnToken::OpSym(OpSym::Not), pos + 1))
        }
    } else if c == '?' {
        if two && s.get_char(pos + 1) == '?' {
            Some((HtnToken::OpSym(OpSym::NullC), pos + 2))
        } else {
            None
        }
    } else if c == '+' {
        Some((HtnToken::OpSym(OpSym::Add), pos + 1))
    } else if c == '-' {
        Some((HtnToken::OpSym(OpSym::Sub), pos + 1))
    } else if c == '*' {
        Some((HtnToken::OpSym(OpSym::Mul), pos + 1))
    } else if c == '/' {
        Some((HtnToken::OpSym(OpSym::Div), pos + 1))
    } else if c == '%' {
        Some((HtnToken::OpSym(OpSym::Mod), pos + 1))
    } else if c == '$' {
        Some((HtnToken::OpSym(OpSym::Dbg), pos + 1))
    } else if c == '(' {
        Some((HtnToken::FlowSym(FlowSym::OpenParen), pos + 1))
    } else if c == ')' {
        Some((HtnToken::FlowSym(FlowSym::CloseParen), pos + 1))
    } else if c == '{' {
        Some((HtnToken::FlowSym(FlowSym::OpenBrace), pos + 1))
    } else if c == '}' {
        Some((HtnToken::FlowSym(FlowSym::CloseBrace), pos + 1))
    } else if c == '[' {
        Some((HtnToken::FlowSym(FlowSym::OpenSquare), pos + 1))
    } else if c == ']' {
        Some((HtnToken::FlowSym(FlowSym::CloseSquare), pos + 1))
    } else if c == ':' {
        Some((HtnToken::FlowSym(FlowSym::Colon), pos + 1))
    } else if c == ',' {
        Some((HtnToken::FlowSym(FlowSym::Comma), pos + 1))
    } else if c == '.' {
        Some((HtnToken::FlowSym(FlowSym::Dot), pos + 1))
    } else if c == ';' {
        Some((HtnToken::FlowSym(FlowSym::LineEnd), pos + 1))
    } else {
        None
    }
}

/// Lexes source text into tokens; `spec_lex` says exactly which. It
/// never fails: malformed input only shortens the token stream.
#[verifier::loop_isolation(false)]
pub fn htn_lexer(source: &str) -> (r: Vec<HtnToken>)
    ensures
        abs_toks(r@) == spec_lex(source@, 0),
{
    let n = source.unicode_len();
    let mut out: Vec<HtnToken> = Vec::new();
    let mut pos: usize = 0;
    proof {
        assert(abs_toks(out@) =~= Seq::<AbsTok>::empty());
    }
    while pos < n
        invariant
            pos <= n,
            n == source@.len(),
            abs_toks(out@) + spec_lex(source@, pos as int) == spec_lex(source@, 0),
        decreases n - pos,
    {
        let p = skip_trivia_exec(source, pos, n);
        proof {
            lemma_skip_trivia(source@, pos as int);
        }
        if p >= n {
            proof {
                assert(spec_lex(source@, pos as int) =~= Seq::<AbsTok>::empty());
            }
            pos = p;
            break ;
        }
        match next_token_exec(source, p, n) {
            Some((tok, q)) => {
                let ghost prev = out@;
                out.push(tok);
                proof {
                    assert(abs_toks(out@) =~= abs_toks(prev).push(out@.last()@));
                    assert(spec_lex(source@, pos as int) == seq![out@.last()@] + spec_lex(
                        source@,
                        q as int,
                    ));
                    assert(abs_toks(out@) + spec_lex(source@, q as int) =~= abs_toks(prev) + (seq![
                        out@.last()@,
                    ] + spec_lex(source@, q as int)));
                }
                pos = q;
            },
            None => {
                proof {
                    assert(spec_lex(source@, pos as int) == spec_lex(source@, p + 1));
                }
                pos = p + 1;
            },
        }
    }
    proof {
        if pos >= n {
            assert(spec_lex(source@, pos as int) =~= Seq::<AbsTok>::empty());
        }
    }
    out
}

} // verus!
