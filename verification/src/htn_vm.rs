//! The virtual machine: bytecode operations, runtime values, and the
//! stack interpreter.
//!
//! The interpreter works on a closed dynamic value model (`DynValue`).
//! Values the host alone understands are carried as opaque handles; when
//! an operation needs the host (a global lookup, a call, a property read
//! on a handle), the machine stops with a request and is resumed with the
//! host's reply, so every decision the machine makes is verified here
//! while all host work stays with the embedding application.
//!
//! The coercion policy is pinned as follows: the falsy values are `Null`,
//! `Bool(false)`, `Int(0)`, a float literal whose digits are all zero,
//! and the empty string; arithmetic needs two integers (32-bit wrapping
//! add, subtract, multiply; division and remainder fail on a zero divisor
//! or an unrepresentable quotient) except that `Add` concatenates two
//! strings; comparisons need two integers; equality is structural; the
//! logical operators coerce both operands by truthiness.

use vstd::prelude::*;

use crate::tokens::VmValue;

verus! {

broadcast use vstd::std_specs::vec::axiom_vec_index_decreases, vstd::seq::axiom_seq_index_decreases, vstd::std_specs::vec::axiom_vec_decreases_to_view;

/// The terminal tag a program reports through `EndTick`.
#[derive(Debug, Clone, Copy, PartialEq, Eq, Structural)]
pub enum EndState {
    Success,
    Failure,
    Running,
}

/// A numeric literal: the source and the bytecode distinguish integers
/// from floating-point literals. A float is carried as its literal text
/// (digits, one `.`, optional digits); the host bridge gives it numeric
/// meaning, since floating-point arithmetic stays outside the verified
/// library.
#[derive(Debug, PartialEq, Eq)]
pub enum Num {
    Float(String),
    Int(i32),
}

impl Clone for Num {
    /// A clone is equal to the original.
    fn clone(&self) -> (res: Self)
        ensures
            res == *self,
    {
        match self {
            Num::Float(t) => Num::Float(t.clone()),
            Num::Int(i) => Num::Int(*i),
        }
    }
}

/// A dynamic runtime value. The first four variants mirror the literal
/// values of the bytecode; `Object` is an insertion-ordered string-keyed
/// record; `Handle` is an opaque reference to a host-owned value, handed
/// out by the host bridge and meaningless to the machine itself.
#[derive(Debug, PartialEq, Eq)]
pub enum DynValue {
    Null,
    Bool(bool),
    Num(Num),
    Str(String),
    Object(Vec<(String, DynValue)>),
    Handle(u32),
}

/// The mathematical value of a `DynValue`: strings become character
/// sequences, object records become sequences of key-value pairs.
pub enum AbsVal {
    Null,
    Bool(bool),
    Int(i32),
    FloatLit(Seq<char>),
    Str(Seq<char>),
    Obj(Seq<(Seq<char>, AbsVal)>),
    Handle(u32),
}

pub open spec fn abs_fields(fields: Seq<(String, DynValue)>) -> Seq<(Seq<char>, AbsVal)>
    decreases fields, 1int,
{
    if fields.len() == 0 {
        Seq::empty()
    } else {
        let n = fields.len() - 1;
        abs_fields(fields.subrange(0, n)).push((fields[n].0@, fields[n].1.view()))
    }
}

impl View for DynValue {
    type V = AbsVal;

    open spec fn view(&self) -> AbsVal
        decreases self, 0int,
    {
        match self {
            DynValue::Null => AbsVal::Null,
            DynValue::Bool(b) => AbsVal::Bool(*b),
            DynValue::Num(Num::Int(i)) => AbsVal::Int(*i),
            DynValue::Num(Num::Float(t)) => AbsVal::FloatLit(t@),
            DynValue::Str(s) => AbsVal::Str(s@),
            DynValue::Object(fields) => AbsVal::Obj(abs_fields(fields@)),
            DynValue::Handle(h) => AbsVal::Handle(*h),
        }
    }
}

/// Two field lists whose keys and values have the same mathematical
/// values abstract to the same pair sequence.
pub proof fn lemma_abs_fields_congruent(a: Seq<(String, DynValue)>, b: Seq<(String, DynValue)>)
    requires
        a.len() == b.len(),
        forall|j: int|
            0 <= j < a.len() ==> (#[trigger] a[j]).0@ == b[j].0@ && a[j].1@ == b[j].1@,
    ensures
        abs_fields(a) == abs_fields(b),
    decreases a.len(),
{
    if a.len() > 0 {
        lemma_abs_fields_congruent(a.subrange(0, a.len() - 1), b.subrange(0, b.len() - 1));
    }
}

/// `abs_fields` maps each pair to the views of its key and value.
pub proof fn lemma_abs_fields_index(s: Seq<(String, DynValue)>)
    ensures
        abs_fields(s).len() == s.len(),
        forall|j: int|
            0 <= j < s.len() ==> #[trigger] abs_fields(s)[j] == (s[j].0@, s[j].1@),
    decreases s.len(),
{
    if s.len() > 0 {
        let sub = s.subrange(0, s.len() - 1);
        lemma_abs_fields_index(sub);
        let n = s.len() - 1;
        assert(abs_fields(s) == abs_fields(sub).push((s[n].0@, s[n].1@)));
        assert(abs_fields(s).len() == s.len());
        assert forall|j: int| 0 <= j < s.len() implies abs_fields(s)[j] == (s[j].0@, s[j].1@) by {
            if j < n {
                assert(abs_fields(s)[j] == abs_fields(sub)[j]);
                assert(sub[j] == s[j]);
            }
        }
    }
}

impl Clone for DynValue {
    /// A clone has the same mathematical value.
    #[verifier::loop_isolation(false)]
    fn clone(&self) -> (res: Self)
        ensures
            res@ == self@,
        decreases self,
    {
        match self {
            DynValue::Null => DynValue::Null,
            DynValue::Bool(b) => DynValue::Bool(*b),
            DynValue::Num(n) => DynValue::Num(n.clone()),
            DynValue::Str(s) => DynValue::Str(s.clone()),
            DynValue::Object(fields) => {
                let mut out: Vec<(String, DynValue)> = Vec::new();
                let mut i: usize = 0;
                while i < fields.len()
                    invariant
                        i <= fields.len(),
                        out@.len() == i,
                        forall|j: int|
                            0 <= j < i ==> (#[trigger] out@[j]).0@ == fields@[j].0@
                                && out@[j].1@ == fields@[j].1@,
                    decreases fields.len() - i,
                {
                    proof {
                        assert(decreases_to!(*fields => fields@[i as int]));
                        assert(decreases_to!(fields@[i as int] => fields@[i as int].1));
                    }
                    let kv = &fields[i];
                    let k = kv.0.clone();
                    let v = kv.1.clone();
                    out.push((k, v));
                    i += 1;
                }
                proof {
                    lemma_abs_fields_congruent(out@, fields@);
                }
                DynValue::Object(out)
            },
            DynValue::Handle(h) => DynValue::Handle(*h),
        }
    }
}

impl View for VmValue {
    type V = AbsVal;

    open spec fn view(&self) -> AbsVal {
        match self {
            VmValue::Null => AbsVal::Null,
            VmValue::Bool(b) => AbsVal::Bool(*b),
            VmValue::Number(Num::Int(i)) => AbsVal::Int(*i),
            VmValue::Number(Num::Float(t)) => AbsVal::FloatLit(t@),
            VmValue::String(s) => AbsVal::Str(s@),
        }
    }
}

/// A bytecode operation. Each operation's stack arity is fixed and known
/// from its kind alone (see `pop_arity`).
#[derive(Debug, Clone, PartialEq, Eq)]
pub enum Operation {
    SetBlackBoard { key: String },
    GetBlackBoard { key: String },
    GetGlobal { key: String },
    Push { value: VmValue },
    DefineObj { fields: Vec<String> },
    Pop { count: u32 },
    IsNull,
    Has { key: String },
    Access { key: String },
    Call { args: u32, method: bool },
    SkipIf { skip: u32, invert: bool },
    Skip { skip: u32 },
    EndTick(EndState),
    Add,
    Sub,
    Mul,
    Div,
    Mod,
    And,
    Or,
    Eq,
    Neq,
    Lt,
    Gt,
    Lte,
    Gte,
    Not,
    Dbg,
}

/// The mathematical value of an operation: keys become character
/// sequences, literals their mathematical values.
pub enum AbsOp {
    SetBlackBoard(Seq<char>),
    GetBlackBoard(Seq<char>),
    GetGlobal(Seq<char>),
    Push(AbsVal),
    DefineObj(Seq<Seq<char>>),
    Pop(u32),
    IsNull,
    Has(Seq<char>),
    Access(Seq<char>),
    Call { args: u32, method: bool },
    SkipIf { skip: u32, invert: bool },
    Skip(u32),
    EndTick(EndState),
    Add,
    Sub,
    Mul,
    Div,
    Mod,
    And,
    Or,
    Eq,
    Neq,
    Lt,
    Gt,
    Lte,
    Gte,
    Not,
    Dbg,
}

impl View for Operation {
    type V = AbsOp;

    open spec fn view(&self) -> AbsOp {
        match self {
            Operation::SetBlackBoard { key } => AbsOp::SetBlackBoard(key@),
            Operation::GetBlackBoard { key } => AbsOp::GetBlackBoard(key@),
            Operation::GetGlobal { key } => AbsOp::GetGlobal(key@),
            Operation::Push { value } => AbsOp::Push(value.view()),
            Operation::DefineObj { fields } => AbsOp::DefineObj(
                fields@.map_values(|s: String| s@),
            ),
            Operation::Pop { count } => AbsOp::Pop(*count),
            Operation::IsNull => AbsOp::IsNull,
            Operation::Has { key } => AbsOp::Has(key@),
            Operation::Access { key } => AbsOp::Access(key@),
            Operation::Call { args, method } => AbsOp::Call { args: *args, method: *method },
            Operation::SkipIf { skip, invert } => AbsOp::SkipIf { skip: *skip, invert: *invert },
            Operation::Skip { skip } => AbsOp::Skip(*skip),
            Operation::EndTick(state) => AbsOp::EndTick(*state),
            Operation::Add => AbsOp::Add,
            Operation::Sub => AbsOp::Sub,
            Operation::Mul => AbsOp::Mul,
            Operation::Div => AbsOp::Div,
            Operation::Mod => AbsOp::Mod,
            Operation::And => AbsOp::And,
            Operation::Or => AbsOp::Or,
            Operation::Eq => AbsOp::Eq,
            Operation::Neq => AbsOp::Neq,
            Operation::Lt => AbsOp::Lt,
            Operation::Gt => AbsOp::Gt,
            Operation::Lte => AbsOp::Lte,
            Operation::Gte => AbsOp::Gte,
            Operation::Not => AbsOp::Not,
            Operation::Dbg => AbsOp::Dbg,
        }
    }
}

/// The mathematical values of an operation sequence.
pub open spec fn abs_ops(s: Seq<Operation>) -> Seq<AbsOp> {
    s.map_values(|op: Operation| op.view())
}

/// An execution error. Every error is fatal to the invocation that
/// raised it. `FuncNotFound` is reserved for call-by-name forms that the
/// current bytecode never emits.
#[derive(Debug, Clone, PartialEq, Eq)]
pub enum Error {
    StackUnderflow,
    FuncNotFound(String),
    FuncCallFailed(String),
    BadType,
    OutOfOps,
}

/// How many operands an operation pops (for the peeking operations:
/// how many it requires present).
pub open spec fn pop_arity(op: Operation) -> nat {
    match op {
        Operation::SetBlackBoard { .. } => 1,
        Operation::GetBlackBoard { .. } => 0,
        Operation::GetGlobal { .. } => 0,
        Operation::Push { .. } => 0,
        Operation::DefineObj { fields } => fields@.len(),
        Operation::Pop { count } => count as nat,
        Operation::IsNull => 1,
        Operation::Has { .. } => 1,
        Operation::Access { .. } => 1,
        Operation::Call { args, method } => args as nat + if method {
            2nat
        } else {
            1nat
        },
        Operation::SkipIf { .. } => 1,
        Operation::Skip { .. } => 0,
        Operation::EndTick(..) => 0,
        Operation::Not => 1,
        Operation::Dbg => 1,
        _ => 2,
    }
}

/// The pinned truthiness: `Null`, `Bool(false)`, `Int(0)`, a float
/// literal whose digits are all zero, and the empty string are falsy;
/// everything else, objects and handles included, is truthy.
/// Whether a float literal's text denotes zero: every character is a
/// zero digit or the decimal point.
pub open spec fn float_text_zero(t: Seq<char>) -> bool {
    forall|j: int| 0 <= j < t.len() ==> t[j] == '0' || t[j] == '.'
}

pub open spec fn spec_truthy(v: AbsVal) -> bool {
    match v {
        AbsVal::Null => false,
        AbsVal::Bool(b) => b,
        AbsVal::Int(i) => i != 0,
        AbsVal::FloatLit(t) => !float_text_zero(t),
        AbsVal::Str(s) => s.len() > 0,
        AbsVal::Obj(..) => true,
        AbsVal::Handle(..) => true,
    }
}

/// Whether every character of a float literal's text is `0` or `.`.
fn float_text_all_zero(ts: &str) -> (r: bool)
    ensures
        r == float_text_zero(ts@),
{
    let n = ts.unicode_len();
    let mut j: usize = 0;
    while j < n
        invariant
            n == ts@.len(),
            j <= n,
            forall|k: int| 0 <= k < j ==> ts@[k] == '0' || ts@[k] == '.',
        decreases n - j,
    {
        let c = ts.get_char(j);
        if !(c == '0' || c == '.') {
            return false;
        }
        j += 1;
    }
    true
}

/// Truthiness of a runtime value.
pub fn truthy(v: &DynValue) -> (r: bool)
    ensures
        r == spec_truthy(v@),
{
    match v {
        DynValue::Null => false,
        DynValue::Bool(b) => *b,
        DynValue::Num(Num::Int(i)) => *i != 0,
        DynValue::Num(Num::Float(t)) => !float_text_all_zero(t.as_str()),
        DynValue::Str(s) => s.as_str().unicode_len() > 0,
        DynValue::Object(..) => true,
        DynValue::Handle(..) => true,
    }
}

/// Structural equality of two runtime values; float literals compare by
/// their literal text.
#[verifier::loop_isolation(false)]
pub fn dyn_eq(a: &DynValue, b: &DynValue) -> (r: bool)
    ensures
        r == (a@ == b@),
    decreases a,
{
    match (a, b) {
        (DynValue::Null, DynValue::Null) => true,
        (DynValue::Bool(x), DynValue::Bool(y)) => x == y,
        (DynValue::Num(Num::Int(x)), DynValue::Num(Num::Int(y))) => x == y,
        (DynValue::Num(Num::Float(x)), DynValue::Num(Num::Float(y))) => str_eq(
            x.as_str(),
            y.as_str(),
        ),
        (DynValue::Str(x), DynValue::Str(y)) => str_eq(x.as_str(), y.as_str()),
        (DynValue::Object(xs), DynValue::Object(ys)) => obj_fields_eq(xs, ys),
        (DynValue::Handle(x), DynValue::Handle(y)) => x == y,
        _ => {
            proof {
                lemma_abs_kind(a@, b@);
            }
            false
        },
    }
}

/// Field-list equality: same length, and pairwise equal keys and values.
#[verifier::loop_isolation(false)]
fn obj_fields_eq(xs: &Vec<(String, DynValue)>, ys: &Vec<(String, DynValue)>) -> (r: bool)
    ensures
        r == (abs_fields(xs@) == abs_fields(ys@)),
    decreases *xs,
{
    proof {
        lemma_abs_fields_index(xs@);
        lemma_abs_fields_index(ys@);
    }
    if xs.len() != ys.len() {
        return false;
    }
    let mut i: usize = 0;
    while i < xs.len()
        invariant
            i <= xs.len(),
            forall|k: int|
                0 <= k < i ==> (#[trigger] xs@[k]).0@ == ys@[k].0@ && xs@[k].1@ == ys@[k].1@,
        decreases xs@.len() - i,
    {
        proof {
            assert(decreases_to!(*xs => xs@[i as int]));
            assert(decreases_to!(xs@[i as int] => xs@[i as int].1));
        }
        let kx = &xs[i];
        let ky = &ys[i];
        if !str_eq(kx.0.as_str(), ky.0.as_str()) {
            proof {
                assert(abs_fields(xs@)[i as int] != abs_fields(ys@)[i as int]);
            }
            return false;
        }
        if !dyn_eq(&kx.1, &ky.1) {
            proof {
                assert(abs_fields(xs@)[i as int] != abs_fields(ys@)[i as int]);
            }
            return false;
        }
        i += 1;
    }
    proof {
        assert(abs_fields(xs@) =~= abs_fields(ys@));
    }
    true
}

/// Values of different variants are never equal.
proof fn lemma_abs_kind(a: AbsVal, b: AbsVal)
    ensures
        a == b ==> (a is Null <==> b is Null) && (a is Bool <==> b is Bool) && (a is Int <==> b
            is Int) && (a is FloatLit <==> b is FloatLit) && (a is Str <==> b is Str) && (a
            is Obj <==> b is Obj) && (a is Handle <==> b is Handle),
{
}

/// Character-sequence equality of two string slices.
pub fn str_eq(a: &str, b: &str) -> (r: bool)
    ensures
        r == (a@ == b@),
{
    let na = a.unicode_len();
    let nb = b.unicode_len();
    if na != nb {
        return false;
    }
    let mut i: usize = 0;
    while i < na
        invariant
            na == a@.len(),
            na == b@.len(),
            i <= na,
            forall|k: int| 0 <= k < i ==> a@[k] == b@[k],
        decreases na - i,
    {
        if a.get_char(i) != b.get_char(i) {
            return false;
        }
        i += 1;
    }
    proof {
        assert(a@ =~= b@);
    }
    true
}

/// The first index of a field list whose key is `key`, or -1.
pub open spec fn field_find(fields: Seq<(Seq<char>, AbsVal)>, key: Seq<char>) -> int
    decreases fields.len(),
{
    if fields.len() == 0 {
        -1
    } else if fields[0].0 == key {
        0
    } else {
        let r = field_find(fields.subrange(1, fields.len() as int), key);
        if r < 0 {
            -1
        } else {
            r + 1
        }
    }
}

/// Store `value` under `key`: an existing key keeps its place and gets
/// the new value; a new key is appended last.
pub open spec fn field_set(
    fields: Seq<(Seq<char>, AbsVal)>,
    key: Seq<char>,
    value: AbsVal,
) -> Seq<(Seq<char>, AbsVal)> {
    let i = field_find(fields, key);
    if i >= 0 {
        fields.update(i, (key, value))
    } else {
        fields.push((key, value))
    }
}

/// Whether a field list's keys are pairwise distinct.
pub open spec fn unique_keys(fields: Seq<(Seq<char>, AbsVal)>) -> bool {
    forall|i: int, j: int|
        0 <= i < j < fields.len() ==> (#[trigger] fields[i]).0 != (#[trigger] fields[j]).0
}

/// Storing a value keeps keys unique: an empty store is unique, and
/// `field_set` preserves uniqueness, so the blackboard's keys and an
/// object's field names are always pairwise distinct.
pub proof fn lemma_field_set_keeps_unique(
    fields: Seq<(Seq<char>, AbsVal)>,
    key: Seq<char>,
    value: AbsVal,
)
    requires
        unique_keys(fields),
    ensures
        unique_keys(field_set(fields, key, value)),
{
    lemma_field_find(fields, key);
    let i = field_find(fields, key);
    if i >= 0 {
        assert(fields[i].0 == key);
        assert forall|a: int, b: int|
            0 <= a < b < field_set(fields, key, value).len() implies (#[trigger] field_set(
            fields,
            key,
            value,
        )[a]).0 != (#[trigger] field_set(fields, key, value)[b]).0 by {
            assert(fields[a].0 != fields[b].0);
        }
    }
}

/// `field_find` returns -1 or a position holding the key, and the first
/// such position.
pub proof fn lemma_field_find(fields: Seq<(Seq<char>, AbsVal)>, key: Seq<char>)
    ensures
        -1 <= field_find(fields, key) < fields.len(),
        field_find(fields, key) >= 0 ==> fields[field_find(fields, key)].0 == key,
        field_find(fields, key) == -1 ==> forall|j: int|
            0 <= j < fields.len() ==> (#[trigger] fields[j]).0 != key,
        forall|j: int|
            0 <= j < field_find(fields, key) ==> (#[trigger] fields[j]).0 != key,
    decreases fields.len(),
{
    if fields.len() > 0 && fields[0].0 != key {
        let sub = fields.subrange(1, fields.len() as int);
        lemma_field_find(sub, key);
        assert forall|j: int|
            0 <= j < fields.len() && field_find(fields, key) == -1 implies (
        #[trigger] fields[j]).0 != key by {
            if j >= 1 {
                assert(fields[j] == sub[j - 1]);
            }
        }
        assert forall|j: int| 0 <= j < field_find(fields, key) implies (#[trigger] fields[j]).0
            != key by {
            if j >= 1 {
                assert(fields[j] == sub[j - 1]);
            }
        }
    }
}

/// The record an object literal builds: the field values are taken in
/// declaration order and stored with `field_set`, so a repeated key
/// keeps its first position and its last value.
pub open spec fn build_obj(keys: Seq<Seq<char>>, vals: Seq<AbsVal>) -> Seq<(Seq<char>, AbsVal)>
    decreases keys.len(),
{
    if keys.len() == 0 {
        Seq::empty()
    } else {
        let n = keys.len() - 1;
        field_set(build_obj(keys.subrange(0, n), vals.subrange(0, n)), keys[n], vals[n])
    }
}

/// What a binary operator yields on two operands, or `None` where the
/// pinned coercion policy rejects them.
pub open spec fn eval_binop(op: Operation, a: AbsVal, b: AbsVal) -> Option<AbsVal> {
    match op {
        Operation::Add => match (a, b) {
            (AbsVal::Int(x), AbsVal::Int(y)) => Some(AbsVal::Int(x.wrapping_add(y))),
            (AbsVal::Str(x), AbsVal::Str(y)) => Some(AbsVal::Str(x + y)),
            _ => None,
        },
        Operation::Sub => match (a, b) {
            (AbsVal::Int(x), AbsVal::Int(y)) => Some(AbsVal::Int(x.wrapping_sub(y))),
            _ => None,
        },
        Operation::Mul => match (a, b) {
            (AbsVal::Int(x), AbsVal::Int(y)) => Some(AbsVal::Int(x.wrapping_mul(y))),
            _ => None,
        },
        Operation::Div => match (a, b) {
            (AbsVal::Int(x), AbsVal::Int(y)) => match x.checked_div(y) {
                Some(q) => Some(AbsVal::Int(q)),
                None => None,
            },
            _ => None,
        },
        Operation::Mod => match (a, b) {
            (AbsVal::Int(x), AbsVal::Int(y)) => match x.checked_rem(y) {
                Some(q) => Some(AbsVal::Int(q)),
                None => None,
            },
            _ => None,
        },
        Operation::And => Some(AbsVal::Bool(spec_truthy(a) && spec_truthy(b))),
        Operation::Or => Some(AbsVal::Bool(spec_truthy(a) || spec_truthy(b))),
        Operation::Eq => Some(AbsVal::Bool(a == b)),
        Operation::Neq => Some(AbsVal::Bool(a != b)),
        Operation::Lt => match (a, b) {
            (AbsVal::Int(x), AbsVal::Int(y)) => Some(AbsVal::Bool(x < y)),
            _ => None,
        },
        Operation::Gt => match (a, b) {
            (AbsVal::Int(x), AbsVal::Int(y)) => Some(AbsVal::Bool(x > y)),
            _ => None,
        },
        Operation::Lte => match (a, b) {
            (AbsVal::Int(x), AbsVal::Int(y)) => Some(AbsVal::Bool(x <= y)),
            _ => None,
        },
        Operation::Gte => match (a, b) {
            (AbsVal::Int(x), AbsVal::Int(y)) => Some(AbsVal::Bool(x >= y)),
            _ => None,
        },
        _ => None,
    }
}

/// Evaluates a binary operator on two runtime values.
fn eval_binop_exec(op: &Operation, a: &DynValue, b: &DynValue) -> (r: Option<DynValue>)
    ensures
        match r {
            Some(v) => eval_binop(*op, a@, b@) == Some(v@),
            None => eval_binop(*op, a@, b@) is None,
        },
{
    match op {
        Operation::Add => match (a, b) {
            (DynValue::Num(Num::Int(x)), DynValue::Num(Num::Int(y))) => Some(
                DynValue::Num(Num::Int(x.wrapping_add(*y))),
            ),
            (DynValue::Str(x), DynValue::Str(y)) => Some(
                DynValue::Str(x.clone().concat(y.as_str())),
            ),
            _ => None,
        },
        Operation::Sub => match (a, b) {
            (DynValue::Num(Num::Int(x)), DynValue::Num(Num::Int(y))) => Some(
                DynValue::Num(Num::Int(x.wrapping_sub(*y))),
            ),
            _ => None,
        },
        Operation::Mul => match (a, b) {
            (DynValue::Num(Num::Int(x)), DynValue::Num(Num::Int(y))) => Some(
                DynValue::Num(Num::Int(x.wrapping_mul(*y))),
            ),
            _ => None,
        },
        Operation::Div => match (a, b) {
            (DynValue::Num(Num::Int(x)), DynValue::Num(Num::Int(y))) => match x.checked_div(*y) {
                Some(q) => Some(DynValue::Num(Num::Int(q))),
                None => None,
            },
            _ => None,
        },
        Operation::Mod => match (a, b) {
            (DynValue::Num(Num::Int(x)), DynValue::Num(Num::Int(y))) => match x.checked_rem(*y) {
                Some(q) => Some(DynValue::Num(Num::Int(q))),
                None => None,
            },
            _ => None,
        },
        Operation::And => {
            let r = truthy(a) && truthy(b);
            Some(DynValue::Bool(r))
        },
        Operation::Or => {
            let r = truthy(a) || truthy(b);
            Some(DynValue::Bool(r))
        },
        Operation::Eq => {
            let r = dyn_eq(a, b);
            Some(DynValue::Bool(r))
        },
        Operation::Neq => {
            let r = !dyn_eq(a, b);
            Some(DynValue::Bool(r))
        },
        Operation::Lt => match (a, b) {
            (DynValue::Num(Num::Int(x)), DynValue::Num(Num::Int(y))) => Some(
                DynValue::Bool(*x < *y),
            ),
            _ => None,
        },
        Operation::Gt => match (a, b) {
            (DynValue::Num(Num::Int(x)), DynValue::Num(Num::Int(y))) => Some(
                DynValue::Bool(*x > *y),
            ),
            _ => None,
        },
        Operation::Lte => match (a, b) {
            (DynValue::Num(Num::Int(x)), DynValue::Num(Num::Int(y))) => Some(
                DynValue::Bool(*x <= *y),
            ),
            _ => None,
        },
        Operation::Gte => match (a, b) {
            (DynValue::Num(Num::Int(x)), DynValue::Num(Num::Int(y))) => Some(
                DynValue::Bool(*x >= *y),
            ),
            _ => None,
        },
        _ => None,
    }
}

/// The runtime value of a bytecode literal.
pub fn vm_value_to_dyn(v: &VmValue) -> (r: DynValue)
    ensures
        r@ == v@,
{
    match v {
        VmValue::Null => DynValue::Null,
        VmValue::Bool(b) => DynValue::Bool(*b),
        VmValue::Number(n) => DynValue::Num(n.clone()),
        VmValue::String(s) => DynValue::Str(s.clone()),
    }
}

/// The first index whose key matches, if any.
fn field_index_of(fields: &Vec<(String, DynValue)>, key: &str) -> (r: Option<usize>)
    ensures
        match r {
            Some(i) => i < fields@.len() && field_find(abs_fields(fields@), key@) == i as int,
            None => field_find(abs_fields(fields@), key@) == -1,
        },
{
    proof {
        lemma_abs_fields_index(fields@);
        lemma_field_find(abs_fields(fields@), key@);
    }
    let mut i: usize = 0;
    while i < fields.len()
        invariant
            i <= fields@.len(),
            forall|j: int| 0 <= j < i ==> (#[trigger] fields@[j]).0@ != key@,
            abs_fields(fields@).len() == fields@.len(),
            forall|j: int|
                0 <= j < fields@.len() ==> #[trigger] abs_fields(fields@)[j] == (
                fields@[j].0@,
                fields@[j].1@,
                ),
            -1 <= field_find(abs_fields(fields@), key@) < fields@.len(),
            field_find(abs_fields(fields@), key@) >= 0 ==> abs_fields(fields@)[field_find(
                abs_fields(fields@),
                key@,
            )].0 == key@,
            field_find(abs_fields(fields@), key@) == -1 ==> forall|j: int|
                0 <= j < fields@.len() ==> (#[trigger] abs_fields(fields@)[j]).0 != key@,
            forall|j: int|
                0 <= j < field_find(abs_fields(fields@), key@) ==> (#[trigger] abs_fields(
                    fields@,
                )[j]).0 != key@,
        decreases fields@.len() - i,
    {
        if str_eq(fields[i].0.as_str(), key) {
            proof {
                let ff = field_find(abs_fields(fields@), key@);
                assert(abs_fields(fields@)[i as int].0 == key@);
                if 0 <= ff < i {
                    assert(fields@[ff].0@ != key@);
                    assert(abs_fields(fields@)[ff] == (fields@[ff].0@, fields@[ff].1@));
                }
            }
            return Some(i);
        }
        i += 1;
    }
    None
}

/// Stores `value` under `key` in a field list: an existing key keeps
/// its place and gets the new value; a new key is appended last.
fn field_set_exec(fields: &mut Vec<(String, DynValue)>, key: &String, value: DynValue)
    ensures
        abs_fields(final(fields)@) == field_set(abs_fields(old(fields)@), key@, value@),
{
    let ghost gv = value@;
    let ghost prev = fields@;
    proof {
        lemma_abs_fields_index(prev);
        lemma_field_find(abs_fields(prev), key@);
    }
    let found = field_index_of(fields, key.as_str());
    match found {
        Some(i) => {
            let old_pair = fields.remove(i);
            fields.insert(i, (old_pair.0, value));
            proof {
                assert(fields@ =~= prev.update(i as int, (prev[i as int].0, fields@[i as int].1)));
                lemma_abs_fields_index(fields@);
                assert(fields@[i as int].1@ == gv);
                assert(abs_fields(fields@) =~= field_set(abs_fields(prev), key@, gv));
            }
        },
        None => {
            fields.push((key.clone(), value));
            proof {
                lemma_abs_fields_index(fields@);
                assert(abs_fields(fields@) =~= field_set(abs_fields(prev), key@, gv));
            }
        },
    }
}

/// Builds the record of an object literal: keys in declaration order,
/// each with the matching value.
fn build_obj_exec(keys: &Vec<String>, vals: &Vec<DynValue>) -> (out: Vec<(String, DynValue)>)
    requires
        keys@.len() == vals@.len(),
    ensures
        abs_fields(out@) == build_obj(
            keys@.map_values(|s: String| s@),
            abs_vals(vals@),
        ),
{
    let ghost gkeys = keys@.map_values(|s: String| s@);
    let ghost gvals = abs_vals(vals@);
    let mut out: Vec<(String, DynValue)> = Vec::new();
    let mut i: usize = 0;
    proof {
        assert(gkeys.subrange(0, 0) =~= Seq::<Seq<char>>::empty());
        assert(gvals.subrange(0, 0) =~= Seq::<AbsVal>::empty());
    }
    while i < keys.len()
        invariant
            keys@.len() == vals@.len(),
            gkeys == keys@.map_values(|s: String| s@),
            gvals == abs_vals(vals@),
            i <= keys@.len(),
            abs_fields(out@) == build_obj(
                gkeys.subrange(0, i as int),
                gvals.subrange(0, i as int),
            ),
        decreases keys@.len() - i,
    {
        let k = &keys[i];
        let v = vals[i].clone();
        field_set_exec(&mut out, k, v);
        proof {
            let j = i + 1 as int;
            assert(gkeys.subrange(0, j).subrange(0, j - 1) =~= gkeys.subrange(0, i as int));
            assert(gvals.subrange(0, j).subrange(0, j - 1) =~= gvals.subrange(0, i as int));
            assert(gkeys.subrange(0, j)[j - 1] == k@);
            assert(gvals.subrange(0, j)[j - 1] == vals@[i as int]@);
        }
        i += 1;
    }
    proof {
        assert(gkeys.subrange(0, gkeys.len() as int) =~= gkeys);
        assert(gvals.subrange(0, gvals.len() as int) =~= gvals);
    }
    out
}

/// The stack arity of an operation.
fn op_arity(op: &Operation) -> (r: u64)
    ensures
        r as nat == pop_arity(*op),
{
    match op {
        Operation::SetBlackBoard { .. } => 1,
        Operation::GetBlackBoard { .. } => 0,
        Operation::GetGlobal { .. } => 0,
        Operation::Push { .. } => 0,
        Operation::DefineObj { fields } => fields.len() as u64,
        Operation::Pop { count } => *count as u64,
        Operation::IsNull => 1,
        Operation::Has { .. } => 1,
        Operation::Access { .. } => 1,
        Operation::Call { args, method } => *args as u64 + if *method {
            2
        } else {
            1
        },
        Operation::SkipIf { .. } => 1,
        Operation::Skip { .. } => 0,
        Operation::EndTick(..) => 0,
        Operation::Not => 1,
        Operation::Dbg => 1,
        _ => 2,
    }
}


/// A request the machine hands to the host bridge: a global-namespace
/// lookup, an invocation, or a property read on an opaque handle.
#[derive(Debug, PartialEq, Eq)]
pub enum HostRequest {
    Global { key: String },
    Invoke { target: Option<DynValue>, callee: DynValue, args: Vec<DynValue> },
    GetField { handle: u32, key: String },
    HasField { handle: u32, key: String },
}

/// The mathematical value of a request.
pub enum AbsReq {
    Global(Seq<char>),
    Invoke(Option<AbsVal>, AbsVal, Seq<AbsVal>),
    GetField(u32, Seq<char>),
    HasField(u32, Seq<char>),
}

/// The mathematical values of a value sequence.
pub open spec fn abs_vals(s: Seq<DynValue>) -> Seq<AbsVal> {
    s.map_values(|v: DynValue| v@)
}

impl View for HostRequest {
    type V = AbsReq;

    open spec fn view(&self) -> AbsReq {
        match self {
            HostRequest::Global { key } => AbsReq::Global(key@),
            HostRequest::Invoke { target, callee, args } => AbsReq::Invoke(
                match target {
                    Some(t) => Some(t.view()),
                    None => None,
                },
                callee.view(),
                abs_vals(args@),
            ),
            HostRequest::GetField { handle, key } => AbsReq::GetField(*handle, key@),
            HostRequest::HasField { handle, key } => AbsReq::HasField(*handle, key@),
        }
    }
}

/// The host's reply to a request. `Value` carries the projected result
/// (for `HasField`, a boolean); the other variants report failure:
/// `NotInvocable` a callee that is not a function, `LookupFailed` a
/// reflection error, `CallFailed` an error raised by the invocation.
#[derive(Debug, PartialEq, Eq)]
pub enum HostReply {
    Value(DynValue),
    NotInvocable,
    LookupFailed,
    CallFailed(String),
}

/// What one dispatch step reported.
#[derive(Debug, PartialEq, Eq)]
pub enum StepResult {
    Ran,
    Halted(EndState),
    Pending(HostRequest),
    Failed(Error),
}

/// What a whole invocation reported: a terminal state, a fatal error,
/// or a request that the host must answer through `resume`.
#[derive(Debug, PartialEq, Eq)]
pub enum Outcome {
    Done(EndState),
    Fault(Error),
    Pending(HostRequest),
}

/// The mathematical value of a step or invocation outcome.
pub enum AbsOutcome {
    Ran,
    Done(EndState),
    Fault(Error),
    Pending(AbsReq),
}

impl View for StepResult {
    type V = AbsOutcome;

    open spec fn view(&self) -> AbsOutcome {
        match self {
            StepResult::Ran => AbsOutcome::Ran,
            StepResult::Halted(s) => AbsOutcome::Done(*s),
            StepResult::Pending(q) => AbsOutcome::Pending(q.view()),
            StepResult::Failed(e) => AbsOutcome::Fault(*e),
        }
    }
}

impl View for Outcome {
    type V = AbsOutcome;

    open spec fn view(&self) -> AbsOutcome {
        match self {
            Outcome::Done(s) => AbsOutcome::Done(*s),
            Outcome::Fault(e) => AbsOutcome::Fault(*e),
            Outcome::Pending(q) => AbsOutcome::Pending(q.view()),
        }
    }
}

/// The machine state after one dispatch, and what the dispatch
/// reported.
pub struct StepSpec {
    pub index: int,
    pub stack: Seq<AbsVal>,
    pub bb: Seq<(Seq<char>, AbsVal)>,
    pub dbg: Seq<AbsVal>,
    pub outcome: AbsOutcome,
}

/// A skip target, clamped to the end of the program: a displacement
/// past the end halts with `OutOfOps` either way.
pub open spec fn clamp_index(t: int, n: int) -> int {
    if t > n {
        n
    } else {
        t
    }
}

/// One dispatch of `ops[index]`: the operational semantics of the
/// machine. An operation that fails leaves the state unchanged; `Skip`
/// displacements are forward-only; every non-halting dispatch advances
/// the cursor by at least one.
pub open spec fn vm_dispatch(
    ops: Seq<Operation>,
    index: int,
    stack: Seq<AbsVal>,
    bb: Seq<(Seq<char>, AbsVal)>,
    dbg: Seq<AbsVal>,
) -> StepSpec
    recommends
        0 <= index < ops.len(),
{
    let op = ops[index];
    let n = stack.len() as int;
    if stack.len() < pop_arity(op) {
        StepSpec { index, stack, bb, dbg, outcome: AbsOutcome::Fault(Error::StackUnderflow) }
    } else {
        match op {
            Operation::SetBlackBoard { key } => StepSpec {
                index: index + 1,
                stack: stack.take(n - 1),
                bb: field_set(bb, key@, stack[n - 1]),
                dbg,
                outcome: AbsOutcome::Ran,
            },
            Operation::GetBlackBoard { key } => {
                let i = field_find(bb, key@);
                let v = if i >= 0 {
                    bb[i].1
                } else {
                    AbsVal::Obj(Seq::empty())
                };
                StepSpec { index: index + 1, stack: stack.push(v), bb, dbg, outcome: AbsOutcome::Ran }
            },
            Operation::GetGlobal { key } => StepSpec {
                index: index + 1,
                stack,
                bb,
                dbg,
                outcome: AbsOutcome::Pending(AbsReq::Global(key@)),
            },
            Operation::Push { value } => StepSpec {
                index: index + 1,
                stack: stack.push(value.view()),
                bb,
                dbg,
                outcome: AbsOutcome::Ran,
            },
            Operation::DefineObj { fields } => {
                let k = fields@.len() as int;
                let keys = fields@.map_values(|s: String| s@);
                let vals = stack.subrange(n - k, n);
                StepSpec {
                    index: index + 1,
                    stack: stack.take(n - k).push(AbsVal::Obj(build_obj(keys, vals))),
                    bb,
                    dbg,
                    outcome: AbsOutcome::Ran,
                }
            },
            Operation::Pop { count } => StepSpec {
                index: index + 1,
                stack: stack.take(n - count as int),
                bb,
                dbg,
                outcome: AbsOutcome::Ran,
            },
            Operation::IsNull => StepSpec {
                index: index + 1,
                stack: stack.push(AbsVal::Bool(stack[n - 1] is Null)),
                bb,
                dbg,
                outcome: AbsOutcome::Ran,
            },
            Operation::Has { key } => match stack[n - 1] {
                AbsVal::Obj(f) => StepSpec {
                    index: index + 1,
                    stack: stack.push(AbsVal::Bool(field_find(f, key@) >= 0)),
                    bb,
                    dbg,
                    outcome: AbsOutcome::Ran,
                },
                AbsVal::Handle(h) => StepSpec {
                    index: index + 1,
                    stack,
                    bb,
                    dbg,
                    outcome: AbsOutcome::Pending(AbsReq::HasField(h, key@)),
                },
                _ => StepSpec { index, stack, bb, dbg, outcome: AbsOutcome::Fault(Error::BadType) },
            },
            Operation::Access { key } => match stack[n - 1] {
                AbsVal::Obj(f) => {
                    let i = field_find(f, key@);
                    let v = if i >= 0 {
                        f[i].1
                    } else {
                        AbsVal::Null
                    };
                    StepSpec {
                        index: index + 1,
                        stack: stack.take(n - 1).push(v),
                        bb,
                        dbg,
                        outcome: AbsOutcome::Ran,
                    }
                },
                AbsVal::Handle(h) => StepSpec {
                    index: index + 1,
                    stack: stack.take(n - 1),
                    bb,
                    dbg,
                    outcome: AbsOutcome::Pending(AbsReq::GetField(h, key@)),
                },
                _ => StepSpec { index, stack, bb, dbg, outcome: AbsOutcome::Fault(Error::BadType) },
            },
            Operation::Call { args, method } => {
                let arity = args as int + if method {
                    2int
                } else {
                    1int
                };
                match stack[n - 1] {
                    AbsVal::Handle(h) => StepSpec {
                        index: index + 1,
                        stack: stack.take(n - arity),
                        bb,
                        dbg,
                        outcome: AbsOutcome::Pending(
                            AbsReq::Invoke(
                                if method {
                                    Some(stack[n - 2])
                                } else {
                                    None
                                },
                                AbsVal::Handle(h),
                                stack.subrange(n - arity, n - arity + args as int),
                            ),
                        ),
                    },
                    _ => StepSpec {
                        index,
                        stack,
                        bb,
                        dbg,
                        outcome: AbsOutcome::Fault(Error::BadType),
                    },
                }
            },
            Operation::SkipIf { skip, invert } => {
                let taken = spec_truthy(stack[n - 1]) != invert;
                StepSpec {
                    index: clamp_index(
                        index + 1 + if taken {
                            skip as int
                        } else {
                            0int
                        },
                        ops.len() as int,
                    ),
                    stack: stack.take(n - 1),
                    bb,
                    dbg,
                    outcome: AbsOutcome::Ran,
                }
            },
            Operation::Skip { skip } => StepSpec {
                index: clamp_index(index + 1 + skip as int, ops.len() as int),
                stack,
                bb,
                dbg,
                outcome: AbsOutcome::Ran,
            },
            Operation::EndTick(state) => StepSpec {
                index,
                stack,
                bb,
                dbg,
                outcome: AbsOutcome::Done(state),
            },
            Operation::Not => StepSpec {
                index: index + 1,
                stack: stack.take(n - 1).push(AbsVal::Bool(!spec_truthy(stack[n - 1]))),
                bb,
                dbg,
                outcome: AbsOutcome::Ran,
            },
            Operation::Dbg => StepSpec {
                index: index + 1,
                stack,
                bb,
                dbg: dbg.push(stack[n - 1]),
                outcome: AbsOutcome::Ran,
            },
            _ => match eval_binop(op, stack[n - 2], stack[n - 1]) {
                Some(v) => StepSpec {
                    index: index + 1,
                    stack: stack.take(n - 2).push(v),
                    bb,
                    dbg,
                    outcome: AbsOutcome::Ran,
                },
                None => StepSpec { index, stack, bb, dbg, outcome: AbsOutcome::Fault(Error::BadType) },
            },
        }
    }
}

/// A dispatch that reports `Ran` or `Pending` advances the cursor by at
/// least one and never past the end; one that halts or fails leaves the
/// whole state unchanged.
pub proof fn lemma_dispatch_advances(
    ops: Seq<Operation>,
    index: int,
    stack: Seq<AbsVal>,
    bb: Seq<(Seq<char>, AbsVal)>,
    dbg: Seq<AbsVal>,
)
    requires
        0 <= index < ops.len(),
    ensures
        ({
            let ss = vm_dispatch(ops, index, stack, bb, dbg);
            &&& (ss.outcome is Ran || ss.outcome is Pending) ==> index + 1 <= ss.index
                <= ops.len()
            &&& (ss.outcome is Done || ss.outcome is Fault) ==> ss.index == index && ss.stack
                == stack && ss.bb == bb && ss.dbg == dbg
        }),
{
}

/// Repeated dispatch from a given state until the program halts, fails,
/// or needs the host. Reaching the end of the operation vector without
/// an `EndTick` fails with `OutOfOps`.
pub open spec fn vm_run(
    ops: Seq<Operation>,
    index: int,
    stack: Seq<AbsVal>,
    bb: Seq<(Seq<char>, AbsVal)>,
    dbg: Seq<AbsVal>,
) -> StepSpec
    recommends
        0 <= index,
    decreases ops.len() - index,
        when 0 <= index
        via vm_run_decreases
{
    if index >= ops.len() {
        StepSpec { index, stack, bb, dbg, outcome: AbsOutcome::Fault(Error::OutOfOps) }
    } else {
        let ss = vm_dispatch(ops, index, stack, bb, dbg);
        match ss.outcome {
            AbsOutcome::Ran => vm_run(ops, ss.index, ss.stack, ss.bb, ss.dbg),
            _ => ss,
        }
    }
}

#[via_fn]
proof fn vm_run_decreases(
    ops: Seq<Operation>,
    index: int,
    stack: Seq<AbsVal>,
    bb: Seq<(Seq<char>, AbsVal)>,
    dbg: Seq<AbsVal>,
) {
    if 0 <= index < ops.len() {
        lemma_dispatch_advances(ops, index, stack, bb, dbg);
    }
}

/// How many dispatches `vm_run` makes from a given state, the one that
/// halts, fails, or goes pending included.
pub open spec fn run_steps(
    ops: Seq<Operation>,
    index: int,
    stack: Seq<AbsVal>,
    bb: Seq<(Seq<char>, AbsVal)>,
    dbg: Seq<AbsVal>,
) -> nat
    recommends
        0 <= index,
    decreases ops.len() - index,
        when 0 <= index
        via run_steps_decreases
{
    if index >= ops.len() {
        1
    } else {
        let ss = vm_dispatch(ops, index, stack, bb, dbg);
        match ss.outcome {
            AbsOutcome::Ran => 1 + run_steps(ops, ss.index, ss.stack, ss.bb, ss.dbg),
            _ => 1,
        }
    }
}

#[via_fn]
proof fn run_steps_decreases(
    ops: Seq<Operation>,
    index: int,
    stack: Seq<AbsVal>,
    bb: Seq<(Seq<char>, AbsVal)>,
    dbg: Seq<AbsVal>,
) {
    if 0 <= index < ops.len() {
        lemma_dispatch_advances(ops, index, stack, bb, dbg);
    }
}

/// Termination: however the `Skip` and `SkipIf` operands are chosen, a
/// run over a program of length `N`, started at the beginning, makes at
/// most `N + 1` dispatches before it returns; in general, a run makes
/// at most one dispatch more than there are operations left under the
/// cursor, because every dispatch that continues advances the cursor.
pub proof fn lemma_termination(
    ops: Seq<Operation>,
    index: int,
    stack: Seq<AbsVal>,
    bb: Seq<(Seq<char>, AbsVal)>,
    dbg: Seq<AbsVal>,
)
    requires
        0 <= index <= ops.len(),
    ensures
        run_steps(ops, index, stack, bb, dbg) <= ops.len() - index + 1,
    decreases ops.len() - index,
{
    if index < ops.len() {
        let ss = vm_dispatch(ops, index, stack, bb, dbg);
        lemma_dispatch_advances(ops, index, stack, bb, dbg);
        if ss.outcome is Ran {
            lemma_termination(ops, ss.index, ss.stack, ss.bb, ss.dbg);
        }
    }
}

/// Arity safety: an operation dispatched against a stack with fewer
/// elements than its declared pop-arity reports `StackUnderflow` and
/// leaves the machine unchanged.
pub proof fn lemma_arity_safety(
    ops: Seq<Operation>,
    index: int,
    stack: Seq<AbsVal>,
    bb: Seq<(Seq<char>, AbsVal)>,
    dbg: Seq<AbsVal>,
)
    requires
        0 <= index < ops.len(),
        stack.len() < pop_arity(ops[index]),
    ensures
        ({
            let ss = vm_dispatch(ops, index, stack, bb, dbg);
            &&& ss.outcome == AbsOutcome::Fault(Error::StackUnderflow)
            &&& ss.index == index
            &&& ss.stack == stack
            &&& ss.bb == bb
            &&& ss.dbg == dbg
        }),
{
}

/// The virtual machine: a compiled operation vector, a cursor, the
/// blackboard it reads and writes, the evaluation stack, and the
/// diagnostics collected by `Dbg`. `waiting` is set while a host
/// request is outstanding.
pub struct HtnVm {
    pub blackboard: vecmap::VecMap<String, DynValue>,
    pub ops: Vec<Operation>,
    pub index: usize,
    pub stack: Vec<DynValue>,
    pub waiting: bool,
    pub debug_log: Vec<DynValue>,
}

impl HtnVm {
    /// The mathematical value of the evaluation stack.
    pub open spec fn abs_stack(&self) -> Seq<AbsVal> {
        abs_vals(self.stack@)
    }

    /// The blackboard's entries, in insertion order.
    pub open spec fn abs_bb(&self) -> Seq<(Seq<char>, AbsVal)> {
        crate::blackboard::bb_entries(self.blackboard)
    }

    /// The mathematical value of the diagnostics log.
    pub open spec fn abs_dbg(&self) -> Seq<AbsVal> {
        abs_vals(self.debug_log@)
    }

    /// A fresh machine over a compiled program, with an empty
    /// blackboard.
    pub fn new(ops: Vec<Operation>) -> (vm: Self)
        ensures
            vm.ops == ops,
            vm.index == 0,
            vm.abs_stack() == Seq::<AbsVal>::empty(),
            vm.abs_bb() == Seq::<(Seq<char>, AbsVal)>::empty(),
            vm.abs_dbg() == Seq::<AbsVal>::empty(),
            !vm.waiting,
    {
        let vm = HtnVm {
            blackboard: crate::blackboard::bb_new(),
            ops,
            index: 0,
            stack: Vec::new(),
            waiting: false,
            debug_log: Vec::new(),
        };
        proof {
            assert(vm.abs_stack() =~= Seq::<AbsVal>::empty());
            assert(vm.abs_dbg() =~= Seq::<AbsVal>::empty());
        }
        vm
    }

    /// Injects or overwrites a named binding, as the embedding host
    /// does around an invocation.
    pub fn blackboard_set(&mut self, key: String, value: DynValue)
        ensures
            final(self).abs_bb() == field_set(old(self).abs_bb(), key@, value@),
            final(self).ops == old(self).ops,
            final(self).index == old(self).index,
            final(self).abs_stack() == old(self).abs_stack(),
            final(self).abs_dbg() == old(self).abs_dbg(),
            final(self).waiting == old(self).waiting,
    {
        crate::blackboard::bb_insert(&mut self.blackboard, key, value);
    }

    /// Dispatches the operation under the cursor: one step of the
    /// machine, exactly as `vm_dispatch` describes it. In particular,
    /// an operation that finds fewer operands on the stack than its
    /// arity reports `StackUnderflow` and changes nothing, and a step
    /// that reports `Ran` or `Pending` advances the cursor by at least
    /// one.
    #[verifier::loop_isolation(false)]
    pub fn step(&mut self) -> (r: StepResult)
        requires
            old(self).index < old(self).ops@.len(),
            !old(self).waiting,
        ensures
            ({
                let ss = vm_dispatch(
                    old(self).ops@,
                    old(self).index as int,
                    old(self).abs_stack(),
                    old(self).abs_bb(),
                    old(self).abs_dbg(),
                );
                &&& final(self).ops == old(self).ops
                &&& final(self).index as int == ss.index
                &&& final(self).abs_stack() == ss.stack
                &&& final(self).abs_bb() == ss.bb
                &&& final(self).abs_dbg() == ss.dbg
                &&& r@ == ss.outcome
                &&& final(self).waiting == (ss.outcome is Pending)
            }),
    {
        let ghost ss = vm_dispatch(
            self.ops@,
            self.index as int,
            self.abs_stack(),
            self.abs_bb(),
            self.abs_dbg(),
        );
        let ghost old_stack = self.abs_stack();
        let idx = self.index;
        let oplen = self.ops.len();
        let sp = self.stack.len();
        let ghost n = sp as int;
        let arity = op_arity(&self.ops[idx]);
        if (sp as u64) < arity {
            return StepResult::Failed(Error::StackUnderflow);
        }
        match &self.ops[idx] {
            Operation::SetBlackBoard { key } => {
                let k = key.clone();
                let v = self.stack.pop().unwrap();
                crate::blackboard::bb_insert(&mut self.blackboard, k, v);
                self.index = idx + 1;
                proof {
                    assert(self.abs_stack() =~= old_stack.take(n - 1));
                }
                StepResult::Ran
            },
            Operation::GetBlackBoard { key } => {
                let v = match crate::blackboard::bb_get(&self.blackboard, key.as_str()) {
                    Some(val) => val.clone(),
                    None => DynValue::Object(Vec::new()),
                };
                proof {
                    assert(abs_fields(Seq::<(String, DynValue)>::empty()) =~= Seq::<
                        (Seq<char>, AbsVal),
                    >::empty());
                }
                self.stack.push(v);
                self.index = idx + 1;
                proof {
                    assert(self.abs_stack() =~= ss.stack);
                }
                StepResult::Ran
            },
            Operation::GetGlobal { key } => {
                self.index = idx + 1;
                self.waiting = true;
                StepResult::Pending(HostRequest::Global { key: key.clone() })
            },
            Operation::Push { value } => {
                let v = vm_value_to_dyn(value);
                self.stack.push(v);
                self.index = idx + 1;
                proof {
                    assert(self.abs_stack() =~= ss.stack);
                }
                StepResult::Ran
            },
            Operation::DefineObj { fields } => {
                let k = fields.len();
                let base = sp - k;
                let mut vals: Vec<DynValue> = Vec::new();
                let mut i: usize = 0;
                while i < k
                    invariant
                        i <= k,
                        vals@.len() == i,
                        forall|j: int|
                            0 <= j < i ==> (#[trigger] vals@[j])@ == old_stack[base + j],
                    decreases k - i,
                {
                    vals.push(self.stack[base + i].clone());
                    i += 1;
                }
                let obj = build_obj_exec(fields, &vals);
                self.stack.truncate(base);
                self.stack.push(DynValue::Object(obj));
                self.index = idx + 1;
                proof {
                    assert(abs_vals(vals@) =~= old_stack.subrange(n - k as int, n));
                    assert(self.abs_stack() =~= ss.stack);
                }
                StepResult::Ran
            },
            Operation::Pop { count } => {
                let c = *count as usize;
                self.stack.truncate(sp - c);
                self.index = idx + 1;
                proof {
                    assert(self.abs_stack() =~= ss.stack);
                }
                StepResult::Ran
            },
            Operation::IsNull => {
                let is_n = matches!(&self.stack[sp - 1], DynValue::Null);
                self.stack.push(DynValue::Bool(is_n));
                self.index = idx + 1;
                proof {
                    assert(self.abs_stack() =~= ss.stack);
                }
                StepResult::Ran
            },
            Operation::Has { key } => {
                let top = self.stack.pop().unwrap();
                match top {
                    DynValue::Object(f) => {
                        let found = field_index_of(&f, key.as_str());
                        let b = matches!(found, Some(..));
                        self.stack.push(DynValue::Object(f));
                        self.stack.push(DynValue::Bool(b));
                        self.index = idx + 1;
                        proof {
                            assert(self.abs_stack() =~= old_stack.push(
                                ss.stack[ss.stack.len() - 1],
                            ));
                            assert(self.abs_stack() =~= ss.stack);
                        }
                        StepResult::Ran
                    },
                    DynValue::Handle(h) => {
                        self.stack.push(DynValue::Handle(h));
                        self.index = idx + 1;
                        self.waiting = true;
                        proof {
                            assert(self.abs_stack() =~= old_stack);
                        }
                        StepResult::Pending(HostRequest::HasField { handle: h, key: key.clone() })
                    },
                    other => {
                        self.stack.push(other);
                        proof {
                            assert(self.abs_stack() =~= old_stack);
                        }
                        StepResult::Failed(Error::BadType)
                    },
                }
            },
            Operation::Access { key } => {
                let top = self.stack.pop().unwrap();
                match top {
                    DynValue::Object(f) => {
                        let v = match field_index_of(&f, key.as_str()) {
                            Some(i) => f[i].1.clone(),
                            None => DynValue::Null,
                        };
                        self.stack.push(v);
                        self.index = idx + 1;
                        proof {
                            lemma_abs_fields_index(f@);
                            assert(self.abs_stack() =~= ss.stack);
                        }
                        StepResult::Ran
                    },
                    DynValue::Handle(h) => {
                        self.index = idx + 1;
                        self.waiting = true;
                        proof {
                            assert(self.abs_stack() =~= old_stack.take(n - 1));
                        }
                        StepResult::Pending(HostRequest::GetField { handle: h, key: key.clone() })
                    },
                    other => {
                        self.stack.push(other);
                        proof {
                            assert(self.abs_stack() =~= old_stack);
                        }
                        StepResult::Failed(Error::BadType)
                    },
                }
            },
            Operation::Call { args, method } => {
                let m = *method;
                let na = *args as usize;
                let arity_u = na + if m {
                    2
                } else {
                    1
                };
                match &self.stack[sp - 1] {
                    DynValue::Handle(h) => {
                        let h = *h;
                        let base = sp - arity_u;
                        let mut argv: Vec<DynValue> = Vec::new();
                        let mut i: usize = 0;
                        while i < na
                            invariant
                                i <= na,
                                argv@.len() == i,
                                forall|j: int|
                                    0 <= j < i ==> (#[trigger] argv@[j])@ == old_stack[base + j],
                            decreases na - i,
                        {
                            argv.push(self.stack[base + i].clone());
                            i += 1;
                        }
                        let target = if m {
                            Some(self.stack[sp - 2].clone())
                        } else {
                            None
                        };
                        self.stack.truncate(base);
                        self.index = idx + 1;
                        self.waiting = true;
                        let req = HostRequest::Invoke {
                            target,
                            callee: DynValue::Handle(h),
                            args: argv,
                        };
                        proof {
                            assert(self.abs_stack() =~= ss.stack);
                            assert(req@->Invoke_2 =~= old_stack.subrange(
                                n - arity_u as int,
                                n - arity_u as int + na as int,
                            ));
                        }
                        StepResult::Pending(req)
                    },
                    _ => StepResult::Failed(Error::BadType),
                }
            },
            Operation::SkipIf { skip, invert } => {
                let t = truthy(&self.stack[sp - 1]);
                let _ = self.stack.pop();
                let taken = t != *invert;
                let idx1 = idx + 1;
                let rest = oplen - idx1;
                let s = if taken {
                    *skip as usize
                } else {
                    0
                };
                self.index = if s >= rest {
                    oplen
                } else {
                    idx1 + s
                };
                proof {
                    assert(self.abs_stack() =~= ss.stack);
                }
                StepResult::Ran
            },
            Operation::Skip { skip } => {
                let idx1 = idx + 1;
                let rest = oplen - idx1;
                let s = *skip as usize;
                self.index = if s >= rest {
                    oplen
                } else {
                    idx1 + s
                };
                StepResult::Ran
            },
            Operation::EndTick(state) => StepResult::Halted(*state),
            Operation::Not => {
                let t = truthy(&self.stack[sp - 1]);
                let _ = self.stack.pop();
                self.stack.push(DynValue::Bool(!t));
                self.index = idx + 1;
                proof {
                    assert(self.abs_stack() =~= ss.stack);
                }
                StepResult::Ran
            },
            Operation::Dbg => {
                let v = self.stack[sp - 1].clone();
                self.debug_log.push(v);
                self.index = idx + 1;
                proof {
                    assert(self.abs_dbg() =~= ss.dbg);
                }
                StepResult::Ran
            },
            op => {
                let r = eval_binop_exec(op, &self.stack[sp - 2], &self.stack[sp - 1]);
                match r {
                    Some(v) => {
                        let _ = self.stack.pop();
                        let _ = self.stack.pop();
                        self.stack.push(v);
                        self.index = idx + 1;
                        proof {
                            assert(self.abs_stack() =~= ss.stack);
                        }
                        StepResult::Ran
                    },
                    None => StepResult::Failed(Error::BadType),
                }
            },
        }
    }

    /// Runs the machine from its current state until the program
    /// halts, fails, or needs the host, exactly as `vm_run` describes.
    #[verifier::loop_isolation(false)]
    fn run_to_outcome(&mut self) -> (r: Outcome)
        requires
            !old(self).waiting,
        ensures
            ({
                let rs = vm_run(
                    old(self).ops@,
                    old(self).index as int,
                    old(self).abs_stack(),
                    old(self).abs_bb(),
                    old(self).abs_dbg(),
                );
                &&& final(self).ops == old(self).ops
                &&& final(self).index as int == rs.index
                &&& final(self).abs_stack() == rs.stack
                &&& final(self).abs_bb() == rs.bb
                &&& final(self).abs_dbg() == rs.dbg
                &&& r@ == rs.outcome
                &&& final(self).waiting == (rs.outcome is Pending)
            }),
    {
        let ghost rs = vm_run(
            self.ops@,
            self.index as int,
            self.abs_stack(),
            self.abs_bb(),
            self.abs_dbg(),
        );
        while self.index < self.ops.len()
            invariant
                !self.waiting,
                self.ops == old(self).ops,
                rs == vm_run(
                    self.ops@,
                    self.index as int,
                    self.abs_stack(),
                    self.abs_bb(),
                    self.abs_dbg(),
                ),
            decreases self.ops@.len() - self.index,
        {
            proof {
                lemma_dispatch_advances(
                    self.ops@,
                    self.index as int,
                    self.abs_stack(),
                    self.abs_bb(),
                    self.abs_dbg(),
                );
            }
            match self.step() {
                StepResult::Ran => (),
                StepResult::Halted(s) => {
                    return Outcome::Done(s);
                },
                StepResult::Pending(q) => {
                    return Outcome::Pending(q);
                },
                StepResult::Failed(e) => {
                    return Outcome::Fault(e);
                },
            }
        }
        Outcome::Fault(Error::OutOfOps)
    }

    /// Executes the program from the start: the cursor is reset to the
    /// first operation, and the evaluation stack and the diagnostics
    /// log begin empty; the blackboard persists. The result is what
    /// `vm_run` gives from that state: a terminal state, an error, or
    /// the first host request.
    pub fn execute(&mut self) -> (r: Outcome)
        ensures
            ({
                let rs = vm_run(
                    old(self).ops@,
                    0,
                    Seq::<AbsVal>::empty(),
                    old(self).abs_bb(),
                    Seq::<AbsVal>::empty(),
                );
                &&& final(self).ops == old(self).ops
                &&& final(self).index as int == rs.index
                &&& final(self).abs_stack() == rs.stack
                &&& final(self).abs_bb() == rs.bb
                &&& final(self).abs_dbg() == rs.dbg
                &&& r@ == rs.outcome
                &&& final(self).waiting == (rs.outcome is Pending)
            }),
    {
        self.index = 0;
        self.stack = Vec::new();
        self.debug_log = Vec::new();
        self.waiting = false;
        proof {
            assert(self.abs_stack() =~= Seq::<AbsVal>::empty());
            assert(self.abs_dbg() =~= Seq::<AbsVal>::empty());
        }
        self.run_to_outcome()
    }

    /// Hands the host's reply to an outstanding request back to the
    /// machine and continues execution. A `Value` reply is pushed onto
    /// the stack; `NotInvocable` and `LookupFailed` fail with
    /// `BadType`; `CallFailed` fails with `FuncCallFailed` carrying the
    /// host's message.
    pub fn resume(&mut self, reply: HostReply) -> (r: Outcome)
        requires
            old(self).waiting,
        ensures
            ({
                match reply {
                    HostReply::Value(v) => {
                        let rs = vm_run(
                            old(self).ops@,
                            old(self).index as int,
                            old(self).abs_stack().push(v@),
                            old(self).abs_bb(),
                            old(self).abs_dbg(),
                        );
                        &&& final(self).ops == old(self).ops
                        &&& final(self).index as int == rs.index
                        &&& final(self).abs_stack() == rs.stack
                        &&& final(self).abs_bb() == rs.bb
                        &&& final(self).abs_dbg() == rs.dbg
                        &&& r@ == rs.outcome
                        &&& final(self).waiting == (rs.outcome is Pending)
                    },
                    HostReply::NotInvocable => r == Outcome::Fault(Error::BadType)
                        && !final(self).waiting,
                    HostReply::LookupFailed => r == Outcome::Fault(Error::BadType)
                        && !final(self).waiting,
                    HostReply::CallFailed(s) => r == Outcome::Fault(Error::FuncCallFailed(s))
                        && !final(self).waiting,
                }
            }),
    {
        self.waiting = false;
        match reply {
            HostReply::Value(v) => {
                self.stack.push(v);
                proof {
                    assert(self.abs_stack() =~= old(self).abs_stack().push(self.stack@.last()@));
                }
                self.run_to_outcome()
            },
            HostReply::NotInvocable => Outcome::Fault(Error::BadType),
            HostReply::LookupFailed => Outcome::Fault(Error::BadType),
            HostReply::CallFailed(s) => Outcome::Fault(Error::FuncCallFailed(s)),
        }
    }

    /// Reads a named binding, if it is present.
    pub fn blackboard_get<'a>(&'a self, key: &str) -> (r: Option<&'a DynValue>)
        ensures
            match r {
                Some(v) => field_find(self.abs_bb(), key@) >= 0 && v@ == self.abs_bb()[field_find(
                    self.abs_bb(),
                    key@,
                )].1,
                None => field_find(self.abs_bb(), key@) == -1,
            },
    {
        crate::blackboard::bb_get(&self.blackboard, key)
    }
}

} // verus!
