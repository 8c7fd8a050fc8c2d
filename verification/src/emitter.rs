//! The emitter: a single bottom-up lowering pass from the statement
//! tree to a flat operation vector. Control flow is lowered to
//! forward-only relative skips computed from the already-emitted
//! lengths of the branches, so no labels or backpatching are needed.

use vstd::prelude::*;

use crate::htn_vm::{abs_ops, AbsOp, AbsVal, Num, Operation};
use crate::parsing::{BinaryOp, HtnInstr, ParseValue, UnaryOp};
use crate::tokens::VmValue;

verus! {

broadcast use vstd::std_specs::vec::axiom_vec_index_decreases, vstd::seq::axiom_seq_index_decreases, vstd::std_specs::vec::axiom_vec_decreases_to_view;

/// Emission fails only on the one expression form that has no
/// lowering.
#[derive(Debug, Clone, Copy, PartialEq, Eq, Structural)]
pub enum EmitError {
    IndexUnsupported,
}

/// Whether a statement list contains an `Index` expression anywhere.
pub open spec fn instrs_have_index(s: Seq<HtnInstr>) -> bool
    decreases s, 1int,
{
    if s.len() == 0 {
        false
    } else {
        let n = s.len() - 1;
        instrs_have_index(s.subrange(0, n)) || instr_has_index(s[n])
    }
}

pub open spec fn instr_has_index(i: HtnInstr) -> bool
    decreases i, 0int,
{
    match i {
        HtnInstr::Assign(_, v) => value_has_index(v),
        HtnInstr::If(cond, a, b) => value_has_index(cond) || instrs_have_index(a@) || match b {
            Some(bv) => instrs_have_index(bv@),
            None => false,
        },
        HtnInstr::Exit(..) => false,
        HtnInstr::Value(v) => value_has_index(v),
        HtnInstr::Noop => false,
    }
}

pub open spec fn value_has_index(v: ParseValue) -> bool
    decreases v, 0int,
{
    match v {
        ParseValue::Literal(..) => false,
        ParseValue::Variable(..) => false,
        ParseValue::Index(..) => true,
        ParseValue::Call(target, args) => value_has_index(*target) || values_have_index(args@),
        ParseValue::Access(target, _) => value_has_index(*target),
        ParseValue::Expression(l, _, r) => value_has_index(*l) || value_has_index(*r),
        ParseValue::NullCoalesce(l, r) => value_has_index(*l) || value_has_index(*r),
        ParseValue::Unary(_, t) => value_has_index(*t),
        ParseValue::Object(fields) => fields_have_index(fields@),
    }
}

pub open spec fn values_have_index(s: Seq<ParseValue>) -> bool
    decreases s, 1int,
{
    if s.len() == 0 {
        false
    } else {
        let n = s.len() - 1;
        values_have_index(s.subrange(0, n)) || value_has_index(s[n])
    }
}

pub open spec fn fields_have_index(s: Seq<(String, ParseValue)>) -> bool
    decreases s, 1int,
{
    if s.len() == 0 {
        false
    } else {
        let n = s.len() - 1;
        fields_have_index(s.subrange(0, n)) || value_has_index(s[n].1)
    }
}

/// The operation a binary operator lowers to.
pub open spec fn binop_abs(op: BinaryOp) -> AbsOp {
    match op {
        BinaryOp::Add => AbsOp::Add,
        BinaryOp::Sub => AbsOp::Sub,
        BinaryOp::Mul => AbsOp::Mul,
        BinaryOp::Div => AbsOp::Div,
        BinaryOp::Mod => AbsOp::Mod,
        BinaryOp::And => AbsOp::And,
        BinaryOp::Or => AbsOp::Or,
        BinaryOp::Eq => AbsOp::Eq,
        BinaryOp::Neq => AbsOp::Neq,
        BinaryOp::Lt => AbsOp::Lt,
        BinaryOp::Gt => AbsOp::Gt,
        BinaryOp::Lte => AbsOp::Lte,
        BinaryOp::Gte => AbsOp::Gte,
    }
}

/// The operations a unary operator lowers to; negation has no
/// dedicated instruction and multiplies by -1.
pub open spec fn unary_abs(op: UnaryOp) -> Seq<AbsOp> {
    match op {
        UnaryOp::Not => seq![AbsOp::Not],
        UnaryOp::Neg => seq![AbsOp::Push(AbsVal::Int(-1i32)), AbsOp::Mul],
        UnaryOp::Dbg => seq![AbsOp::Dbg],
    }
}

/// The keys of an object literal, in declaration order.
pub open spec fn obj_keys(s: Seq<(String, ParseValue)>) -> Seq<Seq<char>> {
    s.map_values(|kv: (String, ParseValue)| kv.0@)
}

/// What a statement list emits: the concatenation of what each
/// statement emits, in order.
pub open spec fn emit_spec(s: Seq<HtnInstr>) -> Seq<AbsOp>
    decreases s, 1int,
{
    if s.len() == 0 {
        Seq::empty()
    } else {
        let n = s.len() - 1;
        emit_spec(s.subrange(0, n)) + instr_spec(s[n])
    }
}

/// What one statement emits. For `if C { A } else { B }`: the
/// condition, then `SkipIf` over A (plus one for the `Skip` when an
/// else-branch follows), then A, then `Skip` over B, then B.
pub open spec fn instr_spec(i: HtnInstr) -> Seq<AbsOp>
    decreases i, 0int,
{
    match i {
        HtnInstr::Assign(key, v) => resolve_spec(v).push(AbsOp::SetBlackBoard(key@)),
        HtnInstr::Value(v) => resolve_spec(v).push(AbsOp::Pop(1)),
        HtnInstr::Exit(state) => seq![AbsOp::EndTick(state)],
        HtnInstr::Noop => Seq::empty(),
        HtnInstr::If(cond, a, b) => {
            let ea = emit_spec(a@);
            match b {
                Some(bv) => {
                    let eb = emit_spec(bv@);
                    resolve_spec(cond).push(
                        AbsOp::SkipIf { skip: (ea.len() as u32).wrapping_add(1), invert: true },
                    ) + ea + seq![AbsOp::Skip(eb.len() as u32)] + eb
                },
                None => resolve_spec(cond).push(
                    AbsOp::SkipIf { skip: ea.len() as u32, invert: true },
                ) + ea,
            }
        },
    }
}

/// What an expression emits: a post-order traversal, operands before
/// the operator that consumes them, the left operand of a binary
/// expression first. `lhs ?? rhs` lowers to a null test and a `SkipIf`
/// that jumps past the discard-and-fallback exactly when the left
/// value is not null.
pub open spec fn resolve_spec(v: ParseValue) -> Seq<AbsOp>
    decreases v, 0int,
{
    match v {
        ParseValue::Literal(val) => seq![AbsOp::Push(val.view())],
        ParseValue::Variable(name) => seq![AbsOp::GetBlackBoard(name@)],
        ParseValue::Index(..) => Seq::empty(),
        ParseValue::Call(target, args) => {
            let emitted_args = resolve_list(args@);
            match *target {
                ParseValue::Access(inner, _) => emitted_args + resolve_spec(*inner) + resolve_spec(
                    *target,
                ) + seq![AbsOp::Call { args: args@.len() as u32, method: true }],
                _ => emitted_args + resolve_spec(*target) + seq![
                    AbsOp::Call { args: args@.len() as u32, method: false },
                ],
            }
        },
        ParseValue::Access(target, key) => resolve_spec(*target).push(AbsOp::Access(key@)),
        ParseValue::Expression(l, op, r) => resolve_spec(*l) + resolve_spec(*r) + seq![
            binop_abs(op),
        ],
        ParseValue::NullCoalesce(l, r) => {
            let rr = resolve_spec(*r);
            resolve_spec(*l) + seq![
                AbsOp::IsNull,
                AbsOp::SkipIf { skip: (rr.len() as u32).wrapping_add(1), invert: true },
                AbsOp::Pop(1),
            ] + rr
        },
        ParseValue::Unary(op, t) => resolve_spec(*t) + unary_abs(op),
        ParseValue::Object(fields) => resolve_fields(fields@).push(
            AbsOp::DefineObj(obj_keys(fields@)),
        ),
    }
}

/// What an argument list emits: each argument in source order.
pub open spec fn resolve_list(s: Seq<ParseValue>) -> Seq<AbsOp>
    decreases s, 1int,
{
    if s.len() == 0 {
        Seq::empty()
    } else {
        let n = s.len() - 1;
        resolve_list(s.subrange(0, n)) + resolve_spec(s[n])
    }
}

/// What an object literal's field values emit, in declaration order.
pub open spec fn resolve_fields(s: Seq<(String, ParseValue)>) -> Seq<AbsOp>
    decreases s, 1int,
{
    if s.len() == 0 {
        Seq::empty()
    } else {
        let n = s.len() - 1;
        resolve_fields(s.subrange(0, n)) + resolve_spec(s[n].1)
    }
}

/// Appends one operation.
fn push_op(out: &mut Vec<Operation>, op: Operation)
    ensures
        abs_ops(final(out)@) == abs_ops(old(out)@).push(op@),
{
    let ghost gop = op@;
    out.push(op);
    proof {
        assert(abs_ops(out@) =~= abs_ops(old(out)@).push(gop));
    }
}

/// Appends a whole operation vector, draining it.
fn append_ops(out: &mut Vec<Operation>, other: &mut Vec<Operation>)
    ensures
        abs_ops(final(out)@) == abs_ops(old(out)@) + abs_ops(old(other)@),
{
    out.append(other);
    proof {
        assert(abs_ops(out@) =~= abs_ops(old(out)@) + abs_ops(old(other)@));
    }
}

/// Appends what `v` emits; fails exactly when the tree holds an
/// `Index` expression.
#[verifier::loop_isolation(false)]
#[verifier::rlimit(50)]
fn resolve_into(v: &ParseValue, out: &mut Vec<Operation>) -> (ok: bool)
    ensures
        ok == !value_has_index(*v),
        ok ==> abs_ops(final(out)@) == abs_ops(old(out)@) + resolve_spec(*v),
    decreases v, 0int,
{
    match v {
        ParseValue::Literal(val) => {
            push_op(out, Operation::Push { value: val.clone() });
            proof {
                assert(abs_ops(out@) =~= abs_ops(old(out)@) + resolve_spec(*v));
            }
            true
        },
        ParseValue::Variable(name) => {
            push_op(out, Operation::GetBlackBoard { key: name.clone() });
            proof {
                assert(abs_ops(out@) =~= abs_ops(old(out)@) + resolve_spec(*v));
            }
            true
        },
        ParseValue::Index(..) => false,
        ParseValue::Call(target, args) => {
            let mut i: usize = 0;
            while i < args.len()
                invariant
                    i <= args@.len(),
                    !values_have_index(args@.subrange(0, i as int)),
                    abs_ops(out@) == abs_ops(old(out)@) + resolve_list(args@.subrange(0, i as int)),
                decreases args@.len() - i,
            {
                proof {
                    assert(decreases_to!(*args => args@[i as int]));
                }
                if !resolve_into(&args[i], out) {
                    proof {
                        lemma_values_have_index_extend(args@, i as int);
                    }
                    return false;
                }
                proof {
                    assert(args@.subrange(0, i + 1).subrange(0, i as int) =~= args@.subrange(
                        0,
                        i as int,
                    ));
                }
                i += 1;
            }
            proof {
                assert(args@.subrange(0, args@.len() as int) =~= args@);
            }
            let mut method = false;
            match &**target {
                ParseValue::Access(inner, _) => {
                    if !resolve_into(inner, out) {
                        proof {
                            assert(value_has_index(**target));
                        }
                        return false;
                    }
                    method = true;
                },
                _ => (),
            }
            if !resolve_into(target, out) {
                return false;
            }
            #[verifier::truncate]
            let n_args = args.len() as u32;
            push_op(out, Operation::Call { args: n_args, method });
            proof {
                assert(abs_ops(out@) =~= abs_ops(old(out)@) + resolve_spec(*v));
            }
            true
        },
        ParseValue::Access(target, key) => {
            if !resolve_into(target, out) {
                return false;
            }
            push_op(out, Operation::Access { key: key.clone() });
            proof {
                assert(abs_ops(out@) =~= abs_ops(old(out)@) + resolve_spec(*v));
            }
            true
        },
        ParseValue::Expression(l, op, r) => {
            if !resolve_into(l, out) {
                return false;
            }
            if !resolve_into(r, out) {
                return false;
            }
            push_op(
                out,
                match op {
                    BinaryOp::Add => Operation::Add,
                    BinaryOp::Sub => Operation::Sub,
                    BinaryOp::Mul => Operation::Mul,
                    BinaryOp::Div => Operation::Div,
                    BinaryOp::Mod => Operation::Mod,
                    BinaryOp::And => Operation::And,
                    BinaryOp::Or => Operation::Or,
                    BinaryOp::Eq => Operation::Eq,
                    BinaryOp::Neq => Operation::Neq,
                    BinaryOp::Lt => Operation::Lt,
                    BinaryOp::Gt => Operation::Gt,
                    BinaryOp::Lte => Operation::Lte,
                    BinaryOp::Gte => Operation::Gte,
                },
            );
            proof {
                assert(abs_ops(out@) =~= abs_ops(old(out)@) + resolve_spec(*v));
            }
            true
        },
        ParseValue::NullCoalesce(l, r) => {
            if !resolve_into(l, out) {
                return false;
            }
            let mut rhs_ops: Vec<Operation> = Vec::new();
            if !resolve_into(r, &mut rhs_ops) {
                return false;
            }
            #[verifier::truncate]
            let rhs_len = rhs_ops.len() as u32;
            push_op(out, Operation::IsNull);
            push_op(out, Operation::SkipIf { skip: rhs_len.wrapping_add(1), invert: true });
            push_op(out, Operation::Pop { count: 1 });
            append_ops(out, &mut rhs_ops);
            proof {
                assert(abs_ops(out@) =~= abs_ops(old(out)@) + resolve_spec(*v));
            }
            true
        },
        ParseValue::Unary(op, t) => {
            if !resolve_into(t, out) {
                return false;
            }
            match op {
                UnaryOp::Not => {
                    push_op(out, Operation::Not);
                },
                UnaryOp::Neg => {
                    push_op(out, Operation::Push { value: VmValue::Number(Num::Int(-1)) });
                    push_op(out, Operation::Mul);
                },
                UnaryOp::Dbg => {
                    push_op(out, Operation::Dbg);
                },
            }
            proof {
                assert(abs_ops(out@) =~= abs_ops(old(out)@) + resolve_spec(*v));
            }
            true
        },
        ParseValue::Object(fields) => {
            let mut i: usize = 0;
            while i < fields.len()
                invariant
                    i <= fields@.len(),
                    !fields_have_index(fields@.subrange(0, i as int)),
                    abs_ops(out@) == abs_ops(old(out)@) + resolve_fields(
                        fields@.subrange(0, i as int),
                    ),
                decreases fields@.len() - i,
            {
                proof {
                    assert(decreases_to!(*fields => fields@[i as int]));
                    assert(decreases_to!(fields@[i as int] => fields@[i as int].1));
                }
                if !resolve_into(&fields[i].1, out) {
                    proof {
                        lemma_fields_have_index_extend(fields@, i as int);
                    }
                    return false;
                }
                proof {
                    assert(fields@.subrange(0, i + 1).subrange(0, i as int) =~= fields@.subrange(
                        0,
                        i as int,
                    ));
                }
                i += 1;
            }
            let mut keys: Vec<String> = Vec::new();
            let mut j: usize = 0;
            while j < fields.len()
                invariant
                    j <= fields@.len(),
                    keys@.len() == j,
                    forall|k: int| 0 <= k < j ==> (#[trigger] keys@[k])@ == fields@[k].0@,
                decreases fields@.len() - j,
            {
                keys.push(fields[j].0.clone());
                j += 1;
            }
            push_op(out, Operation::DefineObj { fields: keys });
            proof {
                assert(fields@.subrange(0, fields@.len() as int) =~= fields@);
                assert(keys@.map_values(|s: String| s@) =~= obj_keys(fields@));
                assert(abs_ops(out@) =~= abs_ops(old(out)@) + resolve_spec(*v));
            }
            true
        },
    }
}

/// An `Index` in a prefix of a list means one in the whole list.
proof fn lemma_values_have_index_extend(s: Seq<ParseValue>, i: int)
    requires
        0 <= i < s.len(),
        value_has_index(s[i]) || values_have_index(s.subrange(0, i)),
    ensures
        values_have_index(s),
    decreases s.len(),
{
    let n = s.len() - 1;
    if i == n {
        assert(values_have_index(s));
    } else {
        assert(s.subrange(0, n)[i] == s[i]);
        assert(s.subrange(0, n).subrange(0, i) =~= s.subrange(0, i));
        lemma_values_have_index_extend(s.subrange(0, n), i);
    }
}

/// An `Index` under a prefix of a field list means one under the whole
/// list.
proof fn lemma_fields_have_index_extend(s: Seq<(String, ParseValue)>, i: int)
    requires
        0 <= i < s.len(),
        value_has_index(s[i].1) || fields_have_index(s.subrange(0, i)),
    ensures
        fields_have_index(s),
    decreases s.len(),
{
    let n = s.len() - 1;
    if i == n {
        assert(fields_have_index(s));
    } else {
        assert(s.subrange(0, n)[i] == s[i]);
        assert(s.subrange(0, n).subrange(0, i) =~= s.subrange(0, i));
        lemma_fields_have_index_extend(s.subrange(0, n), i);
    }
}

/// An `Index` under a prefix of a statement list means one under the
/// whole list.
proof fn lemma_instrs_have_index_extend(s: Seq<HtnInstr>, i: int)
    requires
        0 <= i < s.len(),
        instr_has_index(s[i]) || instrs_have_index(s.subrange(0, i)),
    ensures
        instrs_have_index(s),
    decreases s.len(),
{
    let n = s.len() - 1;
    if i == n {
        assert(instrs_have_index(s));
    } else {
        assert(s.subrange(0, n)[i] == s[i]);
        assert(s.subrange(0, n).subrange(0, i) =~= s.subrange(0, i));
        lemma_instrs_have_index_extend(s.subrange(0, n), i);
    }
}

/// Appends what one statement emits.
#[verifier::loop_isolation(false)]
#[verifier::rlimit(50)]
fn instr_into(instr: &HtnInstr, out: &mut Vec<Operation>) -> (ok: bool)
    ensures
        ok == !instr_has_index(*instr),
        ok ==> abs_ops(final(out)@) == abs_ops(old(out)@) + instr_spec(*instr),
    decreases instr, 0int,
{
    match instr {
        HtnInstr::Assign(key, v) => {
            if !resolve_into(v, out) {
                return false;
            }
            push_op(out, Operation::SetBlackBoard { key: key.clone() });
            proof {
                assert(abs_ops(out@) =~= abs_ops(old(out)@) + instr_spec(*instr));
            }
            true
        },
        HtnInstr::Value(v) => {
            if !resolve_into(v, out) {
                return false;
            }
            push_op(out, Operation::Pop { count: 1 });
            proof {
                assert(abs_ops(out@) =~= abs_ops(old(out)@) + instr_spec(*instr));
            }
            true
        },
        HtnInstr::Exit(state) => {
            push_op(out, Operation::EndTick(*state));
            proof {
                assert(abs_ops(out@) =~= abs_ops(old(out)@) + instr_spec(*instr));
            }
            true
        },
        HtnInstr::Noop => {
            proof {
                assert(abs_ops(out@) =~= abs_ops(old(out)@) + instr_spec(*instr));
            }
            true
        },
        HtnInstr::If(cond, a, b) => {
            if !resolve_into(cond, out) {
                return false;
            }
            let mut a_ops: Vec<Operation> = Vec::new();
            if !emit_into(a, &mut a_ops) {
                return false;
            }
            #[verifier::truncate]
            let a_len = a_ops.len() as u32;
            match b {
                Some(bv) => {
                    let mut b_ops: Vec<Operation> = Vec::new();
                    if !emit_into(bv, &mut b_ops) {
                        return false;
                    }
                    #[verifier::truncate]
                    let b_len = b_ops.len() as u32;
                    push_op(out, Operation::SkipIf { skip: a_len.wrapping_add(1), invert: true });
                    append_ops(out, &mut a_ops);
                    push_op(out, Operation::Skip { skip: b_len });
                    append_ops(out, &mut b_ops);
                    proof {
                        assert(abs_ops(out@) =~= abs_ops(old(out)@) + instr_spec(*instr));
                    }
                    true
                },
                None => {
                    push_op(out, Operation::SkipIf { skip: a_len, invert: true });
                    append_ops(out, &mut a_ops);
                    proof {
                        assert(abs_ops(out@) =~= abs_ops(old(out)@) + instr_spec(*instr));
                    }
                    true
                },
            }
        },
    }
}

/// Appends what a statement list emits.
#[verifier::loop_isolation(false)]
fn emit_into(instrs: &Vec<HtnInstr>, out: &mut Vec<Operation>) -> (ok: bool)
    ensures
        ok == !instrs_have_index(instrs@),
        ok ==> abs_ops(final(out)@) == abs_ops(old(out)@) + emit_spec(instrs@),
    decreases instrs, 1int,
{
    let mut i: usize = 0;
    while i < instrs.len()
        invariant
            i <= instrs@.len(),
            !instrs_have_index(instrs@.subrange(0, i as int)),
            abs_ops(out@) == abs_ops(old(out)@) + emit_spec(instrs@.subrange(0, i as int)),
        decreases instrs@.len() - i,
    {
        proof {
            assert(decreases_to!(*instrs => instrs@[i as int]));
        }
        if !instr_into(&instrs[i], out) {
            proof {
                lemma_instrs_have_index_extend(instrs@, i as int);
            }
            return false;
        }
        proof {
            assert(instrs@.subrange(0, i + 1).subrange(0, i as int) =~= instrs@.subrange(
                0,
                i as int,
            ));
        }
        i += 1;
    }
    proof {
        assert(instrs@.subrange(0, instrs@.len() as int) =~= instrs@);
    }
    true
}

/// Lowers a statement list to a flat operation vector; `emit_spec`
/// says exactly which. Fails if and only if the tree holds an `Index`
/// expression, the one form with no lowering.
pub fn emit(instrs: &Vec<HtnInstr>) -> (r: Result<Vec<Operation>, EmitError>)
    ensures
        match r {
            Ok(ops) => !instrs_have_index(instrs@) && abs_ops(ops@) == emit_spec(instrs@),
            Err(e) => e == EmitError::IndexUnsupported && instrs_have_index(instrs@),
        },
{
    let mut out: Vec<Operation> = Vec::new();
    if emit_into(instrs, &mut out) {
        proof {
            assert(abs_ops(Seq::<Operation>::empty()) =~= Seq::<AbsOp>::empty());
        }
        Ok(out)
    } else {
        Err(EmitError::IndexUnsupported)
    }
}

/// Compiling `if C { A } else { B }` places, right after the condition,
/// a `SkipIf` whose displacement is the length of the lowered `A` plus
/// one, then the lowered `A`, then a `Skip` whose displacement is the
/// length of the lowered `B`, then the lowered `B`.
pub proof fn lemma_if_else_skip_layout(i: HtnInstr)
    ensures
        ({
            match i {
                HtnInstr::If(cond, a, Some(b)) => {
                    let ea = emit_spec(a@);
                    let eb = emit_spec(b@);
                    (ea.len() + 1 <= u32::MAX && eb.len() <= u32::MAX) ==> instr_spec(i)
                        == resolve_spec(cond) + seq![
                        AbsOp::SkipIf { skip: (ea.len() + 1) as u32, invert: true },
                    ] + ea + seq![AbsOp::Skip(eb.len() as u32)] + eb
                },
                _ => true,
            }
        }),
{
    match i {
        HtnInstr::If(cond, a, b_opt) => {
            match b_opt {
                Some(b) => {
                    let ea = emit_spec(a@);
                    let eb = emit_spec(b@);
                    if ea.len() + 1 <= u32::MAX && eb.len() <= u32::MAX {
                        assert(instr_spec(i) =~= resolve_spec(cond) + seq![
                            AbsOp::SkipIf { skip: (ea.len() + 1) as u32, invert: true },
                        ] + ea + seq![AbsOp::Skip(eb.len() as u32)] + eb);
                    }
                },
                None => (),
            }
        },
        _ => (),
    }
}

} // verus!
