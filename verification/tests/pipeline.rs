use htn::emitter::{emit, EmitError};
use htn::htn_vm::{DynValue, EndState, Error, HtnVm, Num, Operation, Outcome};
use htn::lexer::htn_lexer;
use htn::parsing::{htn_parser, HtnInstr, ParseValue};
use htn::tokens::VmValue;

fn compile(src: &str) -> Vec<Operation> {
    let toks = htn_lexer(src);
    let ast = htn_parser(&toks).expect("parse");
    emit(&ast).expect("emit")
}

fn run(src: &str) -> (HtnVm, Outcome) {
    let mut vm = HtnVm::new(compile(src));
    let r = vm.execute();
    (vm, r)
}

#[test]
fn exit_success_compiles_to_end_tick() {
    assert_eq!(compile("exit Success;"), vec![Operation::EndTick(EndState::Success)]);
}

#[test]
fn exit_success_executes_to_success() {
    let (_, r) = run("exit Success;");
    assert_eq!(r, Outcome::Done(EndState::Success));
}

#[test]
fn bare_expression_compiles_without_terminal() {
    assert_eq!(
        compile("1 + 2;"),
        vec![
            Operation::Push { value: VmValue::Number(Num::Int(1)) },
            Operation::Push { value: VmValue::Number(Num::Int(2)) },
            Operation::Add,
            Operation::Pop { count: 1 },
        ]
    );
}

#[test]
fn bare_expression_runs_out_of_ops() {
    let (_, r) = run("1 + 2;");
    assert_eq!(r, Outcome::Fault(Error::OutOfOps));
}

#[test]
fn null_coalesce_binds_right_hand_side() {
    let (vm, r) = run("y = Null ?? 5; exit Success;");
    assert_eq!(r, Outcome::Done(EndState::Success));
    assert_eq!(vm.blackboard_get("y"), Some(&DynValue::Num(Num::Int(5))));
}

#[test]
fn null_coalesce_keeps_non_null_left_hand_side() {
    let (vm, r) = run("y = 7 ?? 5; exit Success;");
    assert_eq!(r, Outcome::Done(EndState::Success));
    assert_eq!(vm.blackboard_get("y"), Some(&DynValue::Num(Num::Int(7))));
}

#[test]
fn object_literal_fields_are_not_transposed() {
    let (vm, r) = run("o = {\"a\": 1, \"b\": 2}; exit Success;");
    assert_eq!(r, Outcome::Done(EndState::Success));
    let expected = DynValue::Object(vec![
        ("a".to_string(), DynValue::Num(Num::Int(1))),
        ("b".to_string(), DynValue::Num(Num::Int(2))),
    ]);
    assert_eq!(vm.blackboard_get("o"), Some(&expected));
}

#[test]
fn conditional_takes_then_branch_on_true() {
    let (_, r) = run("x = True; if x { exit Success; } else { exit Failure; }");
    assert_eq!(r, Outcome::Done(EndState::Success));
}

#[test]
fn conditional_takes_else_branch_on_false() {
    let (_, r) = run("x = False; if x { exit Success; } else { exit Failure; }");
    assert_eq!(r, Outcome::Done(EndState::Failure));
}

#[test]
fn if_else_skip_arithmetic_in_emitted_code() {
    // then-branch emits 2 ops, else-branch emits 4.
    let ops = compile("if True { y = 1; } else { y = 2; z = 3; }");
    assert_eq!(
        ops,
        vec![
            Operation::Push { value: VmValue::Bool(true) },
            Operation::SkipIf { skip: 3, invert: true },
            Operation::Push { value: VmValue::Number(Num::Int(1)) },
            Operation::SetBlackBoard { key: "y".to_string() },
            Operation::Skip { skip: 4 },
            Operation::Push { value: VmValue::Number(Num::Int(2)) },
            Operation::SetBlackBoard { key: "y".to_string() },
            Operation::Push { value: VmValue::Number(Num::Int(3)) },
            Operation::SetBlackBoard { key: "z".to_string() },
        ]
    );
}

#[test]
fn if_without_else_omits_the_skip() {
    let ops = compile("if True { y = 1; } exit Success;");
    assert_eq!(
        ops,
        vec![
            Operation::Push { value: VmValue::Bool(true) },
            Operation::SkipIf { skip: 2, invert: true },
            Operation::Push { value: VmValue::Number(Num::Int(1)) },
            Operation::SetBlackBoard { key: "y".to_string() },
            Operation::EndTick(EndState::Success),
        ]
    );
}

#[test]
fn negation_lowers_to_multiply_by_minus_one() {
    assert_eq!(
        compile("y = -3; exit S;"),
        vec![
            Operation::Push { value: VmValue::Number(Num::Int(3)) },
            Operation::Push { value: VmValue::Number(Num::Int(-1)) },
            Operation::Mul,
            Operation::SetBlackBoard { key: "y".to_string() },
            Operation::EndTick(EndState::Success),
        ]
    );
}

#[test]
fn addition_is_right_associative() {
    // a + (b + c): b and c are combined first.
    let (vm, r) = run("y = 1 + 2 + 3; exit S;");
    assert_eq!(r, Outcome::Done(EndState::Success));
    assert_eq!(vm.blackboard_get("y"), Some(&DynValue::Num(Num::Int(6))));
    let ops = compile("y = 1 + 2 + 3; exit S;");
    assert_eq!(
        &ops[..5],
        &[
            Operation::Push { value: VmValue::Number(Num::Int(1)) },
            Operation::Push { value: VmValue::Number(Num::Int(2)) },
            Operation::Push { value: VmValue::Number(Num::Int(3)) },
            Operation::Add,
            Operation::Add,
        ]
    );
}

#[test]
fn precedence_binds_product_tighter_than_sum() {
    let (vm, _) = run("y = 2 + 3 * 4; exit S;");
    assert_eq!(vm.blackboard_get("y"), Some(&DynValue::Num(Num::Int(14))));
}

#[test]
fn comments_and_recovery_shorten_the_token_stream() {
    // `@` is no token: it is skipped and lexing resumes.
    let (vm, r) = run("# a comment\ny = @ 5; exit S;");
    assert_eq!(r, Outcome::Done(EndState::Success));
    assert_eq!(vm.blackboard_get("y"), Some(&DynValue::Num(Num::Int(5))));
}

#[test]
fn escaped_string_literal_is_decoded() {
    let (vm, _) = run("y = \"a\\nb\"; exit S;");
    assert_eq!(vm.blackboard_get("y"), Some(&DynValue::Str("a\nb".to_string())));
}

#[test]
fn raw_string_collapses_doubled_quotes() {
    let (vm, _) = run("y = 'it''s'; exit S;");
    assert_eq!(vm.blackboard_get("y"), Some(&DynValue::Str("it's".to_string())));
}

#[test]
fn string_concatenation_and_comparisons() {
    let (vm, _) = run("y = 'ab' + 'cd'; z = 1 < 2; w = 'x' == 'x'; exit S;");
    assert_eq!(vm.blackboard_get("y"), Some(&DynValue::Str("abcd".to_string())));
    assert_eq!(vm.blackboard_get("z"), Some(&DynValue::Bool(true)));
    assert_eq!(vm.blackboard_get("w"), Some(&DynValue::Bool(true)));
}

#[test]
fn integer_arithmetic_wraps_at_32_bits() {
    let (vm, _) = run("y = 2147483647 + 1; exit S;");
    assert_eq!(vm.blackboard_get("y"), Some(&DynValue::Num(Num::Int(-2147483648))));
}

#[test]
fn division_by_zero_is_a_type_error() {
    let (_, r) = run("y = 1 / 0; exit S;");
    assert_eq!(r, Outcome::Fault(Error::BadType));
}

#[test]
fn arithmetic_on_a_boolean_is_a_type_error() {
    let (_, r) = run("y = True + 1; exit S;");
    assert_eq!(r, Outcome::Fault(Error::BadType));
}

#[test]
fn member_access_and_has_on_objects() {
    let (vm, r) = run("o = {\"a\": 41}; y = o.a + 1; exit S;");
    assert_eq!(r, Outcome::Done(EndState::Success));
    assert_eq!(vm.blackboard_get("y"), Some(&DynValue::Num(Num::Int(42))));
}

#[test]
fn missing_member_reads_as_null() {
    let (vm, _) = run("o = {\"a\": 1}; y = o.b ?? 9; exit S;");
    assert_eq!(vm.blackboard_get("y"), Some(&DynValue::Num(Num::Int(9))));
}

#[test]
fn float_literals_carry_their_text() {
    assert_eq!(
        compile("y = 1.5; exit S;"),
        vec![
            Operation::Push { value: VmValue::Number(Num::Float("1.5".to_string())) },
            Operation::SetBlackBoard { key: "y".to_string() },
            Operation::EndTick(EndState::Success),
        ]
    );
}

#[test]
fn exit_accepts_all_six_spellings() {
    assert_eq!(compile("exit S;"), vec![Operation::EndTick(EndState::Success)]);
    assert_eq!(compile("exit Failure;"), vec![Operation::EndTick(EndState::Failure)]);
    assert_eq!(compile("exit F;"), vec![Operation::EndTick(EndState::Failure)]);
    assert_eq!(compile("exit Running;"), vec![Operation::EndTick(EndState::Running)]);
    assert_eq!(compile("exit C;"), vec![Operation::EndTick(EndState::Running)]);
}

#[test]
fn unclosed_brace_is_a_hard_parse_failure() {
    let toks = htn_lexer("if True { exit S;");
    assert!(htn_parser(&toks).is_err());
}

#[test]
fn index_syntax_does_not_parse() {
    let toks = htn_lexer("y = a[0]; exit S;");
    assert!(htn_parser(&toks).is_err());
}

#[test]
fn emitting_a_hand_built_index_expression_fails() {
    let tree = vec![HtnInstr::Value(ParseValue::Index(
        Box::new(ParseValue::Variable("a".to_string())),
        Box::new(ParseValue::Literal(VmValue::Number(Num::Int(0)))),
    ))];
    assert_eq!(emit(&tree), Err(EmitError::IndexUnsupported));
}

#[test]
fn logical_and_unary_operators_follow_truthiness() {
    let (vm, _) = run("a = !False; b = 1 && 0; c = 0 || 'x'; exit S;");
    assert_eq!(vm.blackboard_get("a"), Some(&DynValue::Bool(true)));
    assert_eq!(vm.blackboard_get("b"), Some(&DynValue::Bool(false)));
    assert_eq!(vm.blackboard_get("c"), Some(&DynValue::Bool(true)));
}

#[test]
fn an_overlong_integer_literal_recovers_by_shedding_digits() {
    // 11 nines overflow; the lexer sheds one character at a time until
    // nine nines fit.
    let toks = htn_lexer("99999999999");
    assert_eq!(toks, vec![htn::tokens::HtnToken::Int(999999999)]);
}

#[test]
fn empty_source_compiles_to_nothing_and_runs_out() {
    let ops = compile("");
    assert_eq!(ops, vec![]);
    let mut vm = HtnVm::new(ops);
    assert_eq!(vm.execute(), Outcome::Fault(Error::OutOfOps));
}
