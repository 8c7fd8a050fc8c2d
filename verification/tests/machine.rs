use htn::htn_vm::{
    truthy, DynValue, EndState, Error, HostReply, HostRequest, HtnVm, Num, Operation, Outcome,
};

#[test]
fn hand_built_pop_on_empty_stack_underflows() {
    let mut vm = HtnVm::new(vec![Operation::Pop { count: 1 }]);
    assert_eq!(vm.execute(), Outcome::Fault(Error::StackUnderflow));
}

#[test]
fn every_consuming_operation_underflows_on_an_empty_stack() {
    let ops = vec![
        Operation::SetBlackBoard { key: "k".to_string() },
        Operation::Pop { count: 1 },
        Operation::IsNull,
        Operation::Has { key: "k".to_string() },
        Operation::Access { key: "k".to_string() },
        Operation::Call { args: 0, method: false },
        Operation::SkipIf { skip: 0, invert: false },
        Operation::Add,
        Operation::Sub,
        Operation::Mul,
        Operation::Div,
        Operation::Mod,
        Operation::And,
        Operation::Or,
        Operation::Eq,
        Operation::Neq,
        Operation::Lt,
        Operation::Gt,
        Operation::Lte,
        Operation::Gte,
        Operation::Not,
        Operation::Dbg,
    ];
    for op in ops {
        let mut vm = HtnVm::new(vec![op]);
        assert_eq!(vm.execute(), Outcome::Fault(Error::StackUnderflow));
    }
}

#[test]
fn binary_operation_underflows_with_one_operand() {
    let mut vm = HtnVm::new(vec![
        Operation::Push { value: htn::tokens::VmValue::Number(Num::Int(1)) },
        Operation::Add,
    ]);
    assert_eq!(vm.execute(), Outcome::Fault(Error::StackUnderflow));
}

#[test]
fn skips_are_forward_only_and_execution_terminates() {
    // A displacement far past the end still halts: the cursor only
    // moves forward.
    let mut vm = HtnVm::new(vec![Operation::Skip { skip: 1000000 }, Operation::EndTick(
        EndState::Success,
    )]);
    assert_eq!(vm.execute(), Outcome::Fault(Error::OutOfOps));
}

#[test]
fn get_blackboard_of_a_missing_key_pushes_an_empty_object() {
    let mut vm = HtnVm::new(vec![
        Operation::GetBlackBoard { key: "nope".to_string() },
        Operation::SetBlackBoard { key: "copy".to_string() },
        Operation::EndTick(EndState::Success),
    ]);
    assert_eq!(vm.execute(), Outcome::Done(EndState::Success));
    assert_eq!(vm.blackboard_get("copy"), Some(&DynValue::Object(vec![])));
}

#[test]
fn blackboard_persists_across_invocations() {
    let mut vm = HtnVm::new(htn::emitter::emit(
        &htn::parsing::htn_parser(&htn::lexer::htn_lexer("n = old ?? 1; exit S;")).unwrap(),
    )
    .unwrap());
    vm.blackboard_set("old".to_string(), DynValue::Num(Num::Int(41)));
    assert_eq!(vm.execute(), Outcome::Done(EndState::Success));
    assert_eq!(vm.blackboard_get("n"), Some(&DynValue::Num(Num::Int(41))));
    vm.blackboard_set("old".to_string(), DynValue::Null);
    assert_eq!(vm.execute(), Outcome::Done(EndState::Success));
    assert_eq!(vm.blackboard_get("n"), Some(&DynValue::Num(Num::Int(1))));
}

#[test]
fn get_global_asks_the_host_and_resumes() {
    let mut vm = HtnVm::new(vec![
        Operation::GetGlobal { key: "answer".to_string() },
        Operation::SetBlackBoard { key: "y".to_string() },
        Operation::EndTick(EndState::Success),
    ]);
    let r = vm.execute();
    assert_eq!(r, Outcome::Pending(HostRequest::Global { key: "answer".to_string() }));
    let r2 = vm.resume(HostReply::Value(DynValue::Num(Num::Int(42))));
    assert_eq!(r2, Outcome::Done(EndState::Success));
    assert_eq!(vm.blackboard_get("y"), Some(&DynValue::Num(Num::Int(42))));
}

#[test]
fn calling_a_host_function_passes_arguments_in_source_order() {
    let mut vm = HtnVm::new(vec![
        Operation::Push { value: htn::tokens::VmValue::Number(Num::Int(1)) },
        Operation::Push { value: htn::tokens::VmValue::Number(Num::Int(2)) },
        Operation::GetGlobal { key: "f".to_string() },
        Operation::Call { args: 2, method: false },
        Operation::SetBlackBoard { key: "y".to_string() },
        Operation::EndTick(EndState::Success),
    ]);
    assert_eq!(
        vm.execute(),
        Outcome::Pending(HostRequest::Global { key: "f".to_string() })
    );
    let r = vm.resume(HostReply::Value(DynValue::Handle(7)));
    assert_eq!(
        r,
        Outcome::Pending(HostRequest::Invoke {
            target: None,
            callee: DynValue::Handle(7),
            args: vec![DynValue::Num(Num::Int(1)), DynValue::Num(Num::Int(2))],
        })
    );
    let r2 = vm.resume(HostReply::Value(DynValue::Num(Num::Int(3))));
    assert_eq!(r2, Outcome::Done(EndState::Success));
    assert_eq!(vm.blackboard_get("y"), Some(&DynValue::Num(Num::Int(3))));
}

#[test]
fn a_failed_host_invocation_carries_its_message() {
    let mut vm = HtnVm::new(vec![
        Operation::GetGlobal { key: "f".to_string() },
        Operation::Call { args: 0, method: false },
        Operation::EndTick(EndState::Success),
    ]);
    vm.execute();
    vm.resume(HostReply::Value(DynValue::Handle(1)));
    let r = vm.resume(HostReply::CallFailed("boom".to_string()));
    assert_eq!(r, Outcome::Fault(Error::FuncCallFailed("boom".to_string())));
}

#[test]
fn calling_something_that_is_not_a_handle_is_a_type_error() {
    let mut vm = HtnVm::new(vec![
        Operation::Push { value: htn::tokens::VmValue::Number(Num::Int(5)) },
        Operation::Call { args: 0, method: false },
        Operation::EndTick(EndState::Success),
    ]);
    assert_eq!(vm.execute(), Outcome::Fault(Error::BadType));
}

#[test]
fn a_not_invocable_reply_is_a_type_error() {
    let mut vm = HtnVm::new(vec![
        Operation::GetGlobal { key: "f".to_string() },
        Operation::Call { args: 0, method: false },
        Operation::EndTick(EndState::Success),
    ]);
    vm.execute();
    vm.resume(HostReply::Value(DynValue::Handle(1)));
    assert_eq!(vm.resume(HostReply::NotInvocable), Outcome::Fault(Error::BadType));
}

#[test]
fn method_calls_pop_the_receiver_too() {
    let mut vm = HtnVm::new(vec![
        Operation::Push { value: htn::tokens::VmValue::String("arg".to_string()) },
        Operation::GetBlackBoard { key: "obj".to_string() },
        Operation::GetGlobal { key: "m".to_string() },
        Operation::Call { args: 1, method: true },
        Operation::EndTick(EndState::Success),
    ]);
    vm.blackboard_set("obj".to_string(), DynValue::Handle(9));
    vm.execute();
    let r = vm.resume(HostReply::Value(DynValue::Handle(3)));
    assert_eq!(
        r,
        Outcome::Pending(HostRequest::Invoke {
            target: Some(DynValue::Handle(9)),
            callee: DynValue::Handle(3),
            args: vec![DynValue::Str("arg".to_string())],
        })
    );
}

#[test]
fn property_reads_on_handles_go_through_the_host() {
    let mut vm = HtnVm::new(vec![
        Operation::GetBlackBoard { key: "h".to_string() },
        Operation::Access { key: "field".to_string() },
        Operation::SetBlackBoard { key: "y".to_string() },
        Operation::EndTick(EndState::Success),
    ]);
    vm.blackboard_set("h".to_string(), DynValue::Handle(4));
    let r = vm.execute();
    assert_eq!(
        r,
        Outcome::Pending(HostRequest::GetField { handle: 4, key: "field".to_string() })
    );
    assert_eq!(
        vm.resume(HostReply::Value(DynValue::Bool(true))),
        Outcome::Done(EndState::Success)
    );
    assert_eq!(vm.blackboard_get("y"), Some(&DynValue::Bool(true)));
}

#[test]
fn has_peeks_at_an_object_for_the_field() {
    let mut vm = HtnVm::new(vec![
        Operation::GetBlackBoard { key: "o".to_string() },
        Operation::Has { key: "a".to_string() },
        Operation::SetBlackBoard { key: "found".to_string() },
        Operation::Has { key: "b".to_string() },
        Operation::SetBlackBoard { key: "missing".to_string() },
        Operation::EndTick(EndState::Success),
    ]);
    vm.blackboard_set(
        "o".to_string(),
        DynValue::Object(vec![("a".to_string(), DynValue::Num(Num::Int(1)))]),
    );
    assert_eq!(vm.execute(), Outcome::Done(EndState::Success));
    assert_eq!(vm.blackboard_get("found"), Some(&DynValue::Bool(true)));
    assert_eq!(vm.blackboard_get("missing"), Some(&DynValue::Bool(false)));
}

#[test]
fn is_null_peeks_without_consuming() {
    let mut vm = HtnVm::new(vec![
        Operation::Push { value: htn::tokens::VmValue::Null },
        Operation::IsNull,
        Operation::SetBlackBoard { key: "test".to_string() },
        Operation::SetBlackBoard { key: "kept".to_string() },
        Operation::EndTick(EndState::Success),
    ]);
    assert_eq!(vm.execute(), Outcome::Done(EndState::Success));
    assert_eq!(vm.blackboard_get("test"), Some(&DynValue::Bool(true)));
    assert_eq!(vm.blackboard_get("kept"), Some(&DynValue::Null));
}

#[test]
fn dbg_records_the_top_of_stack_without_consuming() {
    let mut vm = HtnVm::new(vec![
        Operation::Push { value: htn::tokens::VmValue::Number(Num::Int(7)) },
        Operation::Dbg,
        Operation::Pop { count: 1 },
        Operation::EndTick(EndState::Success),
    ]);
    assert_eq!(vm.execute(), Outcome::Done(EndState::Success));
    assert_eq!(vm.debug_log, vec![DynValue::Num(Num::Int(7))]);
}

#[test]
fn truthiness_of_the_falsy_values() {
    assert!(!truthy(&DynValue::Null));
    assert!(!truthy(&DynValue::Bool(false)));
    assert!(!truthy(&DynValue::Num(Num::Int(0))));
    assert!(!truthy(&DynValue::Num(Num::Float("0.0".to_string()))));
    assert!(!truthy(&DynValue::Str(String::new())));
    assert!(truthy(&DynValue::Bool(true)));
    assert!(truthy(&DynValue::Num(Num::Int(-1))));
    assert!(truthy(&DynValue::Num(Num::Float("0.5".to_string()))));
    assert!(truthy(&DynValue::Str("x".to_string())));
    assert!(truthy(&DynValue::Object(vec![])));
    assert!(truthy(&DynValue::Handle(0)));
}

#[test]
fn modulo_follows_the_dividend_sign() {
    let mut vm = HtnVm::new(vec![
        Operation::Push { value: htn::tokens::VmValue::Number(Num::Int(-7)) },
        Operation::Push { value: htn::tokens::VmValue::Number(Num::Int(2)) },
        Operation::Mod,
        Operation::SetBlackBoard { key: "y".to_string() },
        Operation::EndTick(EndState::Success),
    ]);
    assert_eq!(vm.execute(), Outcome::Done(EndState::Success));
    assert_eq!(vm.blackboard_get("y"), Some(&DynValue::Num(Num::Int(-1))));
}
