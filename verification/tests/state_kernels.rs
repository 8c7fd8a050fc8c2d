use htn::states::{
    and_then_route_a, and_then_route_b, build_step, harvest_step, idle_step, ignore_then_route_a,
    move_to_route_move,
    move_to_route_state, reoccurring_route, sing_step, suicide_step, transfer_step, withdraw_step,
    ActionError, AndThenError, AndThenStateFlag, Arrived, BuildError, BuildObs, BuildReturn,
    CheckFunc, DefaultCheck, DoneSinging, FuneralRites, GenericStateError, HarvestReturn, Lyrics,
    move_after, move_plan, MoveError, MovePlan, MoveToError, MoveToStateFlag, StateBuilding,
    StateIdle, StateMove, StateResult, StateSinging, StateSuicide, StateTransfer, TargetCheck,
    TransferError, TransferObs, TransferReturn, WithdrawError, WithdrawReturn, WithdrawObs,
};

#[test]
fn transfer_issues_and_remembers_the_store_level() {
    let st = StateTransfer::new(None);
    let obs = TransferObs { used_capacity: 50, target: TargetCheck::Usable, action: None };
    let (st2, r) = transfer_step(&st, &obs);
    assert_eq!(st2.amount_before, Some(50));
    assert_eq!(r, StateResult::Working);
}

#[test]
fn transfer_finishes_once_the_store_moved_enough() {
    let st = StateTransfer { amount: Some(30), amount_before: Some(50) };
    let obs = TransferObs { used_capacity: 10, target: TargetCheck::Usable, action: None };
    let (_, r) = transfer_step(&st, &obs);
    assert_eq!(r, StateResult::Finished(TransferReturn::Leftover(10)));
}

#[test]
fn transfer_reports_a_shortfall() {
    let st = StateTransfer { amount: Some(45), amount_before: Some(50) };
    let obs = TransferObs { used_capacity: 10, target: TargetCheck::Usable, action: None };
    let (_, r) = transfer_step(&st, &obs);
    assert_eq!(r, StateResult::Finished(TransferReturn::NotEnough(40)));
}

#[test]
fn transfer_from_an_empty_store_fails() {
    let st = StateTransfer::new(None);
    let obs = TransferObs { used_capacity: 0, target: TargetCheck::Usable, action: None };
    let (_, r) = transfer_step(&st, &obs);
    assert_eq!(r, StateResult::Failed(TransferError::Empty));
}

#[test]
fn transfer_error_codes_map_to_transfer_errors() {
    let st = StateTransfer::new(None);
    let mk = |action| TransferObs { used_capacity: 5, target: TargetCheck::Usable, action };
    assert_eq!(
        transfer_step(&st, &mk(Some(ActionError::Full))).1,
        StateResult::Failed(TransferError::TargetFull)
    );
    assert_eq!(
        transfer_step(&st, &mk(Some(ActionError::NotEnough))).1,
        StateResult::Finished(TransferReturn::NotEnough(0))
    );
    assert_eq!(
        transfer_step(&st, &mk(Some(ActionError::NotInRange))).1,
        StateResult::Failed(TransferError::OutOfRange)
    );
    assert_eq!(
        transfer_step(&st, &mk(Some(ActionError::Tired))).1,
        StateResult::Failed(TransferError::Unknown)
    );
    let gone = TransferObs { used_capacity: 5, target: TargetCheck::NotReal, action: None };
    assert_eq!(
        transfer_step(&st, &gone).1,
        StateResult::Failed(TransferError::TargetNotReal)
    );
}

#[test]
fn withdraw_respects_free_capacity() {
    let obs = WithdrawObs { free_capacity: 10, target: TargetCheck::Usable, action: None };
    assert_eq!(
        withdraw_step(&Some(20), &obs),
        StateResult::Failed(WithdrawError::NotEnoughCapacity)
    );
    assert_eq!(withdraw_step(&Some(5), &obs), StateResult::Finished(WithdrawReturn::Full));
    let short = WithdrawObs {
        free_capacity: 10,
        target: TargetCheck::Usable,
        action: Some(ActionError::NotEnough),
    };
    assert_eq!(withdraw_step(&None, &short), StateResult::Finished(WithdrawReturn::Partial));
    let wrong = WithdrawObs { free_capacity: 10, target: TargetCheck::WrongKind, action: None };
    assert_eq!(
        withdraw_step(&None, &wrong),
        StateResult::Failed(WithdrawError::InvalidTarget)
    );
}

#[test]
fn harvest_decisions() {
    assert_eq!(
        harvest_step(0, true, &None),
        StateResult::Finished(HarvestReturn::Filled)
    );
    assert_eq!(
        harvest_step(5, false, &None),
        StateResult::Failed(GenericStateError::TargetNotReal)
    );
    assert_eq!(harvest_step(5, true, &None), StateResult::Working);
    assert_eq!(
        harvest_step(5, true, &Some(ActionError::NotEnough)),
        StateResult::Finished(HarvestReturn::RanOut)
    );
    assert_eq!(
        harvest_step(5, true, &Some(ActionError::NoBodypart)),
        StateResult::Failed(GenericStateError::NoParts)
    );
}

#[test]
fn build_retries_an_occupied_site_until_retries_run_out() {
    let st = StateBuilding { retry_count: 1 };
    let occupied = BuildObs {
        target_real: true,
        verge: false,
        action: Some(ActionError::InvalidTarget),
    };
    let (st2, r) = build_step(&st, &occupied);
    assert_eq!(st2.retry_count, 0);
    assert_eq!(r, StateResult::Working);
    let (_, r2) = build_step(&st2, &occupied);
    assert_eq!(r2, StateResult::Failed(BuildError::SpaceOccupied));
}

#[test]
fn build_finishes_constructed_exactly_on_the_verge() {
    let st = StateBuilding { retry_count: 0 };
    let on_verge = BuildObs { target_real: true, verge: true, action: None };
    let (_, r) = build_step(&st, &on_verge);
    assert_eq!(r, StateResult::Finished(BuildReturn::Constructed));
    let early = BuildObs { target_real: true, verge: false, action: None };
    assert_eq!(build_step(&st, &early).1, StateResult::Finished(BuildReturn::InProgress));
    assert!(BuildReturn::Constructed.as_bool());
    assert_eq!(BuildReturn::of_bool(false), BuildReturn::InProgress);
}

#[test]
fn idle_and_suicide_are_immediate() {
    assert_eq!(idle_step(&StateIdle(0)), StateResult::<(), ()>::Working);
    let _ = StateSuicide::new();
    assert_eq!(
        suicide_step(&Some(ActionError::Busy)),
        StateResult::<(), ()>::Finished(())
    );
}

#[test]
fn singing_walks_the_lyrics_and_finishes() {
    let mut state = StateSinging::new(FuneralRites::new(vec![
        "so".to_string(),
        "long".to_string(),
    ]));
    let l1 = state.lyrics.next_line();
    assert_eq!(sing_step(&l1), StateResult::Working);
    let l2 = state.lyrics.next_line();
    assert_eq!(l2, Some("long".to_string()));
    assert_eq!(sing_step(&l2), StateResult::Working);
    let l3 = state.lyrics.next_line();
    assert_eq!(l3, None);
    assert_eq!(sing_step(&l3), StateResult::Finished(DoneSinging));
}

#[test]
fn sequencing_hands_over_after_the_first_state_finishes() {
    let r: (AndThenStateFlag, Option<StateResult<u8, AndThenError<i32, i32>>>) =
        and_then_route_a(StateResult::<u8, i32>::Finished(1));
    assert_eq!(r, (AndThenStateFlag::B, None));
    let w: (AndThenStateFlag, Option<StateResult<u8, AndThenError<i32, i32>>>) =
        and_then_route_a(StateResult::<u8, i32>::Working);
    assert_eq!(w, (AndThenStateFlag::A, Some(StateResult::Working)));
    let f: (AndThenStateFlag, Option<StateResult<u8, AndThenError<i32, i32>>>) =
        and_then_route_a(StateResult::<u8, i32>::Failed(-3));
    assert_eq!(
        f,
        (AndThenStateFlag::A, Some(StateResult::Failed(AndThenError::StateAError(-3))))
    );
    let b: StateResult<u8, AndThenError<i32, i32>> =
        and_then_route_b(StateResult::<u8, i32>::Failed(7));
    assert_eq!(b, StateResult::Failed(AndThenError::StateBError(7)));
}

#[test]
fn journeys_finish_when_close_enough_and_recalculate_on_schedule() {
    let st = StateMove {
        range: 3,
        recalc_rate: 2,
        recalc_accumulator: 0,
        recalc_per_tile: false,
        lazy: false,
        reached_destination: false,
    };
    // Far away: move along the path, no recalculation yet.
    let (st1, plan1) = move_plan(&st, false, false);
    assert_eq!(plan1, MovePlan::Proceed { recalc: false });
    assert_eq!(st1.recalc_accumulator, 1);
    // Next tick the rate is hit: recalculate.
    let (st2, plan2) = move_plan(&st1, false, false);
    assert_eq!(plan2, MovePlan::Proceed { recalc: true });
    assert_eq!(st2.recalc_accumulator, 0);
    // Entering the wide range marks the destination reached but keeps
    // closing in; once back within one tile, the journey finishes.
    let (st3, plan3) = move_plan(&st2, false, true);
    assert!(st3.reached_destination);
    assert_eq!(plan3, MovePlan::Proceed { recalc: false });
    let (_, plan4) = move_plan(&st3, true, true);
    assert_eq!(plan4, MovePlan::Finish);
    // A lazy journey finishes as soon as it is in range.
    let lazy = StateMove { lazy: true, ..st };
    assert_eq!(move_plan(&lazy, false, true).1, MovePlan::Finish);
}

#[test]
fn journeys_map_move_errors_and_survive_a_retried_path() {
    let st = StateMove {
        range: 1,
        recalc_rate: 4,
        recalc_accumulator: 0,
        recalc_per_tile: true,
        lazy: false,
        reached_destination: false,
    };
    let (st1, r1) = move_after(&st, &None, &None);
    assert_eq!(r1, StateResult::Working);
    assert_eq!(st1.recalc_accumulator, 1);
    assert_eq!(move_after(&st, &Some(ActionError::Tired), &None).1, StateResult::Working);
    assert_eq!(
        move_after(&st, &Some(ActionError::NoBodypart), &None).1,
        StateResult::Failed(MoveError::NoMovePart)
    );
    assert_eq!(
        move_after(&st, &Some(ActionError::NotOwner), &None).1,
        StateResult::Failed(MoveError::UnownedCreep)
    );
    assert_eq!(
        move_after(&st, &Some(ActionError::NotFound), &None).1,
        StateResult::Working
    );
    assert_eq!(
        move_after(&st, &Some(ActionError::NotFound), &Some(ActionError::NotFound)).1,
        StateResult::Failed(MoveError::OffPath)
    );
}

#[test]
fn recurring_states_loop_while_the_test_says_so() {
    let mut check = DefaultCheck;
    let verdict = check.check(5u8);
    assert!(verdict);
    assert_eq!(
        reoccurring_route(StateResult::<u8, i32>::Finished(5), verdict),
        (Some(5), StateResult::Working)
    );
    assert_eq!(
        reoccurring_route(StateResult::<u8, i32>::Finished(5), false),
        (None, StateResult::Finished(5))
    );
    assert_eq!(
        reoccurring_route(StateResult::<u8, i32>::Failed(-1), true),
        (None, StateResult::Failed(-1))
    );
    assert_eq!(
        reoccurring_route(StateResult::<u8, i32>::Working, true),
        (None, StateResult::Working)
    );
}

#[test]
fn ignoring_discards_the_first_states_outcome() {
    assert_eq!(
        ignore_then_route_a(StateResult::<u8, i32>::Working),
        (true, StateResult::Working)
    );
    assert_eq!(
        ignore_then_route_a(StateResult::<u8, i32>::Finished(1)),
        (false, StateResult::Working)
    );
    assert_eq!(
        ignore_then_route_a(StateResult::<u8, i32>::Failed(-1)),
        (false, StateResult::Working)
    );
}

#[test]
fn moving_hands_over_on_arrival() {
    let r: (MoveToStateFlag, Option<StateResult<u8, MoveToError<i32>>>) =
        move_to_route_move(StateResult::Finished(Arrived));
    assert_eq!(r, (MoveToStateFlag::State, None));
    let f: (MoveToStateFlag, Option<StateResult<u8, MoveToError<i32>>>) =
        move_to_route_move(StateResult::Failed(MoveError::NoMovePart));
    assert_eq!(
        f,
        (
            MoveToStateFlag::Moving,
            Some(StateResult::Failed(MoveToError::MoveError(MoveError::NoMovePart)))
        )
    );
    let s: StateResult<u8, MoveToError<i32>> = move_to_route_state(StateResult::Failed(-1));
    assert_eq!(s, StateResult::Failed(MoveToError::StateError(-1)));
}
