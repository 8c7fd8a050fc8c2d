//! Decision kernels of the per-tick agent states. Each state's logic
//! is a pure function from its stored fields and an observation of the
//! world (store contents, whether a target resolved, the error code an
//! action returned) to its next fields and a `StateResult`. The
//! embedding application performs the actions and supplies the
//! observations; everything decided here is verified.

use vstd::prelude::*;

verus! {

/// What one run of a state reports: still working, finished with a
/// return value, or failed with an error.
#[derive(Debug, Clone, Copy, PartialEq, Eq)]
pub enum StateResult<S, E> {
    Working,
    Finished(S),
    Failed(E),
}

/// The error code an action reported, as the host observed it.
#[derive(Debug, Clone, Copy, PartialEq, Eq, Structural)]
pub enum ActionError {
    Full,
    NotEnough,
    NotInRange,
    InvalidTarget,
    NoBodypart,
    NotOwner,
    NotFound,
    Tired,
    Busy,
    Other,
}

/// Whether a stored target id resolved, and to something of the kind
/// the state needs.
#[derive(Debug, Clone, Copy, PartialEq, Eq, Structural)]
pub enum TargetCheck {
    NotReal,
    WrongKind,
    Usable,
}

#[derive(Debug, Clone, Copy, PartialEq, Eq, Structural)]
pub enum GenericStateError {
    OutOfRange,
    TargetNotReal,
    NoParts,
    Unknown,
}

#[derive(Debug, Clone, Copy, PartialEq, Eq, Structural)]
pub enum TransferError {
    OutOfRange,
    TargetNotReal,
    InvalidTarget,
    TargetFull,
    RanOut,
    Empty,
    Unknown,
}

#[derive(Debug, Clone, Copy, PartialEq, Eq, Structural)]
pub enum TransferReturn {
    Empty,
    Leftover(u32),
    NotEnough(u32),
}

/// The stored fields of a transfer state that its decisions read: the
/// requested amount, and the store level remembered from the tick the
/// transfer was issued.
#[derive(Debug, Clone, Copy, PartialEq, Eq, Structural)]
pub struct StateTransfer {
    pub amount: Option<u32>,
    pub amount_before: Option<u32>,
}

/// What the transfer decision observes: the acting agent's store of
/// the resource, the target check, and what the transfer action
/// reported (`None` for success).
#[derive(Debug, Clone, Copy, PartialEq, Eq, Structural)]
pub struct TransferObs {
    pub used_capacity: u32,
    pub target: TargetCheck,
    pub action: Option<ActionError>,
}

impl StateTransfer {
    /// A transfer of `amount` (or everything, for `None`).
    pub fn new(amount: Option<u32>) -> (s: Self)
        ensures
            s == (StateTransfer { amount, amount_before: None }),
    {
        StateTransfer { amount, amount_before: None }
    }
}

/// What one transfer decision yields. On the tick after the transfer
/// was issued, the remembered store level is compared with the current
/// one (by saturating subtraction): short of the requested amount is
/// `NotEnough`, an emptied store is `Empty`, else `Leftover`.
pub open spec fn spec_transfer_step(st: StateTransfer, obs: TransferObs) -> (
    StateTransfer,
    StateResult<TransferReturn, TransferError>,
) {
    match st.amount_before {
        Some(last) => {
            let moved = if last >= obs.used_capacity {
                (last - obs.used_capacity) as u32
            } else {
                0u32
            };
            let want = match st.amount {
                Some(a) => a,
                None => 0u32,
            };
            if moved < want {
                (st, StateResult::Finished(TransferReturn::NotEnough(moved)))
            } else if obs.used_capacity == 0 {
                (st, StateResult::Finished(TransferReturn::Empty))
            } else {
                (st, StateResult::Finished(TransferReturn::Leftover(obs.used_capacity)))
            }
        },
        None => {
            if obs.used_capacity == 0 {
                (st, StateResult::Failed(TransferError::Empty))
            } else {
                match obs.target {
                    TargetCheck::NotReal => (st, StateResult::Failed(TransferError::TargetNotReal)),
                    TargetCheck::WrongKind => (
                        st,
                        StateResult::Failed(TransferError::InvalidTarget),
                    ),
                    TargetCheck::Usable => {
                        let st2 = StateTransfer {
                            amount: st.amount,
                            amount_before: Some(obs.used_capacity),
                        };
                        match obs.action {
                            None => (st2, StateResult::Working),
                            Some(ActionError::Full) => (
                                st2,
                                StateResult::Failed(TransferError::TargetFull),
                            ),
                            Some(ActionError::NotEnough) => (
                                st2,
                                StateResult::Finished(TransferReturn::NotEnough(0)),
                            ),
                            Some(ActionError::NotInRange) => (
                                st2,
                                StateResult::Failed(TransferError::OutOfRange),
                            ),
                            Some(ActionError::InvalidTarget) => (
                                st2,
                                StateResult::Failed(TransferError::InvalidTarget),
                            ),
                            Some(..) => (st2, StateResult::Failed(TransferError::Unknown)),
                        }
                    },
                }
            }
        },
    }
}

/// One transfer decision.
pub fn transfer_step(st: &StateTransfer, obs: &TransferObs) -> (r: (
    StateTransfer,
    StateResult<TransferReturn, TransferError>,
))
    ensures
        r == spec_transfer_step(*st, *obs),
{
    match st.amount_before {
        Some(last) => {
            let moved = if last >= obs.used_capacity {
                last - obs.used_capacity
            } else {
                0
            };
            let want = match st.amount {
                Some(a) => a,
                None => 0,
            };
            if moved < want {
                (*st, StateResult::Finished(TransferReturn::NotEnough(moved)))
            } else if obs.used_capacity == 0 {
                (*st, StateResult::Finished(TransferReturn::Empty))
            } else {
                (*st, StateResult::Finished(TransferReturn::Leftover(obs.used_capacity)))
            }
        },
        None => {
            if obs.used_capacity == 0 {
                (*st, StateResult::Failed(TransferError::Empty))
            } else {
                match obs.target {
                    TargetCheck::NotReal => (
                        *st,
                        StateResult::Failed(TransferError::TargetNotReal),
                    ),
                    TargetCheck::WrongKind => (
                        *st,
                        StateResult::Failed(TransferError::InvalidTarget),
                    ),
                    TargetCheck::Usable => {
                        let st2 = StateTransfer {
                            amount: st.amount,
                            amount_before: Some(obs.used_capacity),
                        };
                        match obs.action {
                            None => (st2, StateResult::Working),
                            Some(ActionError::Full) => (
                                st2,
                                StateResult::Failed(TransferError::TargetFull),
                            ),
                            Some(ActionError::NotEnough) => (
                                st2,
                                StateResult::Finished(TransferReturn::NotEnough(0)),
                            ),
                            Some(ActionError::NotInRange) => (
                                st2,
                                StateResult::Failed(TransferError::OutOfRange),
                            ),
                            Some(ActionError::InvalidTarget) => (
                                st2,
                                StateResult::Failed(TransferError::InvalidTarget),
                            ),
                            Some(..) => (st2, StateResult::Failed(TransferError::Unknown)),
                        }
                    },
                }
            }
        },
    }
}

#[derive(Debug, Clone, Copy, PartialEq, Eq, Structural)]
pub enum WithdrawError {
    OutOfRange,
    TargetNotReal,
    InvalidTarget,
    NotEnoughCapacity,
    Unknown,
}

#[derive(Debug, Clone, Copy, PartialEq, Eq, Structural)]
pub enum WithdrawReturn {
    Full,
    Partial,
}

/// What the withdraw decision observes: the agent's free capacity for
/// the resource, the target check, and what the withdraw action
/// reported.
#[derive(Debug, Clone, Copy, PartialEq, Eq, Structural)]
pub struct WithdrawObs {
    pub free_capacity: i32,
    pub target: TargetCheck,
    pub action: Option<ActionError>,
}

/// What one withdraw decision yields: a requested amount over the free
/// capacity fails at once; otherwise the target must resolve to
/// something withdrawable, and the action's code decides the rest.
pub open spec fn spec_withdraw_step(amount: Option<u32>, obs: WithdrawObs) -> StateResult<
    WithdrawReturn,
    WithdrawError,
> {
    if amount is Some && obs.free_capacity < amount->0 as i32 {
        StateResult::Failed(WithdrawError::NotEnoughCapacity)
    } else {
        match obs.target {
            TargetCheck::NotReal => StateResult::Failed(WithdrawError::TargetNotReal),
            TargetCheck::WrongKind => StateResult::Failed(WithdrawError::InvalidTarget),
            TargetCheck::Usable => match obs.action {
                None => StateResult::Finished(WithdrawReturn::Full),
                Some(ActionError::Full) => StateResult::Failed(WithdrawError::NotEnoughCapacity),
                Some(ActionError::NotEnough) => StateResult::Finished(WithdrawReturn::Partial),
                Some(ActionError::NotInRange) => StateResult::Failed(WithdrawError::OutOfRange),
                Some(ActionError::InvalidTarget) => StateResult::Failed(
                    WithdrawError::InvalidTarget,
                ),
                Some(..) => StateResult::Failed(WithdrawError::Unknown),
            },
        }
    }
}

/// One withdraw decision.
pub fn withdraw_step(amount: &Option<u32>, obs: &WithdrawObs) -> (r: StateResult<
    WithdrawReturn,
    WithdrawError,
>)
    ensures
        r == spec_withdraw_step(*amount, *obs),
{
    match amount {
        Some(a) => {
            #[verifier::truncate]
            let ai = *a as i32;
            if obs.free_capacity < ai {
                return StateResult::Failed(WithdrawError::NotEnoughCapacity);
            }
        },
        None => (),
    }
    match obs.target {
        TargetCheck::NotReal => StateResult::Failed(WithdrawError::TargetNotReal),
        TargetCheck::WrongKind => StateResult::Failed(WithdrawError::InvalidTarget),
        TargetCheck::Usable => match obs.action {
            None => StateResult::Finished(WithdrawReturn::Full),
            Some(ActionError::Full) => StateResult::Failed(WithdrawError::NotEnoughCapacity),
            Some(ActionError::NotEnough) => StateResult::Finished(WithdrawReturn::Partial),
            Some(ActionError::NotInRange) => StateResult::Failed(WithdrawError::OutOfRange),
            Some(ActionError::InvalidTarget) => StateResult::Failed(WithdrawError::InvalidTarget),
            Some(..) => StateResult::Failed(WithdrawError::Unknown),
        },
    }
}

#[derive(Debug, Clone, Copy, PartialEq, Eq, Structural)]
pub enum HarvestReturn {
    Filled,
    RanOut,
}

/// What one harvest decision yields: a full store finishes `Filled`;
/// the source must resolve; the action's code decides the rest, with
/// an exhausted source finishing `RanOut`.
pub open spec fn spec_harvest_step(
    free_capacity: i32,
    source_real: bool,
    action: Option<ActionError>,
) -> StateResult<HarvestReturn, GenericStateError> {
    if free_capacity == 0 {
        StateResult::Finished(HarvestReturn::Filled)
    } else if !source_real {
        StateResult::Failed(GenericStateError::TargetNotReal)
    } else {
        match action {
            None => StateResult::Working,
            Some(ActionError::NotInRange) => StateResult::Failed(GenericStateError::OutOfRange),
            Some(ActionError::NoBodypart) => StateResult::Failed(GenericStateError::NoParts),
            Some(ActionError::NotEnough) => StateResult::Finished(HarvestReturn::RanOut),
            Some(..) => StateResult::Failed(GenericStateError::Unknown),
        }
    }
}

/// One harvest decision.
pub fn harvest_step(free_capacity: i32, source_real: bool, action: &Option<ActionError>) -> (r:
    StateResult<HarvestReturn, GenericStateError>)
    ensures
        r == spec_harvest_step(free_capacity, source_real, *action),
{
    if free_capacity == 0 {
        StateResult::Finished(HarvestReturn::Filled)
    } else if !source_real {
        StateResult::Failed(GenericStateError::TargetNotReal)
    } else {
        match action {
            None => StateResult::Working,
            Some(ActionError::NotInRange) => StateResult::Failed(GenericStateError::OutOfRange),
            Some(ActionError::NoBodypart) => StateResult::Failed(GenericStateError::NoParts),
            Some(ActionError::NotEnough) => StateResult::Finished(HarvestReturn::RanOut),
            Some(..) => StateResult::Failed(GenericStateError::Unknown),
        }
    }
}

#[derive(Debug, Clone, Copy, PartialEq, Eq, Structural)]
pub enum BuildError {
    TargetNotReal,
    Empty,
    NoBodyPart,
    NotInRange,
    SpaceOccupied,
    Unknown,
}

#[derive(Debug, Clone, Copy, PartialEq, Eq, Structural)]
pub enum BuildReturn {
    Constructed,
    InProgress,
}

impl BuildReturn {
    /// `Constructed` as truth: whether the site was on the verge of
    /// completion.
    pub fn as_bool(&self) -> (r: bool)
        ensures
            r == (*self is Constructed),
    {
        matches!(self, BuildReturn::Constructed)
    }

    /// The return a verge test maps to.
    pub fn of_bool(b: bool) -> (r: Self)
        ensures
            r == if b {
                BuildReturn::Constructed
            } else {
                BuildReturn::InProgress
            },
    {
        if b {
            BuildReturn::Constructed
        } else {
            BuildReturn::InProgress
        }
    }
}

/// The stored fields of a building state that its decisions read.
#[derive(Debug, Clone, Copy, PartialEq, Eq, Structural)]
pub struct StateBuilding {
    pub retry_count: u8,
}

/// What the build decision observes: whether the site still exists,
/// whether the agent's stored energy covers the work the site still
/// needs, and what the build action reported.
#[derive(Debug, Clone, Copy, PartialEq, Eq, Structural)]
pub struct BuildObs {
    pub target_real: bool,
    pub verge: bool,
    pub action: Option<ActionError>,
}

/// What one build decision yields: an occupied site is retried while
/// retries remain; a successful action finishes `Constructed` exactly
/// when the agent's energy covered the site's remaining work.
pub open spec fn spec_build_step(st: StateBuilding, obs: BuildObs) -> (
    StateBuilding,
    StateResult<BuildReturn, BuildError>,
) {
    if !obs.target_real {
        (st, StateResult::Failed(BuildError::TargetNotReal))
    } else {
        match obs.action {
            Some(ActionError::NotEnough) => (st, StateResult::Failed(BuildError::Empty)),
            Some(ActionError::NoBodypart) => (st, StateResult::Failed(BuildError::NoBodyPart)),
            Some(ActionError::NotInRange) => (st, StateResult::Failed(BuildError::NotInRange)),
            Some(ActionError::InvalidTarget) => if st.retry_count > 0 {
                (
                    StateBuilding { retry_count: (st.retry_count - 1) as u8 },
                    StateResult::Working,
                )
            } else {
                (st, StateResult::Failed(BuildError::SpaceOccupied))
            },
            Some(..) => (st, StateResult::Failed(BuildError::Unknown)),
            None => (
                st,
                StateResult::Finished(
                    if obs.verge {
                        BuildReturn::Constructed
                    } else {
                        BuildReturn::InProgress
                    },
                ),
            ),
        }
    }
}

/// One build decision.
pub fn build_step(st: &StateBuilding, obs: &BuildObs) -> (r: (
    StateBuilding,
    StateResult<BuildReturn, BuildError>,
))
    ensures
        r == spec_build_step(*st, *obs),
{
    if !obs.target_real {
        (*st, StateResult::Failed(BuildError::TargetNotReal))
    } else {
        match obs.action {
            Some(ActionError::NotEnough) => (*st, StateResult::Failed(BuildError::Empty)),
            Some(ActionError::NoBodypart) => (*st, StateResult::Failed(BuildError::NoBodyPart)),
            Some(ActionError::NotInRange) => (*st, StateResult::Failed(BuildError::NotInRange)),
            Some(ActionError::InvalidTarget) => {
                if st.retry_count > 0 {
                    (StateBuilding { retry_count: st.retry_count - 1 }, StateResult::Working)
                } else {
                    (*st, StateResult::Failed(BuildError::SpaceOccupied))
                }
            },
            Some(..) => (*st, StateResult::Failed(BuildError::Unknown)),
            None => (*st, StateResult::Finished(BuildReturn::of_bool(obs.verge))),
        }
    }
}

#[derive(Debug, Clone, Copy, PartialEq, Eq, Structural)]
pub enum MoveError {
    NoMovePart,
    UnownedCreep,
    OffPath,
}

/// The movement state's terminal return.
#[derive(Debug, Clone, Copy, PartialEq, Eq, Structural)]
pub struct Arrived;

/// The stored fields of a journey state that its decisions read: how
/// close is close enough, how often to recalculate the path (in ticks,
/// or in tiles when `recalc_per_tile`; never, when zero), the
/// accumulator for that rate, whether to stop as soon as in range
/// (`lazy`) or keep closing in, and whether the destination was
/// already reached.
#[derive(Debug, Clone, Copy, PartialEq, Eq, Structural)]
pub struct StateMove {
    pub range: u8,
    pub recalc_rate: u8,
    pub recalc_accumulator: u8,
    pub recalc_per_tile: bool,
    pub lazy: bool,
    pub reached_destination: bool,
}

/// What the journey's pre-move decision asks of the host: stop, or
/// move along the path, recalculating it first or not.
#[derive(Debug, Clone, Copy, PartialEq, Eq, Structural)]
pub enum MovePlan {
    Finish,
    Proceed { recalc: bool },
}

/// The pre-move decision, over whether the agent stands within one
/// tile of the destination and within the state's own range of it:
/// an arrived non-lazy journey finishes once back in close range;
/// entering range finishes a close or lazy journey and otherwise marks
/// the destination reached; the recalculation accumulator then decides
/// whether the path is recomputed (the accumulator saturates rather
/// than wrap).
pub open spec fn spec_move_plan(st: StateMove, near_destination: bool, within_range: bool) -> (
    StateMove,
    MovePlan,
) {
    if st.reached_destination && !st.lazy && near_destination {
        (st, MovePlan::Finish)
    } else if !st.reached_destination && within_range && (st.range <= 1 || st.lazy) {
        (st, MovePlan::Finish)
    } else {
        let st2 = if !st.reached_destination && within_range {
            StateMove { reached_destination: true, recalc_accumulator: 0, ..st }
        } else {
            st
        };
        if st2.recalc_rate != 0 {
            let acc = if st2.recalc_accumulator < 255 {
                (st2.recalc_accumulator + 1) as u8
            } else {
                255u8
            };
            if acc >= st2.recalc_rate {
                if st2.reached_destination {
                    (StateMove { recalc_accumulator: acc, ..st2 }, MovePlan::Finish)
                } else {
                    (
                        StateMove { recalc_accumulator: 0, ..st2 },
                        MovePlan::Proceed { recalc: true },
                    )
                }
            } else {
                (
                    StateMove { recalc_accumulator: acc, ..st2 },
                    MovePlan::Proceed { recalc: false },
                )
            }
        } else {
            (st2, MovePlan::Proceed { recalc: false })
        }
    }
}

/// The pre-move decision.
pub fn move_plan(st: &StateMove, near_destination: bool, within_range: bool) -> (r: (
    StateMove,
    MovePlan,
))
    ensures
        r == spec_move_plan(*st, near_destination, within_range),
{
    if st.reached_destination && !st.lazy && near_destination {
        (*st, MovePlan::Finish)
    } else if !st.reached_destination && within_range && (st.range <= 1 || st.lazy) {
        (*st, MovePlan::Finish)
    } else {
        let st2 = if !st.reached_destination && within_range {
            StateMove { reached_destination: true, recalc_accumulator: 0, ..*st }
        } else {
            *st
        };
        if st2.recalc_rate != 0 {
            let acc = if st2.recalc_accumulator < 255 {
                st2.recalc_accumulator + 1
            } else {
                255
            };
            if acc >= st2.recalc_rate {
                if st2.reached_destination {
                    (StateMove { recalc_accumulator: acc, ..st2 }, MovePlan::Finish)
                } else {
                    (
                        StateMove { recalc_accumulator: 0, ..st2 },
                        MovePlan::Proceed { recalc: true },
                    )
                }
            } else {
                (
                    StateMove { recalc_accumulator: acc, ..st2 },
                    MovePlan::Proceed { recalc: false },
                )
            }
        } else {
            (st2, MovePlan::Proceed { recalc: false })
        }
    }
}

/// The post-move decision, over what the move action reported and,
/// after a path-not-found, what the retry along a fresh path reported:
/// success counts a tile toward a per-tile recalculation rate; a tired
/// or busy agent just waits; a failed retry means the agent is off its
/// path. Any other code is likewise treated as falling off the path.
pub open spec fn spec_move_after(
    st: StateMove,
    action: Option<ActionError>,
    retry: Option<ActionError>,
) -> (StateMove, StateResult<Arrived, MoveError>) {
    match action {
        None => {
            let st2 = if st.recalc_rate > 0 && st.recalc_per_tile {
                StateMove {
                    recalc_accumulator: if st.recalc_accumulator < 255 {
                        (st.recalc_accumulator + 1) as u8
                    } else {
                        255u8
                    },
                    ..st
                }
            } else {
                st
            };
            (st2, StateResult::Working)
        },
        Some(ActionError::Tired) => (st, StateResult::Working),
        Some(ActionError::Busy) => (st, StateResult::Working),
        Some(ActionError::NoBodypart) => (st, StateResult::Failed(MoveError::NoMovePart)),
        Some(ActionError::NotOwner) => (st, StateResult::Failed(MoveError::UnownedCreep)),
        Some(ActionError::NotFound) => match retry {
            None => (st, StateResult::Working),
            Some(ActionError::Tired) => (st, StateResult::Working),
            Some(ActionError::Busy) => (st, StateResult::Working),
            Some(..) => (st, StateResult::Failed(MoveError::OffPath)),
        },
        Some(..) => (st, StateResult::Failed(MoveError::OffPath)),
    }
}

/// The post-move decision. `retry` is read only after a path-not-found
/// report, when the host has recomputed the path and moved again.
pub fn move_after(st: &StateMove, action: &Option<ActionError>, retry: &Option<ActionError>) -> (r:
    (StateMove, StateResult<Arrived, MoveError>))
    ensures
        r == spec_move_after(*st, *action, *retry),
{
    match action {
        None => {
            let st2 = if st.recalc_rate > 0 && st.recalc_per_tile {
                StateMove {
                    recalc_accumulator: if st.recalc_accumulator < 255 {
                        st.recalc_accumulator + 1
                    } else {
                        255
                    },
                    ..*st
                }
            } else {
                *st
            };
            (st2, StateResult::Working)
        },
        Some(ActionError::Tired) => (*st, StateResult::Working),
        Some(ActionError::Busy) => (*st, StateResult::Working),
        Some(ActionError::NoBodypart) => (*st, StateResult::Failed(MoveError::NoMovePart)),
        Some(ActionError::NotOwner) => (*st, StateResult::Failed(MoveError::UnownedCreep)),
        Some(ActionError::NotFound) => match retry {
            None => (*st, StateResult::Working),
            Some(ActionError::Tired) => (*st, StateResult::Working),
            Some(ActionError::Busy) => (*st, StateResult::Working),
            Some(..) => (*st, StateResult::Failed(MoveError::OffPath)),
        },
        Some(..) => (*st, StateResult::Failed(MoveError::OffPath)),
    }
}

/// An idle state: it only ever keeps working.
#[derive(Debug, Clone, Copy, PartialEq, Eq, Structural, Default)]
pub struct StateIdle(pub u32);

/// One idle decision: always still working.
pub fn idle_step(st: &StateIdle) -> (r: StateResult<(), ()>)
    ensures
        r == StateResult::<(), ()>::Working,
{
    StateResult::Working
}

/// A state that removes its agent; it finishes at once, whatever the
/// action reported.
#[derive(Debug, Clone, Copy, PartialEq, Eq, Structural, Default)]
pub struct StateSuicide;

impl StateSuicide {
    pub fn new() -> (s: Self)
        ensures
            s == StateSuicide,
    {
        StateSuicide
    }
}

/// One removal decision: finished, whatever came back.
pub fn suicide_step(action: &Option<ActionError>) -> (r: StateResult<(), ()>)
    ensures
        r == StateResult::<(), ()>::Finished(()),
{
    StateResult::Finished(())
}

/// A supplier of lines to sing, for the embedding to implement.
pub trait Lyrics {
    fn next_line(&mut self) -> Option<String>;
}

/// The done-singing marker.
#[derive(Debug, Clone, Copy, PartialEq, Eq, Structural)]
pub struct DoneSinging;

/// A state that sings its lyrics line by line.
#[derive(Debug, PartialEq, Eq)]
pub struct StateSinging<L> {
    pub lyrics: L,
}

impl<L: Lyrics> StateSinging<L> {
    pub fn new(lyrics: L) -> (s: Self)
        ensures
            s.lyrics == lyrics,
    {
        StateSinging { lyrics }
    }
}

/// One singing decision, over the line the lyrics handed out: a line
/// keeps working, no line finishes.
pub fn sing_step(line: &Option<String>) -> (r: StateResult<DoneSinging, ()>)
    ensures
        line is Some ==> r == StateResult::<DoneSinging, ()>::Working,
        line is None ==> r == StateResult::<DoneSinging, ()>::Finished(DoneSinging),
{
    match line {
        Some(..) => StateResult::Working,
        None => StateResult::Finished(DoneSinging),
    }
}

/// Funeral lyrics: a cursor over a list of lines.
#[derive(Debug, PartialEq, Eq)]
pub struct FuneralRites {
    pub lines: Vec<String>,
    pub at: usize,
}

impl FuneralRites {
    /// Rites over the given lines, from the first.
    pub fn new(lines: Vec<String>) -> (r: Self)
        ensures
            r.lines == lines,
            r.at == 0,
    {
        FuneralRites { lines, at: 0 }
    }
}

impl Lyrics for FuneralRites {
    fn next_line(&mut self) -> Option<String> {
        if self.at < self.lines.len() {
            let l = self.lines[self.at].clone();
            self.at = self.at + 1;
            Some(l)
        } else {
            None
        }
    }
}

/// A test deciding whether a finished recurring state should run
/// again, for the embedding to implement.
pub trait CheckFunc<R> {
    fn check(&mut self, return_val: R) -> bool;
}

/// The default recurrence test: always run again.
#[derive(Debug, Clone, Copy, PartialEq, Eq, Structural, Default)]
pub struct DefaultCheck;

impl<R> CheckFunc<R> for DefaultCheck {
    fn check(&mut self, return_val: R) -> bool {
        true
    }
}

/// Routes a recurring state's result, given the recurrence test's
/// verdict on its return value: a finish that should recur is recorded
/// and reported as still working; a finish that should not passes
/// through; failures pass through.
pub fn reoccurring_route<R, E>(result: StateResult<R, E>, run_again: bool) -> (r: (
    Option<R>,
    StateResult<R, E>,
))
    ensures
        match result {
            StateResult::Working => r == (None::<R>, StateResult::<R, E>::Working),
            StateResult::Finished(v) => if run_again {
                r == (Some(v), StateResult::<R, E>::Working)
            } else {
                r == (None::<R>, StateResult::<R, E>::Finished(v))
            },
            StateResult::Failed(e) => r == (None::<R>, StateResult::<R, E>::Failed(e)),
        },
{
    match result {
        StateResult::Working => (None, StateResult::Working),
        StateResult::Finished(v) => {
            if run_again {
                (Some(v), StateResult::Working)
            } else {
                (None, StateResult::Finished(v))
            }
        },
        StateResult::Failed(e) => (None, StateResult::Failed(e)),
    }
}

/// Which half of a sequenced pair is running.
#[derive(Debug, Clone, Copy, PartialEq, Eq, Structural)]
pub enum AndThenStateFlag {
    A,
    B,
}

/// An error of a sequenced pair, tagged with the half that raised it.
#[derive(Debug, Clone, Copy, PartialEq, Eq)]
pub enum AndThenError<A, B> {
    StateAError(A),
    StateBError(B),
}

/// Routes the first state's result: working passes through, finishing
/// hands over to the second state, failing fails the pair.
pub fn and_then_route_a<RA, RB, EA, EB>(result: StateResult<RA, EA>) -> (r: (
    AndThenStateFlag,
    Option<StateResult<RB, AndThenError<EA, EB>>>,
))
    ensures
        match result {
            StateResult::Working => r == (
                AndThenStateFlag::A,
                Some(StateResult::<RB, AndThenError<EA, EB>>::Working),
            ),
            StateResult::Finished(..) => r == (
                AndThenStateFlag::B,
                None::<StateResult<RB, AndThenError<EA, EB>>>,
            ),
            StateResult::Failed(e) => r == (
                AndThenStateFlag::A,
                Some(
                    StateResult::<RB, AndThenError<EA, EB>>::Failed(
                        AndThenError::<EA, EB>::StateAError(e),
                    ),
                ),
            ),
        },
{
    match result {
        StateResult::Working => (AndThenStateFlag::A, Some(StateResult::Working)),
        StateResult::Finished(..) => (AndThenStateFlag::B, None),
        StateResult::Failed(e) => (
            AndThenStateFlag::A,
            Some(StateResult::Failed(AndThenError::StateAError(e))),
        ),
    }
}

/// Routes the second state's result: its error is tagged as the second
/// half's.
pub fn and_then_route_b<RB, EA, EB>(result: StateResult<RB, EB>) -> (r: StateResult<
    RB,
    AndThenError<EA, EB>,
>)
    ensures
        match result {
            StateResult::Working => r is Working,
            StateResult::Finished(v) => r == StateResult::<RB, AndThenError<EA, EB>>::Finished(v),
            StateResult::Failed(e) => r == StateResult::<RB, AndThenError<EA, EB>>::Failed(
                AndThenError::<EA, EB>::StateBError(e),
            ),
        },
{
    match result {
        StateResult::Working => StateResult::Working,
        StateResult::Finished(v) => StateResult::Finished(v),
        StateResult::Failed(e) => StateResult::Failed(AndThenError::StateBError(e)),
    }
}

/// Routes the first state of an ignore-then pair: while it is
/// running, the pair only reports working; any finish or failure of it
/// is discarded and hands over to the second state on the next run.
pub fn ignore_then_route_a<RA, EA>(result: StateResult<RA, EA>) -> (r: (bool, StateResult<(), ()>))
    ensures
        r.1 == StateResult::<(), ()>::Working,
        r.0 == (result is Working),
{
    match result {
        StateResult::Working => (true, StateResult::Working),
        _ => (false, StateResult::Working),
    }
}

/// Which half of a move-then-act pair is running.
#[derive(Debug, Clone, Copy, PartialEq, Eq, Structural)]
pub enum MoveToStateFlag {
    Moving,
    State,
}

/// An error of a move-then-act pair: the journey's or the inner
/// state's.
#[derive(Debug, Clone, Copy, PartialEq, Eq)]
pub enum MoveToError<T> {
    MoveError(MoveError),
    StateError(T),
}

/// Routes the journey's result: working passes through, arriving hands
/// over to the inner state, failing fails the pair.
pub fn move_to_route_move<R, E>(result: StateResult<Arrived, MoveError>) -> (r: (
    MoveToStateFlag,
    Option<StateResult<R, MoveToError<E>>>,
))
    ensures
        match result {
            StateResult::Working => r == (
                MoveToStateFlag::Moving,
                Some(StateResult::<R, MoveToError<E>>::Working),
            ),
            StateResult::Finished(..) => r == (
                MoveToStateFlag::State,
                None::<StateResult<R, MoveToError<E>>>,
            ),
            StateResult::Failed(e) => r == (
                MoveToStateFlag::Moving,
                Some(StateResult::<R, MoveToError<E>>::Failed(MoveToError::<E>::MoveError(e))),
            ),
        },
{
    match result {
        StateResult::Working => (MoveToStateFlag::Moving, Some(StateResult::Working)),
        StateResult::Finished(..) => (MoveToStateFlag::State, None),
        StateResult::Failed(e) => (
            MoveToStateFlag::Moving,
            Some(StateResult::Failed(MoveToError::MoveError(e))),
        ),
    }
}

/// Routes the inner state's result: its error is tagged as the inner
/// state's.
pub fn move_to_route_state<R, E>(result: StateResult<R, E>) -> (r: StateResult<R, MoveToError<E>>)
    ensures
        match result {
            StateResult::Working => r is Working,
            StateResult::Finished(v) => r == StateResult::<R, MoveToError<E>>::Finished(v),
            StateResult::Failed(e) => r == StateResult::<R, MoveToError<E>>::Failed(
                MoveToError::<E>::StateError(e),
            ),
        },
{
    match result {
        StateResult::Working => StateResult::Working,
        StateResult::Finished(v) => StateResult::Finished(v),
        StateResult::Failed(e) => StateResult::Failed(MoveToError::StateError(e)),
    }
}

} // verus!
