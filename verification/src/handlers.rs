//! Ready-made example handlers over an integer-carrying event, one per
//! control action, together with the laws that hold of pipelines built from
//! them: chained transformation, restart re-entry, and order sensitivity.

use vstd::prelude::*;

use crate::pipeline::{
    always_halts, is_passthrough, lemma_runs_to_deterministic, lemma_step_front, pipeline_step,
    run_steps, runs_to, start_state, Handler, HandlerAction, RunState,
};

verus! {

/// An event carrying a plain unsigned integer payload.
#[derive(Debug, Clone, Copy, PartialEq, Eq, Structural)]
pub struct IntEvent(pub u64);

/// Adding one to `value`, except at the top of the range, where the value is
/// left alone instead of wrapping.
pub open spec fn bumped(value: u64) -> u64 {
    if value < u64::MAX {
        (value + 1) as u64
    } else {
        value
    }
}

/// Doubling `value`, except where doubling would overflow, in which case the
/// value is left alone.
pub open spec fn doubled(value: u64) -> u64 {
    if value <= u64::MAX / 2 {
        (value * 2) as u64
    } else {
        value
    }
}

/// Example handlers for [`IntEvent`] pipelines. They cover every control
/// action a handler can take and both stateless and stateful behaviour, and
/// can be mixed freely in one pipeline.
#[derive(Debug, Clone, Copy, PartialEq, Eq, Structural)]
pub enum ExampleHandler {
    /// Forwards every event unchanged.
    PassThrough,
    /// Adds one to the payload (leaves it alone at the top of the range).
    AddOne,
    /// Doubles the payload (leaves it alone once doubling would overflow).
    Double,
    /// Counts its own invocations, forwarding every event unchanged.
    Counter { count: u64 },
    /// Aborts every traversal it sees.
    Halter,
    /// On its first invocation, restarts the chain with `replacement`;
    /// forwards events unchanged from then on.
    RestartOnce { fired: bool, replacement: IntEvent },
}

impl Handler<IntEvent> for ExampleHandler {
    open spec fn next(self, event: IntEvent) -> (Self, HandlerAction<IntEvent>) {
        match self {
            ExampleHandler::PassThrough => (self, HandlerAction::Continue(event)),
            ExampleHandler::AddOne => (self, HandlerAction::Continue(IntEvent(bumped(event.0)))),
            ExampleHandler::Double => (self, HandlerAction::Continue(IntEvent(doubled(event.0)))),
            ExampleHandler::Counter { count } => (
                ExampleHandler::Counter { count: bumped(count) },
                HandlerAction::Continue(event),
            ),
            ExampleHandler::Halter => (self, HandlerAction::Halt),
            ExampleHandler::RestartOnce { fired, replacement } => {
                if fired {
                    (self, HandlerAction::Continue(event))
                } else {
                    (
                        ExampleHandler::RestartOnce { fired: true, replacement },
                        HandlerAction::Restart(replacement),
                    )
                }
            },
        }
    }

    fn handle(&mut self, event: IntEvent) -> (action: HandlerAction<IntEvent>) {
        match self {
            ExampleHandler::PassThrough => HandlerAction::Continue(event),
            ExampleHandler::AddOne => {
                let value = if event.0 < u64::MAX {
                    event.0 + 1
                } else {
                    event.0
                };
                HandlerAction::Continue(IntEvent(value))
            },
            ExampleHandler::Double => {
                let value = if event.0 <= u64::MAX / 2 {
                    event.0 * 2
                } else {
                    event.0
                };
                HandlerAction::Continue(IntEvent(value))
            },
            ExampleHandler::Counter { count } => {
                if *count < u64::MAX {
                    *count = *count + 1;
                }
                HandlerAction::Continue(event)
            },
            ExampleHandler::Halter => HandlerAction::Halt,
            ExampleHandler::RestartOnce { fired, replacement } => {
                if *fired {
                    HandlerAction::Continue(event)
                } else {
                    *fired = true;
                    HandlerAction::Restart(*replacement)
                }
            },
        }
    }
}

/// `PassThrough` is a pass-through handler in the engine's sense.
pub proof fn lemma_passthrough_is_passthrough()
    ensures
        is_passthrough::<IntEvent, ExampleHandler>(ExampleHandler::PassThrough),
{
}

/// `Halter` halts every traversal in the engine's sense.
pub proof fn lemma_halter_always_halts()
    ensures
        always_halts::<IntEvent, ExampleHandler>(ExampleHandler::Halter),
{
}

/// Running a chain made solely of `AddOne` handlers from position `pos`
/// onward adds one to the payload for each remaining handler, then falls off
/// the end.
proof fn lemma_addone_run_from(
    handlers: Seq<ExampleHandler>,
    pos: int,
    value: u64,
    restarts_left: nat,
)
    requires
        forall |i: int| 0 <= i < handlers.len() ==> handlers[i] == ExampleHandler::AddOne,
        0 <= pos <= handlers.len(),
        value + handlers.len() - pos <= u64::MAX,
    ensures
        run_steps(
            (handlers, RunState::At { pos, event: IntEvent(value), restarts_left }),
            (handlers.len() - pos + 1) as nat,
        ) == (
            handlers,
            RunState::Done { result: Some(IntEvent((value + handlers.len() - pos) as u64)) },
        ),
    decreases handlers.len() - pos,
{
    let state = (handlers, RunState::At { pos, event: IntEvent(value), restarts_left });
    if pos == handlers.len() {
        assert(run_steps(state, 0) == state);
        assert(run_steps(state, 1) == pipeline_step(state));
    } else {
        assert(handlers[pos] == ExampleHandler::AddOne);
        assert(handlers.update(pos, ExampleHandler::AddOne) =~= handlers);
        let stepped = (
            handlers,
            RunState::At { pos: pos + 1, event: IntEvent((value + 1) as u64), restarts_left },
        );
        assert(pipeline_step(state) == stepped);
        lemma_addone_run_from(handlers, pos + 1, (value + 1) as u64, restarts_left);
        lemma_step_front(state, (handlers.len() - pos) as nat);
    }
}

/// Sequential transformation: a pipeline of N `AddOne` handlers returns the
/// input payload increased by N, and leaves every handler as it was.
pub proof fn lemma_increment_chain(
    handlers: Seq<ExampleHandler>,
    restart_limit: nat,
    value: u64,
    after: Seq<ExampleHandler>,
    outcome: Option<IntEvent>,
)
    requires
        forall |i: int| 0 <= i < handlers.len() ==> handlers[i] == ExampleHandler::AddOne,
        value + handlers.len() <= u64::MAX,
        runs_to(handlers, restart_limit, IntEvent(value), after, outcome),
    ensures
        outcome == Some(IntEvent((value + handlers.len()) as u64)),
        after == handlers,
{
    lemma_addone_run_from(handlers, 0, value, restart_limit);
    assert(run_steps(
        start_state(handlers, restart_limit, IntEvent(value)),
        (handlers.len() + 1) as nat,
    ) == (
        handlers,
        RunState::Done { result: Some(IntEvent((value + handlers.len()) as u64)) },
    ));
    lemma_runs_to_deterministic(
        handlers,
        restart_limit,
        IntEvent(value),
        after,
        outcome,
        handlers,
        Some(IntEvent((value + handlers.len()) as u64)),
    );
}

/// Restart re-enters at the first handler: with a counter followed by a
/// one-shot restarter, the counter runs once before the restart and once
/// after it, and the replacement event — carried through the second pass —
/// is what comes out.
pub proof fn lemma_restart_reenters(
    count: u64,
    replacement: IntEvent,
    restart_limit: nat,
    event: IntEvent,
    after: Seq<ExampleHandler>,
    outcome: Option<IntEvent>,
)
    requires
        count + 2 <= u64::MAX,
        restart_limit >= 1,
        runs_to(
            seq![
                ExampleHandler::Counter { count },
                ExampleHandler::RestartOnce { fired: false, replacement },
            ],
            restart_limit,
            event,
            after,
            outcome,
        ),
    ensures
        outcome == Some(replacement),
        after == seq![
            ExampleHandler::Counter { count: (count + 2) as u64 },
            ExampleHandler::RestartOnce { fired: true, replacement },
        ],
{
    let handlers = seq![
        ExampleHandler::Counter { count },
        ExampleHandler::RestartOnce { fired: false, replacement },
    ];
    let once_counted = seq![
        ExampleHandler::Counter { count: (count + 1) as u64 },
        ExampleHandler::RestartOnce { fired: false, replacement },
    ];
    let restarted = seq![
        ExampleHandler::Counter { count: (count + 1) as u64 },
        ExampleHandler::RestartOnce { fired: true, replacement },
    ];
    let twice_counted = seq![
        ExampleHandler::Counter { count: (count + 2) as u64 },
        ExampleHandler::RestartOnce { fired: true, replacement },
    ];
    let spent: nat = (restart_limit - 1) as nat;
    let state0 = start_state(handlers, restart_limit, event);
    let state1 = (once_counted, RunState::At { pos: 1, event, restarts_left: restart_limit });
    let state2 = (restarted, RunState::At { pos: 0, event: replacement, restarts_left: spent });
    let state3 = (twice_counted, RunState::At { pos: 1, event: replacement, restarts_left: spent });
    let state4 = (twice_counted, RunState::At { pos: 2, event: replacement, restarts_left: spent });
    let state5 = (twice_counted, RunState::Done { result: Some(replacement) });

    assert(handlers.update(0, ExampleHandler::Counter { count: (count + 1) as u64 }) =~= once_counted);
    assert(pipeline_step(state0) == state1);
    assert(once_counted.update(1, ExampleHandler::RestartOnce { fired: true, replacement }) =~= restarted);
    assert(pipeline_step(state1) == state2);
    assert(restarted.update(0, ExampleHandler::Counter { count: (count + 2) as u64 }) =~= twice_counted);
    assert(pipeline_step(state2) == state3);
    assert(twice_counted.update(1, ExampleHandler::RestartOnce { fired: true, replacement }) =~= twice_counted);
    assert(pipeline_step(state3) == state4);
    assert(pipeline_step(state4) == state5);

    lemma_step_front(state0, 4);
    lemma_step_front(state1, 3);
    lemma_step_front(state2, 2);
    lemma_step_front(state3, 1);
    lemma_step_front(state4, 0);
    assert(run_steps(state5, 0) == state5);
    assert(run_steps(state0, 5) == state5);

    lemma_runs_to_deterministic(
        handlers,
        restart_limit,
        event,
        after,
        outcome,
        twice_counted,
        Some(replacement),
    );
}

/// Order sensitivity: adding one and then doubling yields `(x + 1) * 2`,
/// doubling and then adding one yields `x * 2 + 1`; the two orders disagree
/// on every payload in range.
pub proof fn lemma_order_sensitivity(
    value: u64,
    restart_limit: nat,
    after_ad: Seq<ExampleHandler>,
    outcome_ad: Option<IntEvent>,
    after_da: Seq<ExampleHandler>,
    outcome_da: Option<IntEvent>,
)
    requires
        value + 1 <= u64::MAX / 2,
        runs_to(
            seq![ExampleHandler::AddOne, ExampleHandler::Double],
            restart_limit,
            IntEvent(value),
            after_ad,
            outcome_ad,
        ),
        runs_to(
            seq![ExampleHandler::Double, ExampleHandler::AddOne],
            restart_limit,
            IntEvent(value),
            after_da,
            outcome_da,
        ),
    ensures
        outcome_ad == Some(IntEvent(((value + 1) * 2) as u64)),
        outcome_da == Some(IntEvent((value * 2 + 1) as u64)),
        outcome_ad != outcome_da,
        after_ad == seq![ExampleHandler::AddOne, ExampleHandler::Double],
        after_da == seq![ExampleHandler::Double, ExampleHandler::AddOne],
{
    let add_double = seq![ExampleHandler::AddOne, ExampleHandler::Double];
    let double_add = seq![ExampleHandler::Double, ExampleHandler::AddOne];

    let ad0 = start_state(add_double, restart_limit, IntEvent(value));
    let ad1 = (
        add_double,
        RunState::At { pos: 1, event: IntEvent((value + 1) as u64), restarts_left: restart_limit },
    );
    let ad2 = (
        add_double,
        RunState::At {
            pos: 2,
            event: IntEvent(((value + 1) * 2) as u64),
            restarts_left: restart_limit,
        },
    );
    let ad3 = (
        add_double,
        RunState::Done { result: Some(IntEvent(((value + 1) * 2) as u64)) },
    );
    assert(add_double.update(0, ExampleHandler::AddOne) =~= add_double);
    assert(add_double.update(1, ExampleHandler::Double) =~= add_double);
    assert(pipeline_step(ad0) == ad1);
    assert(pipeline_step(ad1) == ad2);
    assert(pipeline_step(ad2) == ad3);
    lemma_step_front(ad0, 2);
    lemma_step_front(ad1, 1);
    lemma_step_front(ad2, 0);
    assert(run_steps(ad3, 0) == ad3);
    assert(run_steps(ad0, 3) == ad3);
    lemma_runs_to_deterministic(
        add_double,
        restart_limit,
        IntEvent(value),
        after_ad,
        outcome_ad,
        add_double,
        Some(IntEvent(((value + 1) * 2) as u64)),
    );

    let da0 = start_state(double_add, restart_limit, IntEvent(value));
    let da1 = (
        double_add,
        RunState::At { pos: 1, event: IntEvent((value * 2) as u64), restarts_left: restart_limit },
    );
    let da2 = (
        double_add,
        RunState::At {
            pos: 2,
            event: IntEvent((value * 2 + 1) as u64),
            restarts_left: restart_limit,
        },
    );
    let da3 = (
        double_add,
        RunState::Done { result: Some(IntEvent((value * 2 + 1) as u64)) },
    );
    assert(double_add.update(0, ExampleHandler::Double) =~= double_add);
    assert(double_add.update(1, ExampleHandler::AddOne) =~= double_add);
    assert(pipeline_step(da0) == da1);
    assert(pipeline_step(da1) == da2);
    assert(pipeline_step(da2) == da3);
    lemma_step_front(da0, 2);
    lemma_step_front(da1, 1);
    lemma_step_front(da2, 0);
    assert(run_steps(da3, 0) == da3);
    assert(run_steps(da0, 3) == da3);
    lemma_runs_to_deterministic(
        double_add,
        restart_limit,
        IntEvent(value),
        after_da,
        outcome_da,
        double_add,
        Some(IntEvent((value * 2 + 1) as u64)),
    );
}

} // verus!
