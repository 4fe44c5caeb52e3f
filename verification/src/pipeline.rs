//! The pipeline execution engine: the handler contract, the control-flow
//! actions a handler may return, and the loop that interprets those actions.

use vstd::prelude::*;

verus! {

/// The decision a handler returns for one event.
#[derive(PartialEq, Debug, Clone, Copy)]
pub enum HandlerAction<Event> {
    /// Accept the (possibly transformed) event and advance to the next handler.
    Continue(Event),
    /// Accept the (possibly transformed) event, abandon the rest of this
    /// traversal, and resume from the first handler.
    Restart(Event),
    /// Abort the traversal; no further handlers run and no event is produced.
    Halt,
}

/// One step of the chain: given an event, decide its fate and optionally
/// transform it. Handlers may carry private mutable state (for example an
/// invocation counter) that persists across invocations.
pub trait Handler<Event>: Sized {
    /// The mathematical behaviour of this handler: from its current state and
    /// an incoming event, the successor state and the action returned.
    spec fn next(self, event: Event) -> (Self, HandlerAction<Event>);

    /// Decide the fate of `event`, possibly updating the handler's own state.
    fn handle(&mut self, event: Event) -> (action: HandlerAction<Event>)
        ensures
            (*final(self), action) == old(self).next(event),
    ;
}

/// Anything that can drive one event to a terminal outcome. `None` means the
/// traversal was aborted rather than completed.
pub trait Pipeline<Event>: Sized {
    /// Run one event to completion. Without an override this is a transparent
    /// pass-through: the event comes back unchanged.
    fn process(&mut self, event: Event) -> (result: Option<Event>)
        default_ensures
            *final(self) == *old(self),
            result == Some(event),
    {
        Some(event)
    }
}

/// The number of restarts one `process` call grants when the pipeline is
/// built with [`HandlerPipeline::new`].
pub const DEFAULT_RESTART_LIMIT: u64 = 1024;

/// A pipeline that owns an ordered sequence of handlers and executes the
/// control protocol: invoke each handler in turn, advancing on `Continue`,
/// re-entering at the first handler on `Restart`, and aborting on `Halt`.
///
/// A chain whose handlers keep restarting would never fall off the end, so
/// each traversal is granted a finite number of restarts; the restart that
/// would exceed it aborts the traversal like a `Halt`.
pub struct HandlerPipeline<H> {
    handlers: Vec<H>,
    restart_limit: u64,
}

impl<H> View for HandlerPipeline<H> {
    /// The mathematical content of a pipeline: its handler states in
    /// traversal order, and the restart allowance of one traversal.
    type V = (Seq<H>, nat);

    closed spec fn view(&self) -> (Seq<H>, nat) {
        (self.handlers@, self.restart_limit as nat)
    }
}

impl<H> HandlerPipeline<H> {
    /// Build a pipeline that runs `handlers` in the given order, with the
    /// default restart allowance.
    pub fn new(handlers: Vec<H>) -> (pipeline: Self)
        ensures
            pipeline@ == (handlers@, DEFAULT_RESTART_LIMIT as nat),
    {
        HandlerPipeline { handlers, restart_limit: DEFAULT_RESTART_LIMIT }
    }

    /// Build a pipeline that runs `handlers` in the given order and grants
    /// each traversal at most `restart_limit` restarts.
    pub fn with_restart_limit(handlers: Vec<H>, restart_limit: u64) -> (pipeline: Self)
        ensures
            pipeline@ == (handlers@, restart_limit as nat),
    {
        HandlerPipeline { handlers, restart_limit }
    }

    /// The handlers, still in traversal order, for callers that want to
    /// inspect handler state between `process` calls.
    pub fn handlers(&self) -> (handlers: &Vec<H>)
        ensures
            handlers@ == self@.0,
    {
        &self.handlers
    }
}

/// Where one traversal stands: about to hand `event` to the handler at `pos`
/// with `restarts_left` restarts still allowed, or finished with `result`.
pub enum RunState<Event> {
    At { pos: int, event: Event, restarts_left: nat },
    Done { result: Option<Event> },
}

/// One step of the execution protocol, acting on the handler sequence and the
/// traversal position: past the end, the event has survived the whole chain;
/// otherwise the handler at `pos` runs and its action is interpreted.
pub open spec fn handler_step<Event, H: Handler<Event>>(
    handlers: Seq<H>,
    pos: int,
    event: Event,
    restarts_left: nat,
) -> (Seq<H>, RunState<Event>) {
    if !(0 <= pos < handlers.len()) {
        (handlers, RunState::Done { result: Some(event) })
    } else {
        let (updated, action) = handlers[pos].next(event);
        match action {
            HandlerAction::Continue(new_event) => (
                handlers.update(pos, updated),
                RunState::At { pos: pos + 1, event: new_event, restarts_left },
            ),
            HandlerAction::Restart(new_event) => {
                if restarts_left > 0 {
                    (
                        handlers.update(pos, updated),
                        RunState::At { pos: 0, event: new_event, restarts_left: (restarts_left - 1) as nat },
                    )
                } else {
                    (handlers.update(pos, updated), RunState::Done { result: None })
                }
            },
            HandlerAction::Halt => (handlers.update(pos, updated), RunState::Done { result: None }),
        }
    }
}

/// One step of a whole run; finished runs stay put.
pub open spec fn pipeline_step<Event, H: Handler<Event>>(
    state: (Seq<H>, RunState<Event>),
) -> (Seq<H>, RunState<Event>) {
    match state.1 {
        RunState::At { pos, event, restarts_left } => handler_step(state.0, pos, event, restarts_left),
        RunState::Done { .. } => state,
    }
}

/// `n` steps of a run.
pub open spec fn run_steps<Event, H: Handler<Event>>(
    state: (Seq<H>, RunState<Event>),
    n: nat,
) -> (Seq<H>, RunState<Event>)
    decreases n,
{
    if n == 0 {
        state
    } else {
        pipeline_step(run_steps(state, (n - 1) as nat))
    }
}

/// The state a traversal of `event` begins in: the first handler, with the
/// whole restart allowance still unspent.
pub open spec fn start_state<Event, H>(
    handlers: Seq<H>,
    restart_limit: nat,
    event: Event,
) -> (Seq<H>, RunState<Event>) {
    (handlers, RunState::At { pos: 0, event, restarts_left: restart_limit })
}

/// The meaning of one `process` call: starting from `handlers` with `event`,
/// some number of protocol steps ends the traversal with outcome `outcome`,
/// leaving the handler states `after`.
pub open spec fn runs_to<Event, H: Handler<Event>>(
    handlers: Seq<H>,
    restart_limit: nat,
    event: Event,
    after: Seq<H>,
    outcome: Option<Event>,
) -> bool {
    exists |n: nat|
        run_steps(start_state(handlers, restart_limit, event), n) == (
            after,
            RunState::Done { result: outcome },
        )
}

/// Let the handler at `pos` decide the fate of `event`, updating its state in
/// place.
fn invoke_at<Event, H: Handler<Event>>(
    handlers: &mut Vec<H>,
    pos: usize,
    event: Event,
) -> (action: HandlerAction<Event>)
    requires
        pos < old(handlers).len(),
    ensures
        ({
            let (updated, decided) = old(handlers)@[pos as int].next(event);
            final(handlers)@ == old(handlers)@.update(pos as int, updated) && action == decided
        }),
{
    let handler = &mut handlers[pos];
    handler.handle(event)
}

impl<Event, H: Handler<Event>> Pipeline<Event> for HandlerPipeline<H> {
    /// Drive `event` through the handler chain: starting at the first
    /// handler, each handler's action either advances the traversal, restarts
    /// it from the first handler, or aborts it. The outcome and the final
    /// handler states are exactly those of the step protocol run to its end.
    #[verifier::loop_isolation(false)]
    fn process(&mut self, event: Event) -> (result: Option<Event>)
        ensures
            runs_to(old(self)@.0, old(self)@.1, event, final(self)@.0, result),
            final(self)@.1 == old(self)@.1,
    {
        let ghost initial = start_state(old(self)@.0, old(self)@.1, event);
        let mut current = event;
        let mut pos: usize = 0;
        let mut restarts_left: u64 = self.restart_limit;
        proof {
            assert(run_steps(initial, 0) == initial);
        }
        loop
            invariant
                pos <= self.handlers.len(),
                self.restart_limit == old(self).restart_limit,
                exists |n: nat|
                    run_steps(initial, n) == (
                        self.handlers@,
                        RunState::At {
                            pos: pos as int,
                            event: current,
                            restarts_left: restarts_left as nat,
                        },
                    ),
            decreases restarts_left, self.handlers.len() - pos,
        {
            let ghost pre_handlers = self.handlers@;
            let ghost pre_event = current;
            let ghost pre_left = restarts_left as nat;
            let ghost n0 = choose |n: nat|
                run_steps(initial, n) == (
                    pre_handlers,
                    RunState::At { pos: pos as int, event: pre_event, restarts_left: pre_left },
                );
            proof {
                assert(run_steps(initial, n0 + 1) == pipeline_step(run_steps(initial, n0)));
            }
            if pos == self.handlers.len() {
                proof {
                    assert(run_steps(initial, n0 + 1) == (
                        self.handlers@,
                        RunState::Done { result: Some(pre_event) },
                    ));
                }
                return Some(current);
            }
            let action = invoke_at(&mut self.handlers, pos, current);
            match action {
                HandlerAction::Halt => {
                    proof {
                        assert(run_steps(initial, n0 + 1) == (
                            self.handlers@,
                            RunState::Done { result: None::<Event> },
                        ));
                    }
                    return None;
                },
                HandlerAction::Continue(new_event) => {
                    proof {
                        assert(run_steps(initial, n0 + 1) == (
                            self.handlers@,
                            RunState::At {
                                pos: pos as int + 1,
                                event: new_event,
                                restarts_left: pre_left,
                            },
                        ));
                    }
                    current = new_event;
                    pos = pos + 1;
                },
                HandlerAction::Restart(new_event) => {
                    if restarts_left == 0 {
                        proof {
                            assert(run_steps(initial, n0 + 1) == (
                                self.handlers@,
                                RunState::Done { result: None::<Event> },
                            ));
                        }
                        return None;
                    }
                    proof {
                        assert(run_steps(initial, n0 + 1) == (
                            self.handlers@,
                            RunState::At {
                                pos: 0,
                                event: new_event,
                                restarts_left: (pre_left - 1) as nat,
                            },
                        ));
                    }
                    current = new_event;
                    pos = 0;
                    restarts_left = restarts_left - 1;
                },
            }
        }
    }
}

/// A finished run stays finished: further steps change nothing.
pub proof fn lemma_done_stable<Event, H: Handler<Event>>(
    state: (Seq<H>, RunState<Event>),
    n: nat,
)
    requires
        state.1 is Done,
    ensures
        run_steps(state, n) == state,
    decreases n,
{
    if n > 0 {
        lemma_done_stable(state, (n - 1) as nat);
    }
}

/// Steps compose: `m + n` steps are `m` steps followed by `n` steps.
pub proof fn lemma_run_steps_add<Event, H: Handler<Event>>(
    state: (Seq<H>, RunState<Event>),
    m: nat,
    n: nat,
)
    ensures
        run_steps(state, m + n) == run_steps(run_steps(state, m), n),
    decreases n,
{
    if n > 0 {
        lemma_run_steps_add(state, m, (n - 1) as nat);
        assert(run_steps(state, m + n) == pipeline_step(run_steps(state, (m + n - 1) as nat)));
    }
}

/// Stepping from the front: `n + 1` steps are one step followed by `n` more.
pub proof fn lemma_step_front<Event, H: Handler<Event>>(
    state: (Seq<H>, RunState<Event>),
    n: nat,
)
    ensures
        run_steps(state, n + 1) == run_steps(pipeline_step(state), n),
{
    lemma_run_steps_add(state, 1, n);
    assert(run_steps(state, 0) == state);
    assert(run_steps(state, 1) == pipeline_step(state));
}

/// A run that has finished after `m` steps and also after `n` steps finished
/// the same way both times.
pub proof fn lemma_run_deterministic<Event, H: Handler<Event>>(
    state: (Seq<H>, RunState<Event>),
    m: nat,
    n: nat,
)
    requires
        run_steps(state, m).1 is Done,
        run_steps(state, n).1 is Done,
    ensures
        run_steps(state, m) == run_steps(state, n),
{
    if m <= n {
        lemma_run_steps_add(state, m, (n - m) as nat);
        lemma_done_stable(run_steps(state, m), (n - m) as nat);
    } else {
        lemma_run_steps_add(state, n, (m - n) as nat);
        lemma_done_stable(run_steps(state, n), (m - n) as nat);
    }
}

/// Traversal is deterministic: for fixed handler states and a fixed event,
/// one `process` outcome and one final handler sequence are possible.
pub proof fn lemma_runs_to_deterministic<Event, H: Handler<Event>>(
    handlers: Seq<H>,
    restart_limit: nat,
    event: Event,
    after1: Seq<H>,
    outcome1: Option<Event>,
    after2: Seq<H>,
    outcome2: Option<Event>,
)
    requires
        runs_to(handlers, restart_limit, event, after1, outcome1),
        runs_to(handlers, restart_limit, event, after2, outcome2),
    ensures
        after1 == after2,
        outcome1 == outcome2,
{
    let state = start_state(handlers, restart_limit, event);
    let n1 = choose |n: nat|
        run_steps(state, n) == (after1, RunState::Done { result: outcome1 });
    let n2 = choose |n: nat|
        run_steps(state, n) == (after2, RunState::Done { result: outcome2 });
    lemma_run_deterministic(state, n1, n2);
}

/// A handler that transforms nothing and never redirects the traversal: it
/// answers every event with `Continue(event)` and keeps its state.
pub open spec fn is_passthrough<Event, H: Handler<Event>>(handler: H) -> bool {
    forall |event: Event| #[trigger] handler.next(event) == (handler, HandlerAction::Continue(event))
}

/// A handler that aborts every traversal, whatever the event and whatever it
/// does to its own state.
pub open spec fn always_halts<Event, H: Handler<Event>>(handler: H) -> bool {
    forall |event: Event| (#[trigger] handler.next(event)).1 == HandlerAction::<Event>::Halt
}

/// A pipeline with no handlers returns every event unchanged.
pub proof fn lemma_empty_pipeline<Event, H: Handler<Event>>(
    restart_limit: nat,
    event: Event,
    after: Seq<H>,
    outcome: Option<Event>,
)
    requires
        runs_to(Seq::<H>::empty(), restart_limit, event, after, outcome),
    ensures
        outcome == Some(event),
        after == Seq::<H>::empty(),
{
    let state = start_state(Seq::<H>::empty(), restart_limit, event);
    assert(run_steps(state, 0) == state);
    assert(run_steps(state, 1) == pipeline_step(state));
    assert(run_steps(state, 1) == (Seq::<H>::empty(), RunState::Done { result: Some(event) }));
    lemma_runs_to_deterministic(
        Seq::<H>::empty(),
        restart_limit,
        event,
        after,
        outcome,
        Seq::<H>::empty(),
        Some(event),
    );
}

/// Identity pass-through: a pipeline holding a single pass-through handler
/// returns every event unchanged, and the handler keeps its state.
pub proof fn lemma_single_passthrough<Event, H: Handler<Event>>(
    handlers: Seq<H>,
    restart_limit: nat,
    event: Event,
    after: Seq<H>,
    outcome: Option<Event>,
)
    requires
        handlers.len() == 1,
        is_passthrough(handlers[0]),
        runs_to(handlers, restart_limit, event, after, outcome),
    ensures
        outcome == Some(event),
        after == handlers,
{
    let state = start_state(handlers, restart_limit, event);
    assert(handlers[0].next(event) == (handlers[0], HandlerAction::Continue(event)));
    assert(handlers.update(0, handlers[0]) =~= handlers);
    assert(run_steps(state, 1) == pipeline_step(run_steps(state, 0)));
    assert(run_steps(state, 1) == (
        handlers,
        RunState::At { pos: 1, event, restarts_left: restart_limit },
    ));
    assert(run_steps(state, 2) == (handlers, RunState::Done { result: Some(event) }));
    lemma_runs_to_deterministic(
        handlers,
        restart_limit,
        event,
        after,
        outcome,
        handlers,
        Some(event),
    );
}

/// Halt short-circuits: when the first handler always halts, no event comes
/// out and every later handler is left exactly as it was — it never ran.
pub proof fn lemma_halt_short_circuits<Event, H: Handler<Event>>(
    handlers: Seq<H>,
    restart_limit: nat,
    event: Event,
    after: Seq<H>,
    outcome: Option<Event>,
)
    requires
        handlers.len() >= 1,
        always_halts(handlers[0]),
        runs_to(handlers, restart_limit, event, after, outcome),
    ensures
        outcome is None,
        after == handlers.update(0, handlers[0].next(event).0),
        forall |i: int| 1 <= i < handlers.len() ==> after[i] == handlers[i],
{
    let state = start_state(handlers, restart_limit, event);
    assert(handlers[0].next(event).1 == HandlerAction::<Event>::Halt);
    assert(run_steps(state, 0) == state);
    assert(run_steps(state, 1) == pipeline_step(state));
    assert(run_steps(state, 1) == (
        handlers.update(0, handlers[0].next(event).0),
        RunState::Done { result: None::<Event> },
    ));
    lemma_runs_to_deterministic(
        handlers,
        restart_limit,
        event,
        after,
        outcome,
        handlers.update(0, handlers[0].next(event).0),
        None::<Event>,
    );
}

} // verus!

