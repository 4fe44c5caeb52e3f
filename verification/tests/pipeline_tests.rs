use event_pipeline::handlers::{ExampleHandler, IntEvent};
use event_pipeline::pipeline::{Handler, HandlerAction, HandlerPipeline, Pipeline};
use event_pipeline::KeyEvent;

/// A handler that declares the capability and simply passes events through.
struct Dummy;

impl Handler<KeyEvent> for Dummy {
    fn next(self, event: KeyEvent) -> (Self, HandlerAction<KeyEvent>) {
        (Dummy, HandlerAction::Continue(event))
    }

    fn handle(&mut self, event: KeyEvent) -> HandlerAction<KeyEvent> {
        HandlerAction::Continue(event)
    }
}

#[test]
fn it_works() {
    let mut handler = Dummy {};
    let event = KeyEvent {};
    assert_eq!(
        handler.handle(event.clone()),
        HandlerAction::Continue(event)
    );
}

#[test]
fn it_calls_handler() {
    let mut pipeline = HandlerPipeline::new(vec![ExampleHandler::AddOne]);
    let result = pipeline.process(IntEvent(1));
    assert_eq!(result, Some(IntEvent(2)));
}

/// A pipeline type that keeps the trait's default pass-through behaviour.
struct Inert;

impl Pipeline<KeyEvent> for Inert {}

#[test]
fn default_pipeline_passes_through() {
    let mut pipeline = Inert;
    assert_eq!(pipeline.process(KeyEvent {}), Some(KeyEvent {}));
}

#[test]
fn identity_pass_through() {
    let mut pipeline = HandlerPipeline::new(vec![ExampleHandler::PassThrough]);
    assert_eq!(pipeline.process(IntEvent(7)), Some(IntEvent(7)));
}

#[test]
fn empty_pipeline_returns_event_unchanged() {
    let mut pipeline = HandlerPipeline::new(Vec::<ExampleHandler>::new());
    assert_eq!(pipeline.process(IntEvent(9)), Some(IntEvent(9)));
}

#[test]
fn sequential_transformation_adds_n() {
    let mut pipeline = HandlerPipeline::new(vec![
        ExampleHandler::AddOne,
        ExampleHandler::AddOne,
        ExampleHandler::AddOne,
    ]);
    assert_eq!(pipeline.process(IntEvent(5)), Some(IntEvent(8)));
}

#[test]
fn halt_short_circuits_later_handlers() {
    let mut pipeline = HandlerPipeline::new(vec![
        ExampleHandler::Halter,
        ExampleHandler::Counter { count: 0 },
    ]);
    let result = pipeline.process(IntEvent(3));
    assert!(result.is_none());
    assert_eq!(
        pipeline.handlers()[1],
        ExampleHandler::Counter { count: 0 }
    );
}

#[test]
fn restart_reenters_at_first_handler() {
    let replacement = IntEvent(42);
    let mut pipeline = HandlerPipeline::new(vec![
        ExampleHandler::Counter { count: 0 },
        ExampleHandler::RestartOnce {
            fired: false,
            replacement,
        },
    ]);
    let result = pipeline.process(IntEvent(5));
    assert_eq!(result, Some(replacement));
    assert_eq!(
        pipeline.handlers()[0],
        ExampleHandler::Counter { count: 2 }
    );
    assert_eq!(
        pipeline.handlers()[1],
        ExampleHandler::RestartOnce {
            fired: true,
            replacement,
        }
    );
}

#[test]
fn order_of_handlers_matters() {
    let mut add_then_double =
        HandlerPipeline::new(vec![ExampleHandler::AddOne, ExampleHandler::Double]);
    let mut double_then_add =
        HandlerPipeline::new(vec![ExampleHandler::Double, ExampleHandler::AddOne]);
    assert_eq!(add_then_double.process(IntEvent(3)), Some(IntEvent(8)));
    assert_eq!(double_then_add.process(IntEvent(3)), Some(IntEvent(7)));
}

#[test]
fn exhausted_restart_allowance_aborts() {
    let mut pipeline = HandlerPipeline::with_restart_limit(
        vec![ExampleHandler::RestartOnce {
            fired: false,
            replacement: IntEvent(1),
        }],
        0,
    );
    assert!(pipeline.process(IntEvent(0)).is_none());
}

#[test]
fn handler_state_persists_across_calls() {
    let mut pipeline = HandlerPipeline::new(vec![ExampleHandler::Counter { count: 0 }]);
    assert_eq!(pipeline.process(IntEvent(1)), Some(IntEvent(1)));
    assert_eq!(pipeline.process(IntEvent(2)), Some(IntEvent(2)));
    assert_eq!(
        pipeline.handlers()[0],
        ExampleHandler::Counter { count: 2 }
    );
}

#[test]
fn add_one_stops_at_the_ceiling() {
    let mut pipeline = HandlerPipeline::new(vec![ExampleHandler::AddOne]);
    assert_eq!(
        pipeline.process(IntEvent(u64::MAX)),
        Some(IntEvent(u64::MAX))
    );
}

#[test]
fn double_stops_where_it_would_overflow() {
    let mut pipeline = HandlerPipeline::new(vec![ExampleHandler::Double]);
    let big = u64::MAX / 2 + 1;
    assert_eq!(pipeline.process(IntEvent(big)), Some(IntEvent(big)));
    assert_eq!(
        pipeline.process(IntEvent(u64::MAX / 2)),
        Some(IntEvent(u64::MAX - 1))
    );
}
