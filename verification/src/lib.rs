//! An event-processing pipeline: an ordered chain of handlers that each
//! inspect or transform an event and decide what happens next — pass it on,
//! restart the chain, or halt processing entirely.

use vstd::prelude::*;

pub mod handlers;
pub mod pipeline;

verus! {

/// A minimal, payload-free event type for keyboard-style input.
///
/// The engine in [`pipeline`] is generic over the event type and imposes no
/// structure on it; this is merely one ready-made choice for integrators that
/// only care about the fact that a key was pressed.
#[derive(Debug, PartialEq, Clone)]
pub struct KeyEvent {}

} // verus!
