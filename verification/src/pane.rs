//! Event-handling results and context shared by every pane.

use std::marker::PhantomData;

use vstd::prelude::*;

verus! {

/// Result of a pane handling an event. The dispatcher hands an event to
/// the focused pane first and walks up through its ancestors until one
/// answers `Consumed`.
#[derive(Copy, Clone, Debug, PartialEq, Eq, Structural)]
pub enum Outcome {
    /// This pane handled the event; stop walking the chain.
    Consumed,
    /// This pane did not care; let the next responder try.
    Ignored,
}

/// Event-time context handed to a pane; it carries nothing yet.
pub struct HandleCtx<'a> {
    marker: PhantomData<&'a ()>,
}

impl<'a> HandleCtx<'a> {
    /// An empty context.
    pub fn new() -> (c: Self) {
        HandleCtx { marker: PhantomData }
    }
}

} // verus!
