use vstd::prelude::*;

use crate::resource::{ResourceState, ResourceTransition};

verus! {

/// Why an event was refused.
#[derive(Debug, Clone, Copy, PartialEq, Eq, Structural)]
pub enum Error {
    /// The transition does not fit the resource's current macro-state.
    TransitionError { current_state: ResourceState, transition: ResourceTransition },
    /// A Start that would open a session the operator already has open,
    /// or a Stop with no open session of that operator to close.
    WrongTransitionError {
        current_state: ResourceState,
        transition: ResourceTransition,
        human_resource_id: usize,
    },
    /// A Stop matched more than one open session: the open sessions were
    /// already inconsistent before the call.
    InternalConsistencyFailure,
}

} // verus!
