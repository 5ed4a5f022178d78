//! From single steps to whole runs.
use vstd::prelude::*;
use crate::event::EventView;
use crate::laws::consistency::{consistent, law_initial_consistent, law_step_consistent};
use crate::laws::order::{law_initial_orderly, law_step_orderly, orderly};
use crate::rewriter::{initial, step, RewriterState, Setup};
use crate::transformer::Transformation;

verus! {

/// Whether `claim` holds of every step of the run that starts in `state`: of each event
/// that the run takes, together with the state in which it takes it.
pub open spec fn throughout(
    setup: Setup,
    state: RewriterState,
    events: Seq<EventView>,
    claim: spec_fn(RewriterState, EventView) -> bool,
) -> bool
    decreases events.len(),
{
    events.len() == 0 || {
        let (next, ending) = step(setup, state, events[0]);
        &&& claim(state, events[0])
        &&& ending is None ==> throughout(setup, next, events.drop_first(), claim)
    }
}

/// What holds of every step from a consistent and orderly state holds throughout the run
/// from such a state.
pub proof fn lemma_throughout_from(
    setup: Setup,
    transformations: Seq<Transformation>,
    state: RewriterState,
    events: Seq<EventView>,
    claim: spec_fn(RewriterState, EventView) -> bool,
)
    requires
        consistent(setup, transformations, state),
        orderly(setup, transformations, state),
        forall|s: RewriterState, e: EventView|
            consistent(setup, transformations, s) && orderly(setup, transformations, s)
                ==> #[trigger] claim(s, e),
    ensures
        throughout(setup, state, events, claim),
    decreases events.len(),
{
    if events.len() > 0 {
        law_step_consistent(setup, transformations, state, events[0]);
        law_step_orderly(setup, transformations, state, events[0]);
        let (next, ending) = step(setup, state, events[0]);
        if ending is None {
            lemma_throughout_from(setup, transformations, next, events.drop_first(), claim);
        }
    }
}

/// What holds of every step from a consistent and orderly state holds throughout every run
/// from the first state.
pub proof fn lemma_throughout(
    setup: Setup,
    transformations: Seq<Transformation>,
    events: Seq<EventView>,
    claim: spec_fn(RewriterState, EventView) -> bool,
)
    requires
        forall|s: RewriterState, e: EventView|
            consistent(setup, transformations, s) && orderly(setup, transformations, s)
                ==> #[trigger] claim(s, e),
    ensures
        throughout(setup, initial(setup, transformations), events, claim),
{
    law_initial_consistent(setup, transformations);
    law_initial_orderly(setup, transformations);
    lemma_throughout_from(
        setup,
        transformations,
        initial(setup, transformations),
        events,
        claim,
    );
}

} // verus!
