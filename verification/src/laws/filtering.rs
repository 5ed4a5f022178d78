//! The filter rejects for good.
use vstd::prelude::*;
use crate::event::{EventKind, EventView};
use crate::laws::frame::lemma_text_step;
use crate::laws::run::{lemma_throughout, throughout};
use crate::rewriter::{initial, step, RewriterState, Setup};
use crate::transformer::Transformation;

verus! {

/// Whether the filter let the open split element pass can only change from yes to no,
/// except where a split element is entered.
pub proof fn law_included_only_falls(setup: Setup, state: RewriterState, event: EventView)
    ensures
        ({
            let next = step(setup, state, event).0;
            next.included && !state.included ==> event.kind == EventKind::Start && next.keep
                && next.path == setup.split_path
        }),
{
    if event.kind == EventKind::Text {
        lemma_text_step(setup, state, event);
    }
}

/// Whether the step keeps to the rule that a rejected split element stays rejected: the
/// filter lets an element pass after the step only where it did before, or where the step
/// enters a split element.
pub open spec fn included_falls(setup: Setup, state: RewriterState, event: EventView) -> bool {
    let next = step(setup, state, event).0;
    next.included && !state.included ==> event.kind == EventKind::Start && next.keep && next.path
        == setup.split_path
}

/// Throughout every run, a split element that the filter rejected stays rejected until the
/// next split element is entered.
pub proof fn law_rejection_lasts(
    setup: Setup,
    transformations: Seq<Transformation>,
    events: Seq<EventView>,
)
    ensures
        throughout(
            setup,
            initial(setup, transformations),
            events,
            |s: RewriterState, e: EventView| included_falls(setup, s, e),
        ),
{
    let claim = |s: RewriterState, e: EventView| included_falls(setup, s, e);
    assert forall|s: RewriterState, e: EventView| #[trigger] claim(s, e) by {
        law_included_only_falls(setup, s, e);
    }
    lemma_throughout(setup, transformations, events, claim);
}

} // verus!
