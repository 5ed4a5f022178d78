//! A split element goes to exactly one group.
use vstd::prelude::*;
use crate::event::{EventKind, EventView};
use crate::laws::consistency::{consistent, lemma_universe};
use crate::laws::run::{lemma_throughout, throughout};
use crate::path::path_text;
use crate::rewriter::{initial, step, wraps, RewriterState, Setup};
use crate::table::{firsts, index_of, lemma_index_of};
use crate::transformer::{Side, Transformation};

verus! {

/// Whether the event is the end tag of the split element.
pub open spec fn closes_split_element(setup: Setup, state: RewriterState, event: EventView)
    -> bool {
    event.kind == EventKind::End && state.keep && state.path == setup.split_path
}

/// The events of an element at its end tag: those that were pending, what the rules insert,
/// the end tag, and what the rules append.
pub open spec fn closed_element(state: RewriterState, event: EventView) -> Seq<EventView> {
    (state.pending + wraps(state.rules, path_text(state.path), Side::Before)).push(event)
        + wraps(state.rules, path_text(state.path), Side::After)
}

/// The group that the open split element goes to: the residue group where the filter
/// rejected it, else the group that was selected.
pub open spec fn destination(setup: Setup, state: RewriterState) -> Seq<char> {
    if state.included {
        state.group
    } else {
        setup.filter.residue@
    }
}

/// The buffer at `index` takes `events`, and every other buffer stays as it is.
pub open spec fn only_buffer_receives(
    before: Seq<(Seq<char>, Seq<EventView>)>,
    after: Seq<(Seq<char>, Seq<EventView>)>,
    index: int,
    events: Seq<EventView>,
) -> bool {
    &&& 0 <= index < before.len()
    &&& after.len() == before.len()
    &&& after[index] == (before[index].0, before[index].1 + events)
    &&& forall|j: int| 0 <= j < before.len() && j != index ==> after[j] == before[j]
}

/// At the end tag of a split element its events go to exactly one group: the one buffer
/// that has the name of its destination takes them all, and nothing stays pending.
pub proof fn law_one_group_receives(
    setup: Setup,
    transformations: Seq<Transformation>,
    state: RewriterState,
    event: EventView,
)
    requires
        consistent(setup, transformations, state),
        closes_split_element(setup, state, event),
    ensures
        ({
            let next = step(setup, state, event).0;
            &&& next.pending.len() == 0
            &&& exists|i: int|
                {
                    &&& only_buffer_receives(
                        state.buffers,
                        next.buffers,
                        i,
                        closed_element(state, event),
                    )
                    &&& #[trigger] state.buffers[i].0 == destination(setup, state)
                    &&& forall|j: int|
                        0 <= j < state.buffers.len() && j != i ==> state.buffers[j].0
                            != destination(setup, state)
                }
        }),
{
    let names = firsts(state.buffers);
    let group = destination(setup, state);
    lemma_universe(setup.split, setup.filter.residue@);
    lemma_index_of(names, group);
    assert(setup.split_path =~= state.path.subrange(0, setup.split_path.len() as int));
    let i = index_of(names, group)->0;
    let next = step(setup, state, event).0;
    assert(names[i] == state.buffers[i].0);
    assert forall|j: int| 0 <= j < state.buffers.len() && j != i implies state.buffers[j].0
        != group by {
        assert(names[j] == state.buffers[j].0);
    }
    assert(only_buffer_receives(state.buffers, next.buffers, i, closed_element(state, event)));
}

/// A split element that the filter rejected goes to the residue group and to no other.
pub proof fn law_rejected_goes_to_residue(
    setup: Setup,
    transformations: Seq<Transformation>,
    state: RewriterState,
    event: EventView,
)
    requires
        consistent(setup, transformations, state),
        closes_split_element(setup, state, event),
        !state.included,
    ensures
        ({
            let next = step(setup, state, event).0;
            exists|i: int|
                {
                    &&& only_buffer_receives(
                        state.buffers,
                        next.buffers,
                        i,
                        closed_element(state, event),
                    )
                    &&& #[trigger] state.buffers[i].0 == setup.filter.residue@
                }
        }),
{
    law_one_group_receives(setup, transformations, state, event);
}

/// Where the event is the end tag of the split element, the events of the element go to the
/// one buffer of its destination, and nothing stays pending.
pub open spec fn goes_to_one_group(setup: Setup, state: RewriterState, event: EventView) -> bool {
    closes_split_element(setup, state, event) ==> {
        let next = step(setup, state, event).0;
        &&& next.pending.len() == 0
        &&& exists|i: int|
            {
                &&& only_buffer_receives(
                    state.buffers,
                    next.buffers,
                    i,
                    closed_element(state, event),
                )
                &&& #[trigger] state.buffers[i].0 == destination(setup, state)
                &&& forall|j: int|
                    0 <= j < state.buffers.len() && j != i ==> state.buffers[j].0 != destination(
                        setup,
                        state,
                    )
            }
    }
}

/// Throughout every run, each split element goes to exactly one group: at its end tag the
/// one buffer of its destination takes its events, and every other buffer stays as it is.
/// The destination of a split element that the filter rejected is the residue group.
pub proof fn law_split_elements_go_to_one_group(
    setup: Setup,
    transformations: Seq<Transformation>,
    events: Seq<EventView>,
)
    ensures
        throughout(
            setup,
            initial(setup, transformations),
            events,
            |s: RewriterState, e: EventView| goes_to_one_group(setup, s, e),
        ),
{
    let claim = |s: RewriterState, e: EventView| goes_to_one_group(setup, s, e);
    assert forall|s: RewriterState, e: EventView| consistent(setup, transformations, s) implies
        #[trigger] claim(s, e) by {
        if closes_split_element(setup, s, e) {
            law_one_group_receives(setup, transformations, s, e);
        }
    }
    lemma_throughout(setup, transformations, events, claim);
}

/// Where the event is the end tag of a split element that the filter rejected, the events
/// of the element go to the residue group and to no other.
pub open spec fn rejected_goes_to_residue(setup: Setup, state: RewriterState, event: EventView)
    -> bool {
    closes_split_element(setup, state, event) && !state.included ==> {
        let next = step(setup, state, event).0;
        exists|i: int|
            {
                &&& only_buffer_receives(
                    state.buffers,
                    next.buffers,
                    i,
                    closed_element(state, event),
                )
                &&& #[trigger] state.buffers[i].0 == setup.filter.residue@
            }
    }
}

/// Throughout every run, a split element that the filter rejected goes to the residue group
/// and to no other.
pub proof fn law_rejected_elements_go_to_residue(
    setup: Setup,
    transformations: Seq<Transformation>,
    events: Seq<EventView>,
)
    ensures
        throughout(
            setup,
            initial(setup, transformations),
            events,
            |s: RewriterState, e: EventView| rejected_goes_to_residue(setup, s, e),
        ),
{
    let claim = |s: RewriterState, e: EventView| rejected_goes_to_residue(setup, s, e);
    assert forall|s: RewriterState, e: EventView| consistent(setup, transformations, s) implies
        #[trigger] claim(s, e) by {
        if closes_split_element(setup, s, e) && !s.included {
            law_rejected_goes_to_residue(setup, transformations, s, e);
        }
    }
    lemma_throughout(setup, transformations, events, claim);
}

} // verus!
