//! The path follows the elements that are open.
use vstd::prelude::*;
use crate::event::{EventKind, EventView};
use crate::laws::frame::lemma_text_step;
use crate::rewriter::{initial, run, step, EndingView, RewriterState, Setup};
use crate::transformer::Transformation;

verus! {

/// The number of open elements after an event of the given kind, where `depth` were open
/// before it. An end tag with nothing open closes nothing.
pub open spec fn depth_after(kind: EventKind, depth: nat) -> nat {
    if kind == EventKind::Start {
        depth + 1
    } else if kind == EventKind::End && depth > 0 {
        (depth - 1) as nat
    } else {
        depth
    }
}

/// The number of elements that are open where the events end, where `depth` were open
/// before them.
pub open spec fn open_at_end(events: Seq<EventView>, depth: nat) -> nat
    decreases events.len(),
{
    if events.len() == 0 || events[0].kind == EventKind::Eof || events[0].kind
        == EventKind::Failure {
        depth
    } else {
        open_at_end(events.drop_first(), depth_after(events[0].kind, depth))
    }
}

/// A step that does not end the run opens an element at a start tag, closes one at an end
/// tag, and leaves the path as it is at any other event.
pub proof fn lemma_step_depth(setup: Setup, state: RewriterState, event: EventView)
    requires
        step(setup, state, event).1 is None,
    ensures
        step(setup, state, event).0.path.len() == depth_after(event.kind, state.path.len()),
{
    if event.kind == EventKind::Text {
        lemma_text_step(setup, state, event);
    }
}

/// Where a run reaches the end of the document, as many elements are open as the events
/// have left open.
pub proof fn lemma_depth_at_end(setup: Setup, state: RewriterState, events: Seq<EventView>)
    requires
        run(setup, state, events).1 == EndingView::EndOfDocument,
    ensures
        run(setup, state, events).0.path.len() == open_at_end(events, state.path.len()),
        events.len() > 0,
    decreases events.len(),
{
    if events.len() > 0 {
        let (next, ending) = step(setup, state, events[0]);
        if ending is None {
            lemma_step_depth(setup, state, events[0]);
            lemma_depth_at_end(setup, next, events.drop_first());
        } else {
            lemma_ends_at_eof(setup, state, events[0]);
        }
    }
}

/// Only the end of the document ends a run as `EndOfDocument`, and it leaves the state as it
/// is.
pub proof fn lemma_ends_at_eof(setup: Setup, state: RewriterState, event: EventView)
    requires
        step(setup, state, event).1 == Some(EndingView::EndOfDocument),
    ensures
        event.kind == EventKind::Eof,
        step(setup, state, event).0 == state,
{
    if event.kind == EventKind::Text {
        lemma_text_step(setup, state, event);
    }
}

/// After the end of a document that leaves no element open, the path is empty.
pub proof fn law_path_empty_at_end(
    setup: Setup,
    transformations: Seq<Transformation>,
    events: Seq<EventView>,
)
    requires
        run(setup, initial(setup, transformations), events).1 == EndingView::EndOfDocument,
        open_at_end(events, 0) == 0,
    ensures
        run(setup, initial(setup, transformations), events).0.path.len() == 0,
{
    lemma_depth_at_end(setup, initial(setup, transformations), events);
}

} // verus!
