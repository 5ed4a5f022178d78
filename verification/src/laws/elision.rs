//! A subtree that a rule removes leaves nothing in the groups.
use vstd::prelude::*;
use crate::escape::decoded;
use crate::event::{element_name, EventKind, EventView};
use crate::laws::consistency::{consistent, law_initial_consistent, law_step_consistent};
use crate::laws::frame::lemma_text_step;
use crate::laws::run::throughout;
use crate::path::path_text;
use crate::rewriter::{elides, initial, run, step, targets, RewriterState, Setup};
use crate::text::{joined, lemma_joined_add, lemma_joined_pieces, lemma_pieces_nonempty, pieces};
use crate::transformer::Transformation;

verus! {

/// Whether a position is at or below the element that `target` names.
pub open spec fn below(path: Seq<Seq<char>>, target: Seq<char>) -> bool {
    pieces(target, '/').is_prefix_of(path)
}

/// Whether a rule removes the subtree at `target`.
pub open spec fn removes(transformations: Seq<Transformation>, target: Seq<char>) -> bool {
    exists|i: int|
        0 <= i < transformations.len() && (#[trigger] transformations[i]).target@ == target
            && !transformations[i].keep
}

/// Whether no rule has its target inside the subtree at `target`.
pub open spec fn none_inside(transformations: Seq<Transformation>, target: Seq<char>) -> bool {
    forall|j: int|
        0 <= j < transformations.len() ==> !(target + "/"@).is_prefix_of(
            (#[trigger] transformations[j]).target@,
        )
}

/// Whether the rewriter keeps nothing at a position at or below `target`.
pub open spec fn elision_respected(state: RewriterState, target: Seq<char>) -> bool {
    below(state.path, target) ==> !state.keep
}

/// The position of an event: of a start tag the element that it opens, of any other event
/// the element that is open.
pub open spec fn event_path(state: RewriterState, event: EventView) -> Seq<Seq<char>> {
    if event.kind == EventKind::Start {
        match decoded(element_name(event.content)) {
            Some(name) => state.path.push(name),
            None => state.path,
        }
    } else {
        state.path
    }
}

/// The text of a position strictly below `target` begins with the target and a slash.
pub proof fn lemma_text_below(path: Seq<Seq<char>>, target: Seq<char>)
    requires
        below(path, target),
        path.len() > pieces(target, '/').len(),
    ensures
        (target + "/"@).is_prefix_of(path_text(path)),
{
    reveal_strlit("/");
    let names = pieces(target, '/');
    lemma_pieces_nonempty(target, '/');
    lemma_joined_pieces(target, '/');
    assert("/"@ =~= seq!['/']);
    let more = path.skip(names.len() as int);
    assert(path =~= names + more);
    lemma_joined_add(names, more, "/"@);
    let whole = path_text(path);
    assert(whole == target + "/"@ + joined(more, "/"@));
    assert(whole.subrange(0, (target + "/"@).len() as int) =~= target + "/"@);
}

/// The text of the position of `target` itself is the target.
pub proof fn lemma_text_at(target: Seq<char>)
    ensures
        path_text(pieces(target, '/')) == target,
{
    reveal_strlit("/");
    lemma_joined_pieces(target, '/');
    assert("/"@ =~= seq!['/']);
}

/// Where a rule removes the subtree at `target`, the state after a start tag at or below
/// the target keeps nothing.
proof fn lemma_start_below(
    setup: Setup,
    transformations: Seq<Transformation>,
    state: RewriterState,
    name: Seq<char>,
    target: Seq<char>,
)
    requires
        consistent(setup, transformations, state),
        removes(transformations, target),
        elision_respected(state, target),
        below(state.path.push(name), target),
    ensures
        !(state.keep && !elides(state.rules, path_text(state.path.push(name)))),
{
    let names = pieces(target, '/');
    let path = state.path.push(name);
    if names.len() <= state.path.len() {
        assert(names =~= state.path.subrange(0, names.len() as int)) by {
            assert(names =~= path.subrange(0, names.len() as int));
        }
    } else {
        assert(names =~= path);
        lemma_text_at(target);
        let i = choose|i: int|
            0 <= i < transformations.len() && (#[trigger] transformations[i]).target@ == target
                && !transformations[i].keep;
        assert(state.rules[i].rule == transformations[i]);
    }
}

/// Before the first event nothing is open, so the elision is respected.
pub proof fn law_elision_initial(
    setup: Setup,
    transformations: Seq<Transformation>,
    target: Seq<char>,
)
    ensures
        elision_respected(initial(setup, transformations), target),
{
    lemma_pieces_nonempty(target, '/');
}

/// Where a rule removes the subtree at `target` and no rule has its target inside that
/// subtree, every step keeps the elision respected.
pub proof fn law_elision_step(
    setup: Setup,
    transformations: Seq<Transformation>,
    state: RewriterState,
    event: EventView,
    target: Seq<char>,
)
    requires
        consistent(setup, transformations, state),
        removes(transformations, target),
        none_inside(transformations, target),
        elision_respected(state, target),
    ensures
        elision_respected(step(setup, state, event).0, target),
{
    let next = step(setup, state, event).0;
    let names = pieces(target, '/');
    lemma_pieces_nonempty(target, '/');
    match event.kind {
        EventKind::Start => {
            match decoded(element_name(event.content)) {
                Some(name) => {
                    if below(state.path.push(name), target) {
                        lemma_start_below(setup, transformations, state, name, target);
                    }
                },
                None => {},
            }
        },
        EventKind::Text => {
            lemma_text_step(setup, state, event);
        },
        EventKind::End => {
            if below(next.path, target) {
                assert(state.path.len() > 0);
                assert(names =~= state.path.subrange(0, names.len() as int)) by {
                    assert(names =~= next.path.subrange(0, names.len() as int));
                }
                lemma_text_below(state.path, target);
                assert(!targets(state.rules, path_text(state.path))) by {
                    if targets(state.rules, path_text(state.path)) {
                        let i = choose|i: int|
                            0 <= i < state.rules.len() && (#[trigger] state.rules[i]).rule.target@
                                == path_text(state.path);
                        assert(state.rules[i].rule == transformations[i]);
                    }
                }
            }
        },
        _ => {},
    }
}

/// Where the elision of `target` is respected, an event at or below the target leaves every
/// group and the pending events as they are. The declaration is the one event that goes to
/// the groups wherever it stands.
pub proof fn law_elided_emits_nothing(
    setup: Setup,
    transformations: Seq<Transformation>,
    state: RewriterState,
    event: EventView,
    target: Seq<char>,
)
    requires
        consistent(setup, transformations, state),
        removes(transformations, target),
        elision_respected(state, target),
        event.kind != EventKind::Declaration,
        below(event_path(state, event), target),
    ensures
        step(setup, state, event).0.buffers == state.buffers,
        step(setup, state, event).0.pending == state.pending,
{
    if event.kind == EventKind::Start {
        match decoded(element_name(event.content)) {
            Some(name) => {
                lemma_start_below(setup, transformations, state, name, target);
            },
            None => {},
        }
    }
}

/// Through a whole run the elision stays respected.
pub proof fn law_elision_run(
    setup: Setup,
    transformations: Seq<Transformation>,
    state: RewriterState,
    events: Seq<EventView>,
    target: Seq<char>,
)
    requires
        consistent(setup, transformations, state),
        removes(transformations, target),
        none_inside(transformations, target),
        elision_respected(state, target),
    ensures
        elision_respected(run(setup, state, events).0, target),
    decreases events.len(),
{
    if events.len() > 0 {
        law_step_consistent(setup, transformations, state, events[0]);
        law_elision_step(setup, transformations, state, events[0], target);
        let (next, ending) = step(setup, state, events[0]);
        if ending is None {
            law_elision_run(setup, transformations, next, events.drop_first(), target);
        }
    }
}

/// Whether the step leaves every group and the pending events as they are, where its event
/// stands at or below `target` and is no declaration.
pub open spec fn quiet_below(
    setup: Setup,
    state: RewriterState,
    event: EventView,
    target: Seq<char>,
) -> bool {
    below(event_path(state, event), target) && event.kind != EventKind::Declaration ==> {
        let next = step(setup, state, event).0;
        next.buffers == state.buffers && next.pending == state.pending
    }
}

/// The claim that every step is quiet below `target`.
pub open spec fn quiet_below_claim(setup: Setup, target: Seq<char>) -> spec_fn(
    RewriterState,
    EventView,
) -> bool {
    |s: RewriterState, e: EventView| quiet_below(setup, s, e, target)
}

/// From a state that respects the elision on, no event at or below the target reaches a
/// group.
pub proof fn lemma_quiet_below_from(
    setup: Setup,
    transformations: Seq<Transformation>,
    state: RewriterState,
    events: Seq<EventView>,
    target: Seq<char>,
)
    requires
        consistent(setup, transformations, state),
        removes(transformations, target),
        none_inside(transformations, target),
        elision_respected(state, target),
    ensures
        throughout(setup, state, events, quiet_below_claim(setup, target)),
    decreases events.len(),
{
    if events.len() > 0 {
        let event = events[0];
        if below(event_path(state, event), target) && event.kind != EventKind::Declaration {
            law_elided_emits_nothing(setup, transformations, state, event, target);
        }
        law_step_consistent(setup, transformations, state, event);
        law_elision_step(setup, transformations, state, event, target);
        let (next, ending) = step(setup, state, event);
        if ending is None {
            lemma_quiet_below_from(setup, transformations, next, events.drop_first(), target);
        }
    }
}

/// Where a rule removes the subtree at `target` and no rule has its target inside that
/// subtree, no event at or below the target reaches a group or the pending events,
/// throughout every run; the declaration alone goes to the groups wherever it stands.
pub proof fn law_elided_subtrees_leave_nothing(
    setup: Setup,
    transformations: Seq<Transformation>,
    events: Seq<EventView>,
    target: Seq<char>,
)
    requires
        removes(transformations, target),
        none_inside(transformations, target),
    ensures
        throughout(
            setup,
            initial(setup, transformations),
            events,
            quiet_below_claim(setup, target),
        ),
{
    law_initial_consistent(setup, transformations);
    law_elision_initial(setup, transformations, target);
    lemma_quiet_below_from(
        setup,
        transformations,
        initial(setup, transformations),
        events,
        target,
    );
}

} // verus!
