//! Events are pending only at or below the split element.
use vstd::prelude::*;
use crate::escape::decoded;
use crate::event::{element_name, EventKind, EventView};
use crate::laws::consistency::{consistent, law_step_consistent};
use crate::laws::frame::lemma_text_step;
use crate::path::{is_above, path_text};
use crate::rewriter::{elides, initial, popped, run, step, targets, RewriterState, Setup};
use crate::transformer::Transformation;

verus! {

/// Whether some rule has `text` as its target.
pub open spec fn is_target(transformations: Seq<Transformation>, text: Seq<char>) -> bool {
    exists|j: int|
        0 <= j < transformations.len() && (#[trigger] transformations[j]).target@ == text
}

/// The element at depth `depth` of the path is the target of a rule, so that its end tag
/// lets the rewriter keep events again; and where events are pending, that element lies
/// inside the split element.
pub open spec fn closes_elision(
    setup: Setup,
    transformations: Seq<Transformation>,
    state: RewriterState,
    depth: int,
) -> bool {
    &&& 1 <= depth <= state.path.len()
    &&& is_target(transformations, path_text(state.path.take(depth)))
    &&& state.pending.len() > 0 ==> setup.split_path.is_prefix_of(state.path.take(depth - 1))
}

/// Events are pending only at or below the split element; and while nothing is kept, an
/// open element is the target of a rule.
pub open spec fn orderly(
    setup: Setup,
    transformations: Seq<Transformation>,
    state: RewriterState,
) -> bool {
    &&& is_above(state.path, setup.split_path) ==> state.pending.len() == 0
    &&& !state.keep ==> exists|depth: int|
        closes_elision(
            setup,
            transformations,
            state,
            depth,
        )
}

/// A prefix of a beginning of a path is a prefix of every longer beginning.
pub proof fn lemma_prefix_of_longer(
    prefix: Seq<Seq<char>>,
    path: Seq<Seq<char>>,
    shorter: int,
    longer: int,
)
    requires
        0 <= shorter <= longer <= path.len(),
        prefix.is_prefix_of(path.take(shorter)),
    ensures
        prefix.is_prefix_of(path.take(longer)),
{
    assert(prefix =~= path.take(longer).subrange(0, prefix.len() as int)) by {
        assert(prefix =~= path.take(shorter).subrange(0, prefix.len() as int));
    }
}

/// The rules of a consistent state have the targets of the configuration.
pub proof fn lemma_targets(
    setup: Setup,
    transformations: Seq<Transformation>,
    state: RewriterState,
    text: Seq<char>,
)
    requires
        consistent(setup, transformations, state),
    ensures
        targets(state.rules, text) == is_target(transformations, text),
        elides(state.rules, text) ==> is_target(transformations, text),
{
    if targets(state.rules, text) {
        let i = choose|i: int|
            0 <= i < state.rules.len() && (#[trigger] state.rules[i]).rule.target@ == text;
        assert(transformations[i].target@ == text);
    }
    if is_target(transformations, text) {
        let j = choose|j: int|
            0 <= j < transformations.len() && (#[trigger] transformations[j]).target@ == text;
        assert(state.rules[j].rule.target@ == text);
    }
    if elides(state.rules, text) {
        let i = choose|i: int|
            0 <= i < state.rules.len() && (#[trigger] state.rules[i]).rule.target@ == text
                && !state.rules[i].rule.keep;
        assert(transformations[i].target@ == text);
    }
}

/// Before the first event nothing is pending and everything is kept.
pub proof fn law_initial_orderly(setup: Setup, transformations: Seq<Transformation>)
    ensures
        orderly(setup, transformations, initial(setup, transformations)),
{
}

/// Every step keeps the state orderly: events are pending only at or below the split
/// element.
pub proof fn law_step_orderly(
    setup: Setup,
    transformations: Seq<Transformation>,
    state: RewriterState,
    event: EventView,
)
    requires
        consistent(setup, transformations, state),
        orderly(setup, transformations, state),
    ensures
        orderly(setup, transformations, step(setup, state, event).0),
{
    let next = step(setup, state, event).0;
    let split = setup.split_path;
    let n = state.path.len() as int;
    assert(state.path.take(n) =~= state.path);
    if !state.keep {
        let depth = choose|depth: int| closes_elision(setup, transformations, state, depth);
        if next.path == state.path && next.pending == state.pending {
            assert(closes_elision(setup, transformations, next, depth));
        }
    }
    match event.kind {
        EventKind::Start => {
            match decoded(element_name(event.content)) {
                Some(name) => {
                    let path = state.path.push(name);
                    assert(path.take(n) =~= state.path);
                    assert(path.take(n + 1) =~= path);
                    if split.is_prefix_of(state.path) {
                        lemma_prefix_of_longer(split, path, n, n + 1);
                    }
                    if path == split {
                        assert(split =~= path.subrange(0, path.len() as int));
                    }
                    if !state.keep {
                        let depth = choose|depth: int|
                            closes_elision(setup, transformations, state, depth);
                        assert(path.take(depth) =~= state.path.take(depth));
                        assert(path.take(depth - 1) =~= state.path.take(depth - 1));
                        assert(closes_elision(setup, transformations, next, depth));
                    } else if elides(state.rules, path_text(path)) {
                        lemma_targets(setup, transformations, state, path_text(path));
                        assert(closes_elision(setup, transformations, next, n + 1));
                    }
                },
                None => {},
            }
        },
        EventKind::Text => {
            lemma_text_step(setup, state, event);
        },
        EventKind::End => {
            let shorter = popped(state.path);
            if !state.keep {
                let depth = choose|depth: int|
                    closes_elision(setup, transformations, state, depth);
                lemma_targets(setup, transformations, state, path_text(state.path));
                if state.pending.len() > 0 {
                    lemma_prefix_of_longer(split, state.path, depth - 1, n - 1);
                    assert(state.path.take(n - 1) =~= shorter);
                }
                if depth < n {
                    assert(shorter.take(depth) =~= state.path.take(depth));
                    assert(shorter.take(depth - 1) =~= state.path.take(depth - 1));
                    if !next.keep {
                        assert(closes_elision(setup, transformations, next, depth));
                    }
                }
            } else if !is_above(state.path, split) {
                if state.path != split {
                    assert(split.len() < n) by {
                        if split.len() == n {
                            assert(state.path =~= state.path.subrange(0, n));
                        }
                    }
                    assert(state.path.take(n - 1) =~= shorter);
                    assert(split =~= shorter.subrange(0, split.len() as int)) by {
                        assert(split =~= state.path.subrange(0, split.len() as int));
                    }
                }
            }
        },
        _ => {},
    }
}

/// Through a whole run events are pending only at or below the split element.
pub proof fn law_run_orderly(
    setup: Setup,
    transformations: Seq<Transformation>,
    state: RewriterState,
    events: Seq<EventView>,
)
    requires
        consistent(setup, transformations, state),
        orderly(setup, transformations, state),
    ensures
        orderly(setup, transformations, run(setup, state, events).0),
    decreases events.len(),
{
    if events.len() > 0 {
        law_step_consistent(setup, transformations, state, events[0]);
        law_step_orderly(setup, transformations, state, events[0]);
        let (next, ending) = step(setup, state, events[0]);
        if ending is None {
            law_run_orderly(setup, transformations, next, events.drop_first());
        }
    }
}

} // verus!
