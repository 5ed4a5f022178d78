//! What a text changes, and what it leaves alone.
use vstd::prelude::*;
use crate::escape::plain_text;
use crate::event::{EventKind, EventView};
use crate::filter::passes;
use crate::path::{is_above, path_text};
use crate::rewriter::{after_rules, broadcast, is_line_break, step, RewriterState, Setup};
use crate::split::selected_group;
use crate::transformer::checked;

verus! {

/// The rules taking note of a text change nothing but the rules' own states, the warnings
/// and the last pending event.
pub proof fn lemma_after_rules_frame(
    state: RewriterState,
    path: Seq<char>,
    text: Seq<char>,
    count: nat,
)
    ensures
        ({
            let next = after_rules(state, path, text, count).0;
            &&& next.path == state.path
            &&& next.included == state.included
            &&& next.keep == state.keep
            &&& next.group == state.group
            &&& next.buffers == state.buffers
            &&& next.rules.len() == state.rules.len()
            &&& forall|i: int|
                0 <= i < state.rules.len() ==> (#[trigger] next.rules[i]).rule
                    == state.rules[i].rule
            &&& state.pending.len() > 0 ==> next.pending.len() == state.pending.len()
                && next.pending.drop_last() == state.pending.drop_last()
        }),
        match after_rules(state, path, text, count).1 {
            Some(ending) => ending is EvaluationFailure,
            None => true,
        },
    decreases count,
{
    if count > 0 {
        lemma_after_rules_frame(state, path, text, (count - 1) as nat);
        let (before, ending) = after_rules(state, path, text, (count - 1) as nat);
        let next = after_rules(state, path, text, count).0;
        if ending is None && count <= before.rules.len() {
            let i = count - 1;
            let (rule, outcome) = checked(before.rules[i], path, text);
            assert(rule.rule == before.rules[i].rule);
            assert forall|k: int| 0 <= k < state.rules.len() implies (#[trigger] next.rules[k]).rule
                == state.rules[k].rule by {
                assert(before.rules[k].rule == state.rules[k].rule);
            }
            if state.pending.len() > 0 {
                assert(next.pending.drop_last() =~= before.pending.drop_last());
            }
        }
    }
}

/// What a text changes: the path and whether events are kept stay as they are; the filter
/// lets the element pass after it only where it did before; the rules stay those of the
/// configuration; the group is the one that the text selects; the text goes to every group
/// above the split element and leaves the pending events alone there; and the run goes on,
/// unless the text cannot be read or an evaluation fails.
pub proof fn lemma_text_step(setup: Setup, state: RewriterState, event: EventView)
    requires
        event.kind == EventKind::Text,
    ensures
        ({
            let (next, ending) = step(setup, state, event);
            &&& next.path == state.path
            &&& next.keep == state.keep
            &&& next.included ==> state.included
            &&& next.rules.len() == state.rules.len()
            &&& forall|i: int|
                0 <= i < state.rules.len() ==> (#[trigger] next.rules[i]).rule
                    == state.rules[i].rule
            &&& next.group == state.group || (plain_text(event.content) is Some && next.group
                == selected_group(
                setup.split,
                path_text(state.path),
                plain_text(event.content)->0,
                state.group,
            ))
            &&& next.buffers == state.buffers || (is_above(state.path, setup.split_path)
                && next.buffers == broadcast(state.buffers, event))
            &&& is_above(state.path, setup.split_path) ==> next.pending == state.pending
            &&& !state.keep ==> next == state
            &&& match ending {
                Some(e) => e is MalformedText || e is EvaluationFailure,
                None => true,
            }
        }),
{
    if !(is_line_break(event.content) || !state.keep) {
        match plain_text(event.content) {
            Some(text) => {
                let path = path_text(state.path);
                if !is_above(state.path, setup.split_path) {
                    let pushed = RewriterState {
                        pending: state.pending.push(event),
                        group: selected_group(setup.split, path, text, state.group),
                        included: state.included && passes(setup.filter, path, text),
                        ..state
                    };
                    lemma_after_rules_frame(pushed, path, text, state.rules.len());
                    let next = step(setup, state, event).0;
                    assert forall|i: int| 0 <= i < state.rules.len() implies (
                    #[trigger] next.rules[i]).rule == state.rules[i].rule by {
                        assert(pushed.rules[i] == state.rules[i]);
                    }
                }
            },
            None => {},
        }
    }
}

} // verus!
