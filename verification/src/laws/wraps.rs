//! Where the wrapped values of the rules stand.
use vstd::prelude::*;
use crate::event::{EventKind, EventView};
use crate::laws::routing::closed_element;
use crate::laws::run::{lemma_throughout, throughout};
use crate::path::{is_above, path_text};
use crate::rewriter::{initial, step, wraps, wraps_at, RewriterState, Setup};
use crate::transformer::{wrap_path, RuleState, Side, Transformation};
use crate::wrap::wrapped;

verus! {

/// What two lists of rules put on one side of an end tag, one list after the other.
pub proof fn lemma_wraps_add(
    first: Seq<RuleState>,
    second: Seq<RuleState>,
    path: Seq<char>,
    side: Side,
)
    ensures
        wraps(first + second, path, side) == wraps(first, path, side) + wraps(second, path, side),
    decreases second.len(),
{
    if second.len() == 0 {
        assert(first + second =~= first);
        assert(wraps(first, path, side) + wraps(second, path, side) =~= wraps(
            first,
            path,
            side,
        ));
    } else {
        lemma_wraps_add(first, second.drop_last(), path, side);
        assert((first + second).drop_last() =~= first + second.drop_last());
        assert((first + second).last() == second.last());
        assert(wraps(first + second, path, side) =~= wraps(first, path, side) + wraps(
            second,
            path,
            side,
        ));
    }
}

/// The wrap of one rule stands in one piece among the wraps of all rules: before it what the
/// earlier rules put on that side, after it what the later rules put there.
pub proof fn lemma_wrap_in_one_piece(
    rules: Seq<RuleState>,
    path: Seq<char>,
    side: Side,
    index: int,
)
    requires
        0 <= index < rules.len(),
        wraps_at(rules[index], path, side),
    ensures
        wraps(rules, path, side) == wraps(rules.take(index), path, side) + wrapped(
            rules[index].value_transformed,
            wrap_path(rules[index].rule, side)->0,
        ) + wraps(rules.skip(index + 1), path, side),
{
    let rule = rules[index];
    let head = rules.take(index);
    let tail = rules.skip(index + 1);
    assert(rules =~= head.push(rule) + tail);
    lemma_wraps_add(head.push(rule), tail, path, side);
    assert(head.push(rule).drop_last() =~= head);
}

/// At the end tag of an element inside the split element, the pending events are followed
/// by what the rules insert, the end tag, and what the rules append, in this order.
pub proof fn law_wraps_surround_end(setup: Setup, state: RewriterState, event: EventView)
    requires
        event.kind == EventKind::End,
        state.keep,
        !is_above(state.path, setup.split_path),
        state.path != setup.split_path,
    ensures
        step(setup, state, event).0.pending == state.pending + wraps(
            state.rules,
            path_text(state.path),
            Side::Before,
        ) + seq![event] + wraps(state.rules, path_text(state.path), Side::After),
{
    let path = path_text(state.path);
    assert((state.pending + wraps(state.rules, path, Side::Before)).push(event)
        =~= state.pending + wraps(state.rules, path, Side::Before) + seq![event]);
}

/// The wrap that a rule inserts stands in one piece before the end tag of its target:
/// between them stands only what later rules insert.
pub proof fn law_insert_wrap_before_end(state: RewriterState, event: EventView, index: int)
    requires
        0 <= index < state.rules.len(),
        wraps_at(state.rules[index], path_text(state.path), Side::Before),
    ensures
        ({
            let path = path_text(state.path);
            let rule = state.rules[index];
            closed_element(state, event) == state.pending + wraps(
                state.rules.take(index),
                path,
                Side::Before,
            ) + wrapped(rule.value_transformed, wrap_path(rule.rule, Side::Before)->0) + wraps(
                state.rules.skip(index + 1),
                path,
                Side::Before,
            ) + seq![event] + wraps(state.rules, path, Side::After)
        }),
{
    let path = path_text(state.path);
    let rule = state.rules[index];
    let wrap = wrapped(rule.value_transformed, wrap_path(rule.rule, Side::Before)->0);
    lemma_wrap_in_one_piece(state.rules, path, Side::Before, index);
    assert(closed_element(state, event) =~= state.pending + wraps(
        state.rules.take(index),
        path,
        Side::Before,
    ) + wrap + wraps(state.rules.skip(index + 1), path, Side::Before) + seq![event] + wraps(
        state.rules,
        path,
        Side::After,
    ));
}

/// The wrap that a rule appends stands in one piece after the end tag of its target:
/// between them stands only what earlier rules append.
pub proof fn law_append_wrap_after_end(state: RewriterState, event: EventView, index: int)
    requires
        0 <= index < state.rules.len(),
        wraps_at(state.rules[index], path_text(state.path), Side::After),
    ensures
        ({
            let path = path_text(state.path);
            let rule = state.rules[index];
            closed_element(state, event) == state.pending + wraps(
                state.rules,
                path,
                Side::Before,
            ) + seq![event] + wraps(state.rules.take(index), path, Side::After) + wrapped(
                rule.value_transformed,
                wrap_path(rule.rule, Side::After)->0,
            ) + wraps(state.rules.skip(index + 1), path, Side::After)
        }),
{
    let path = path_text(state.path);
    let rule = state.rules[index];
    let wrap = wrapped(rule.value_transformed, wrap_path(rule.rule, Side::After)->0);
    lemma_wrap_in_one_piece(state.rules, path, Side::After, index);
    assert(closed_element(state, event) =~= state.pending + wraps(
        state.rules,
        path,
        Side::Before,
    ) + seq![event] + wraps(state.rules.take(index), path, Side::After) + wrap + wraps(
        state.rules.skip(index + 1),
        path,
        Side::After,
    ));
}

/// Whether, where the event is an end tag at or below the split element, every wrap stands
/// in one piece on its side of the end tag: the wrap that a rule inserts before it, after
/// the pending events and the wraps of earlier rules; the wrap that a rule appends after it,
/// before the wraps of later rules.
pub open spec fn wraps_stand_in_one_piece(setup: Setup, state: RewriterState, event: EventView)
    -> bool {
    let path = path_text(state.path);
    event.kind == EventKind::End && state.keep && !is_above(state.path, setup.split_path)
        ==> forall|index: int|
        0 <= index < state.rules.len() ==> {
            let rule = #[trigger] state.rules[index];
            &&& wraps_at(rule, path, Side::Before) ==> closed_element(state, event)
                == state.pending + wraps(state.rules.take(index), path, Side::Before) + wrapped(
                rule.value_transformed,
                wrap_path(rule.rule, Side::Before)->0,
            ) + wraps(state.rules.skip(index + 1), path, Side::Before) + seq![event] + wraps(
                state.rules,
                path,
                Side::After,
            )
            &&& wraps_at(rule, path, Side::After) ==> closed_element(state, event)
                == state.pending + wraps(state.rules, path, Side::Before) + seq![event] + wraps(
                state.rules.take(index),
                path,
                Side::After,
            ) + wrapped(rule.value_transformed, wrap_path(rule.rule, Side::After)->0) + wraps(
                state.rules.skip(index + 1),
                path,
                Side::After,
            )
        }
}

/// Throughout every run, an inserted wrap stands before the end tag of its target and an
/// appended wrap after it, each in one piece.
pub proof fn law_wraps_stand_in_one_piece(
    setup: Setup,
    transformations: Seq<Transformation>,
    events: Seq<EventView>,
)
    ensures
        throughout(
            setup,
            initial(setup, transformations),
            events,
            |s: RewriterState, e: EventView| wraps_stand_in_one_piece(setup, s, e),
        ),
{
    let claim = |s: RewriterState, e: EventView| wraps_stand_in_one_piece(setup, s, e);
    assert forall|s: RewriterState, e: EventView| #[trigger] claim(s, e) by {
        let path = path_text(s.path);
        assert forall|index: int| 0 <= index < s.rules.len() implies {
            let rule = #[trigger] s.rules[index];
            &&& wraps_at(rule, path, Side::Before) ==> closed_element(s, e) == s.pending + wraps(
                s.rules.take(index),
                path,
                Side::Before,
            ) + wrapped(rule.value_transformed, wrap_path(rule.rule, Side::Before)->0) + wraps(
                s.rules.skip(index + 1),
                path,
                Side::Before,
            ) + seq![e] + wraps(s.rules, path, Side::After)
            &&& wraps_at(rule, path, Side::After) ==> closed_element(s, e) == s.pending + wraps(
                s.rules,
                path,
                Side::Before,
            ) + seq![e] + wraps(s.rules.take(index), path, Side::After) + wrapped(
                rule.value_transformed,
                wrap_path(rule.rule, Side::After)->0,
            ) + wraps(s.rules.skip(index + 1), path, Side::After)
        } by {
            if wraps_at(s.rules[index], path, Side::Before) {
                law_insert_wrap_before_end(s, e, index);
            }
            if wraps_at(s.rules[index], path, Side::After) {
                law_append_wrap_after_end(s, e, index);
            }
        }
    }
    lemma_throughout(setup, transformations, events, claim);
}

} // verus!
