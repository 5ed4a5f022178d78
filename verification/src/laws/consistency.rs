//! The buffers, the group and the rules of every state of a run.
use vstd::prelude::*;
use crate::config::Config;
use crate::escape::{decoded, plain_text};
use crate::event::{element_name, EventKind, EventView};
use crate::laws::frame::lemma_text_step;
use crate::path::{is_above, path_text};
use crate::rewriter::{
    broadcast, empty_buffers, initial, renewed_all, routed, run, seen_all, step, wraps,
    RewriterState, Setup,
};
use crate::sets::distinct;
use crate::split::{
    choice_groups, deduplicated, group_universe, grouping_groups, lemma_deduplicated,
    selected_group, Split,
};
use crate::table::{firsts, index_of, keys, lemma_index_of, occurs};
use crate::transform::{buffer_views, is_outcome_of, setup_of, Outcome};
use crate::transformer::{Side, Transformation};

verus! {

/// What every state of a run keeps: the buffers are those of the groups that a split
/// element can go to, the group of the open split element is one of them, and the rules are
/// those of the configuration.
pub open spec fn consistent(
    setup: Setup,
    transformations: Seq<Transformation>,
    state: RewriterState,
) -> bool {
    &&& firsts(state.buffers) == group_universe(setup.split, setup.filter.residue@)
    &&& occurs(firsts(state.buffers), state.group)
    &&& state.rules.len() == transformations.len()
    &&& forall|i: int|
        0 <= i < transformations.len() ==> (#[trigger] state.rules[i]).rule == transformations[i]
}

/// The universe names the residue group, the default group and every group of the grouping,
/// each once.
pub proof fn lemma_universe(
    split: Split,
    residue: Seq<char>,
)
    ensures
        distinct(group_universe(split, residue)),
        occurs(group_universe(split, residue), residue),
        occurs(group_universe(split, residue), split.default@),
        forall|i: int, j: int|
            0 <= i < split.grouping@.len() && 0 <= j < split.grouping@[i].1@.len() ==> occurs(
                group_universe(split, residue),
                #[trigger] split.grouping@[i].1@[j].1@,
            ),
{
    let named = grouping_groups(split.grouping@);
    let all = named.push(residue).push(split.default@);
    lemma_deduplicated(all);
    lemma_index_of(all, residue);
    lemma_index_of(all, split.default@);
    assert(all[all.len() - 2] == residue);
    assert(all[all.len() - 1] == split.default@);
    assert(occurs(all, residue));
    assert(occurs(all, split.default@));
    assert(occurs(deduplicated(all), residue) <==> occurs(all, residue));
    assert(occurs(deduplicated(all), split.default@) <==> occurs(all, split.default@));
    assert forall|i: int, j: int|
        0 <= i < split.grouping@.len() && 0 <= j < split.grouping@[i].1@.len() implies occurs(
        group_universe(split, residue),
        #[trigger] split.grouping@[i].1@[j].1@,
    ) by {
        let group = split.grouping@[i].1@[j].1@;
        lemma_grouping_groups(split.grouping@, i, j);
        let k = choose|k: int| 0 <= k < named.len() && named[k] == group;
        assert(all[k] == group);
        lemma_index_of(all, group);
        assert(occurs(all, group));
        assert(occurs(deduplicated(all), group) <==> occurs(all, group));
    }
}

/// Every group that the grouping gives to a text is among its groups.
pub proof fn lemma_grouping_groups(
    grouping: Seq<(String, Vec<(String, String)>)>,
    i: int,
    j: int,
)
    requires
        0 <= i < grouping.len(),
        0 <= j < grouping[i].1@.len(),
    ensures
        exists|k: int|
            0 <= k < grouping_groups(grouping).len() && grouping_groups(grouping)[k]
                == grouping[i].1@[j].1@,
    decreases grouping.len(),
{
    let shorter = grouping.drop_last();
    let before = grouping_groups(shorter);
    let last = choice_groups(grouping.last().1@);
    let all = grouping_groups(grouping);
    assert(all == before + last);
    if i == grouping.len() - 1 {
        assert(last[j] == grouping[i].1@[j].1@);
        assert(all[before.len() + j] == last[j]);
    } else {
        assert(shorter[i] == grouping[i]);
        lemma_grouping_groups(shorter, i, j);
        let k = choose|k: int| 0 <= k < before.len() && before[k] == grouping[i].1@[j].1@;
        assert(all[k] == before[k]);
    }
}

/// The first state of a run is consistent.
pub proof fn law_initial_consistent(setup: Setup, transformations: Seq<Transformation>)
    ensures
        consistent(setup, transformations, initial(setup, transformations)),
{
    let universe = group_universe(setup.split, setup.filter.residue@);
    lemma_universe(setup.split, setup.filter.residue@);
    assert(firsts(empty_buffers(universe)) =~= universe);
}

/// The group after a text is a group of the universe, where the group before it was.
pub proof fn lemma_selected_group(
    setup: Setup,
    path: Seq<char>,
    text: Seq<char>,
    current: Seq<char>,
)
    requires
        occurs(group_universe(setup.split, setup.filter.residue@), current),
    ensures
        occurs(
            group_universe(setup.split, setup.filter.residue@),
            selected_group(setup.split, path, text, current),
        ),
{
    lemma_universe(setup.split, setup.filter.residue@);
    let grouping = setup.split.grouping@;
    lemma_index_of(keys(grouping), path);
    match index_of(keys(grouping), path) {
        Some(i) => {
            let choices = grouping[i].1@;
            lemma_index_of(keys(choices), text);
            match index_of(keys(choices), text) {
                Some(j) => {
                    assert(occurs(
                        group_universe(setup.split, setup.filter.residue@),
                        setup.split.grouping@[i].1@[j].1@,
                    ));
                },
                None => {},
            }
        },
        None => {},
    }
}

/// Consistency is kept by every step.
pub proof fn law_step_consistent(
    setup: Setup,
    transformations: Seq<Transformation>,
    state: RewriterState,
    event: EventView,
)
    requires
        consistent(setup, transformations, state),
    ensures
        consistent(setup, transformations, step(setup, state, event).0),
{
    let universe = group_universe(setup.split, setup.filter.residue@);
    let next = step(setup, state, event).0;
    lemma_universe(setup.split, setup.filter.residue@);
    assert(firsts(broadcast(state.buffers, event)) =~= firsts(state.buffers));
    match event.kind {
        EventKind::Start => {
            match decoded(element_name(event.content)) {
                Some(name) => {
                    let path = state.path.push(name);
                    assert(seen_all(state.rules, path_text(path)).len() == state.rules.len());
                    assert(seen_all(renewed_all(state.rules), path_text(path)).len()
                        == state.rules.len());
                    assert forall|i: int| 0 <= i < transformations.len() implies (
                    #[trigger] next.rules[i]).rule == transformations[i] by {
                        assert(state.rules[i].rule == transformations[i]);
                    }
                },
                None => {},
            }
        },
        EventKind::Text => {
            lemma_text_step(setup, state, event);
            match plain_text(event.content) {
                Some(text) => {
                    lemma_selected_group(setup, path_text(state.path), text, state.group);
                },
                None => {},
            }
            assert forall|i: int| 0 <= i < transformations.len() implies (
            #[trigger] next.rules[i]).rule == transformations[i] by {
                assert(state.rules[i].rule == transformations[i]);
            }
        },
        EventKind::End => {
            let path = path_text(state.path);
            if state.keep && !is_above(state.path, setup.split_path) {
                assert forall|i: int| 0 <= i < transformations.len() implies (
                #[trigger] next.rules[i]).rule == transformations[i] by {
                    assert(state.rules[i].rule == transformations[i]);
                }
                if state.path == setup.split_path {
                    let group = if state.included {
                        state.group
                    } else {
                        setup.filter.residue@
                    };
                    let pending = (state.pending + wraps(state.rules, path, Side::Before)).push(
                        event,
                    ) + wraps(state.rules, path, Side::After);
                    lemma_routed_names(state.buffers, group, pending);
                }
            }
        },
        _ => {},
    }
}

/// Routing leaves the names of the buffers as they are.
pub proof fn lemma_routed_names(
    buffers: Seq<(Seq<char>, Seq<EventView>)>,
    group: Seq<char>,
    events: Seq<EventView>,
)
    ensures
        firsts(routed(buffers, group, events)) == firsts(buffers),
{
    lemma_index_of(firsts(buffers), group);
    assert(firsts(routed(buffers, group, events)) =~= firsts(buffers));
}

/// Consistency holds of the state that a run ends in.
pub proof fn law_run_consistent(
    setup: Setup,
    transformations: Seq<Transformation>,
    state: RewriterState,
    events: Seq<EventView>,
)
    requires
        consistent(setup, transformations, state),
    ensures
        consistent(setup, transformations, run(setup, state, events).0),
    decreases events.len(),
{
    if events.len() > 0 {
        law_step_consistent(setup, transformations, state, events[0]);
        let (next, ending) = step(setup, state, events[0]);
        if ending is None {
            law_run_consistent(setup, transformations, next, events.drop_first());
        }
    }
}

/// What a run gives has one buffer for each group that a split element can go to, each
/// group once, and no other buffer.
pub proof fn law_outcome_groups(outcome: Outcome, config: Config, events: Seq<EventView>)
    requires
        is_outcome_of(
            outcome,
            run(setup_of(config), initial(setup_of(config), config.transformations@), events),
        ),
    ensures
        keys(outcome.groups@) == group_universe(config.split, config.filter.residue@),
        distinct(keys(outcome.groups@)),
{
    let setup = setup_of(config);
    law_initial_consistent(setup, config.transformations@);
    law_run_consistent(
        setup,
        config.transformations@,
        initial(setup, config.transformations@),
        events,
    );
    lemma_universe(config.split, config.filter.residue@);
    assert(keys(outcome.groups@) =~= firsts(buffer_views(outcome.groups@)));
}

} // verus!
