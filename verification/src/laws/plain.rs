//! A run without rules, filter and grouping copies the document.
use vstd::prelude::*;
use crate::config::Config;
use crate::escape::{decoded, plain_text};
use crate::event::{element_name, EventKind, EventView};
use crate::filter::passes;
use crate::laws::consistency::{law_initial_consistent, lemma_routed_names};
use crate::path::{is_above, path_text};
use crate::rewriter::{
    broadcast, elides, initial, is_line_break, popped, run, step, wraps, RewriterState, Setup,
};
use crate::split::selected_group;
use crate::table::{firsts, index_of, keys, lemma_index_of};
use crate::transform::{lemma_split_path_nonempty, setup_of};
use crate::transformer::{Side, Transformation};

verus! {

/// Whether nothing is configured but the split: no rule, no filter entry, no grouping.
pub open spec fn is_plain(setup: Setup, transformations: Seq<Transformation>) -> bool {
    &&& transformations.len() == 0
    &&& setup.split.grouping@.len() == 0
    &&& setup.filter.allowlist.exact@.len() == 0
    &&& setup.filter.allowlist.regex@.len() == 0
    &&& setup.filter.blocklist.exact@.len() == 0
    &&& setup.filter.blocklist.regex@.len() == 0
}

/// Whether a plain run ends with the event: the end of the document, a failure, a start tag
/// whose name cannot be read, or a text that cannot be read.
pub open spec fn stops_plain_run(event: EventView) -> bool {
    match event.kind {
        EventKind::Eof | EventKind::Failure => true,
        EventKind::Start => decoded(element_name(event.content))
            is None,
        EventKind::Text => !is_line_break(event.content)
            && plain_text(event.content) is None,
        _ => false,
    }
}

/// Whether a plain run keeps the event: every event but the texts that are line breaks
/// only, and the declaration where declarations are not copied.
pub open spec fn is_kept(setup: Setup, event: EventView) -> bool {
    match event.kind {
        EventKind::Declaration => setup.split.declaration,
        EventKind::Text => !is_line_break(event.content),
        _ => true,
    }
}

/// What a plain run keeps of the events, in their order, up to the event that ends it.
pub open spec fn kept(setup: Setup, events: Seq<EventView>) -> Seq<EventView>
    decreases events.len(),
{
    if events.len() == 0 || stops_plain_run(events[0]) {
        Seq::empty()
    } else if is_kept(setup, events[0]) {
        seq![events[0]] + kept(setup, events.drop_first())
    } else {
        kept(setup, events.drop_first())
    }
}

/// Whether no event but the first is a declaration.
pub open spec fn declaration_leads(events: Seq<EventView>) -> bool {
    forall|i: int| 0 < i < events.len() ==> (#[trigger] events[i]).kind != EventKind::Declaration
}

/// What holds of every state of a plain run: everything is kept and goes to the default
/// group, and above the split element nothing is pending.
pub open spec fn plain_state(setup: Setup, state: RewriterState) -> bool {
    &&& state.keep
    &&& state.included
    &&& state.group == setup.split.default@
    &&& state.rules.len() == 0
    &&& index_of(firsts(state.buffers), setup.split.default@) is Some
    &&& is_above(state.path, setup.split_path) ==> state.pending.len() == 0
}

/// The events of the default group.
pub open spec fn default_events(setup: Setup, state: RewriterState) -> Seq<EventView> {
    state.buffers[index_of(firsts(state.buffers), setup.split.default@)->0].1
}

/// One step of a plain run: the event ends the run and changes nothing, or it goes behind
/// what the default group and the pending events hold, if it is kept.
pub proof fn lemma_plain_step(setup: Setup, state: RewriterState, event: EventView)
    requires
        setup.split.grouping@.len() == 0,
        setup.filter.allowlist.exact@.len() == 0,
        setup.filter.allowlist.regex@.len() == 0,
        setup.filter.blocklist.exact@.len() == 0,
        setup.filter.blocklist.regex@.len() == 0,
        plain_state(setup, state),
        event.kind == EventKind::Declaration ==> is_above(state.path, setup.split_path),
    ensures
        ({
            let (next, ending) = step(setup, state, event);
            &&& plain_state(setup, next)
            &&& ending is Some <==> stops_plain_run(event)
            &&& ending is Some ==> next == state
            &&& ending is None ==> default_events(setup, next) + next.pending == default_events(
                setup,
                state,
            ) + state.pending + if is_kept(setup, event) {
                seq![event]
            } else {
                Seq::empty()
            }
        }),
{
    let (next, ending) = step(setup, state, event);
    let names = firsts(state.buffers);
    let d = index_of(names, setup.split.default@)->0;
    let sum = default_events(setup, state) + state.pending;
    lemma_index_of(names, setup.split.default@);
    assert(firsts(broadcast(state.buffers, event)) =~= names);
    assert(sum + Seq::<EventView>::empty() =~= sum);
    if is_above(state.path, setup.split_path) {
        assert(state.buffers[d].1.push(event) + state.pending =~= sum + seq![event]);
    }
    assert(state.buffers[d].1 + state.pending.push(event) =~= sum + seq![event]);
    match event.kind {
        EventKind::Start => {
            match decoded(element_name(event.content)) {
                Some(name) => {
                    let path = state.path.push(name);
                    assert(!elides(state.rules, path_text(path)));
                    if setup.split_path.is_prefix_of(state.path) {
                        assert(setup.split_path =~= path.subrange(
                            0,
                            setup.split_path.len() as int,
                        )) by {
                            assert(setup.split_path =~= state.path.subrange(
                                0,
                                setup.split_path.len() as int,
                            ));
                        }
                    }
                    if path == setup.split_path {
                        assert(setup.split_path =~= path.subrange(0, path.len() as int));
                        assert(!setup.split_path.is_prefix_of(state.path));
                        assert(next.buffers == state.buffers);
                        assert(next.pending == state.pending.push(event));
                    } else if is_above(path, setup.split_path) {
                        assert(is_above(state.path, setup.split_path));
                        assert(next.buffers == broadcast(state.buffers, event));
                        assert(next.pending == state.pending);
                        assert(default_events(setup, next) == state.buffers[d].1.push(event));
                    } else {
                        assert(next.buffers == state.buffers);
                        assert(next.pending == state.pending.push(event));
                    }
                },
                None => {},
            }
        },
        EventKind::Text => {
            if !is_line_break(event.content) {
                match plain_text(event.content) {
                    Some(text) => {
                        let path = path_text(state.path);
                        assert(keys(setup.split.grouping@) =~= Seq::empty());
                        assert(keys(setup.filter.allowlist.exact@) =~= Seq::empty());
                        assert(keys(setup.filter.allowlist.regex@) =~= Seq::empty());
                        assert(keys(setup.filter.blocklist.exact@) =~= Seq::empty());
                        assert(keys(setup.filter.blocklist.regex@) =~= Seq::empty());
                        assert(passes(setup.filter, path, text));
                        assert(selected_group(setup.split, path, text, state.group)
                            == state.group);
                    },
                    None => {},
                }
            }
        },
        EventKind::End => {
            let path = path_text(state.path);
            if !is_above(state.path, setup.split_path) {
                let pending = (state.pending + wraps(state.rules, path, Side::Before)).push(event)
                    + wraps(state.rules, path, Side::After);
                assert(pending =~= state.pending.push(event));
                if state.path == setup.split_path {
                    lemma_routed_names(state.buffers, state.group, pending);
                    assert(next.buffers[d].1 + next.pending =~= sum + seq![event]);
                } else {
                    assert(state.path.len() > setup.split_path.len()) by {
                        if state.path.len() == setup.split_path.len() {
                            assert(state.path =~= state.path.subrange(
                                0,
                                setup.split_path.len() as int,
                            ));
                        }
                    }
                    assert(setup.split_path =~= popped(state.path).subrange(
                        0,
                        setup.split_path.len() as int,
                    )) by {
                        assert(setup.split_path =~= state.path.subrange(
                            0,
                            setup.split_path.len() as int,
                        ));
                    }
                }
            } else {
                if setup.split_path.is_prefix_of(popped(state.path)) {
                    assert(setup.split_path =~= state.path.subrange(
                        0,
                        setup.split_path.len() as int,
                    )) by {
                        assert(setup.split_path =~= popped(state.path).subrange(
                            0,
                            setup.split_path.len() as int,
                        ));
                    }
                }
            }
        },
        _ => {},
    }
}

/// A plain run keeps every event in its order: what the default group and the pending
/// events hold at its end is what they held before, followed by the kept events.
pub proof fn lemma_plain_run(setup: Setup, state: RewriterState, events: Seq<EventView>)
    requires
        setup.split.grouping@.len() == 0,
        setup.filter.allowlist.exact@.len() == 0,
        setup.filter.allowlist.regex@.len() == 0,
        setup.filter.blocklist.exact@.len() == 0,
        setup.filter.blocklist.regex@.len() == 0,
        plain_state(setup, state),
        declaration_leads(events),
        events.len() > 0 && events[0].kind == EventKind::Declaration ==> is_above(
            state.path,
            setup.split_path,
        ),
    ensures
        ({
            let last = run(setup, state, events).0;
            &&& plain_state(setup, last)
            &&& default_events(setup, last) + last.pending == default_events(setup, state)
                + state.pending + kept(setup, events)
        }),
    decreases events.len(),
{
    let sum = default_events(setup, state) + state.pending;
    assert(sum + Seq::<EventView>::empty() =~= sum);
    if events.len() > 0 {
        lemma_plain_step(setup, state, events[0]);
        let (next, ending) = step(setup, state, events[0]);
        if ending is None {
            assert forall|i: int| 0 < i < events.drop_first().len() implies (
            #[trigger] events.drop_first()[i]).kind != EventKind::Declaration by {
                assert(events[i + 1].kind != EventKind::Declaration);
            }
            if events.len() > 1 {
                assert(events.drop_first()[0] == events[1]);
            }
            lemma_plain_run(setup, next, events.drop_first());
            let rest = kept(setup, events.drop_first());
            assert(sum + seq![events[0]] + rest =~= sum + (seq![events[0]] + rest));
            assert(sum + Seq::<EventView>::empty() + rest =~= sum + rest);
        }
    }
}

/// With no rule, no filter entry and no grouping, and with no declaration but at the start
/// of the document, the default group and the pending events hold at the end of a run every
/// event that is kept, in the order of the document; and where the run ends above the split
/// element, nothing is pending, so that the default group holds them all. The split path
/// names at least one element, as that of every configuration does.
pub proof fn law_plain_run_keeps_everything(
    setup: Setup,
    transformations: Seq<Transformation>,
    events: Seq<EventView>,
)
    requires
        is_plain(setup, transformations),
        setup.split_path.len() > 0,
        declaration_leads(events),
    ensures
        ({
            let last = run(setup, initial(setup, transformations), events).0;
            &&& index_of(firsts(last.buffers), setup.split.default@) is Some
            &&& default_events(setup, last) + last.pending == kept(setup, events)
            &&& is_above(last.path, setup.split_path) ==> default_events(setup, last) == kept(
                setup,
                events,
            )
        }),
{
    let first = initial(setup, transformations);
    law_initial_consistent(setup, transformations);
    lemma_plain_run(setup, first, events);
    let d = index_of(firsts(first.buffers), setup.split.default@)->0;
    lemma_index_of(firsts(first.buffers), setup.split.default@);
    assert(first.buffers[d].1 =~= Seq::empty());
    assert(default_events(setup, first) + first.pending + kept(setup, events) =~= kept(
        setup,
        events,
    ));
    let last = run(setup, first, events).0;
    if is_above(last.path, setup.split_path) {
        assert(default_events(setup, last) + last.pending =~= default_events(setup, last));
    }
}

/// The plain run of a configuration: with no rule, no filter entry and no grouping, and
/// with no declaration but at the start of the document, the default group holds at the end
/// of a run that ends above the split element every event that is kept, in the order of the
/// document.
pub proof fn law_plain_configuration(config: Config, events: Seq<EventView>)
    requires
        is_plain(setup_of(config), config.transformations@),
        declaration_leads(events),
    ensures
        ({
            let setup = setup_of(config);
            let last = run(setup, initial(setup, config.transformations@), events).0;
            is_above(last.path, setup.split_path) ==> default_events(setup, last) == kept(
                setup,
                events,
            )
        }),
{
    lemma_split_path_nonempty(config);
    law_plain_run_keeps_everything(
        setup_of(config),
        config.transformations@,
        events,
    );
}

} // verus!
