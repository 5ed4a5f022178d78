//! The rewriter: a state machine that takes the events of a document one by one, applies
//! the filter, the grouping and the rules, and sorts what it keeps into the groups.
//!
//! Events above the split element go to every group. The events of a split element wait
//! until its end tag, and then go to the one group that it belongs to.
use vstd::prelude::*;
use crate::escape::{decoded, plain_text};
use crate::event::{element_name, EventKind, EventView};
use crate::expression::Warning;
use crate::filter::{passes, Filter};
use crate::path::{is_above, path_text};
use crate::split::{group_universe, selected_group, Split};
use crate::table::{firsts, index_of};
use crate::transformer::{
    checked, initial_state, precondition_holds, released, seen, wrap_path, RuleState, Side,
    Transformation,
};
use crate::wrap::{text_event, wrapped};

verus! {

/// Why a run ended.
pub enum EndingView {
    /// The document was read to its end.
    EndOfDocument,
    /// The reader gave up.
    ReaderFailure,
    /// An element's name is no UTF-8.
    MalformedName,
    /// A text is no UTF-8, or holds an entity that cannot be resolved.
    MalformedText,
    /// A rule's expression could not be evaluated; the message says why.
    EvaluationFailure(Seq<char>),
    /// The events ran out before the document ended.
    Unfinished,
}

/// What stays the same while a document is rewritten.
pub struct Setup {
    /// The path of the split element, name by name.
    pub split_path: Seq<Seq<char>>,
    pub filter: Filter,
    pub split: Split,
}

/// What changes while a document is rewritten.
pub struct RewriterState {
    /// The names of the open elements.
    pub path: Seq<Seq<char>>,
    /// The events of the split element that is open.
    pub pending: Seq<EventView>,
    /// Whether the filter has let the open split element pass so far.
    pub included: bool,
    /// Whether the position is outside every subtree that a rule removes.
    pub keep: bool,
    /// The group that the open split element goes to.
    pub group: Seq<char>,
    /// The events of each group.
    pub buffers: Seq<(Seq<char>, Seq<EventView>)>,
    /// The state of each rule.
    pub rules: Seq<RuleState>,
    /// The warnings so far.
    pub warnings: Seq<Warning>,
}

/// The state of every rule before anything was read.
pub open spec fn initial_rules(transformations: Seq<Transformation>) -> Seq<RuleState> {
    Seq::new(transformations.len(), |i: int| initial_state(transformations[i]))
}

/// An empty buffer for each name.
pub open spec fn empty_buffers(names: Seq<Seq<char>>) -> Seq<(Seq<char>, Seq<EventView>)> {
    Seq::new(names.len(), |i: int| (names[i], Seq::empty()))
}

/// The state before the first event.
pub open spec fn initial(setup: Setup, transformations: Seq<Transformation>) -> RewriterState {
    RewriterState {
        path: Seq::empty(),
        pending: Seq::empty(),
        included: true,
        keep: true,
        group: setup.split.default@,
        buffers: empty_buffers(group_universe(setup.split, setup.filter.residue@)),
        rules: initial_rules(transformations),
        warnings: Seq::empty(),
    }
}

/// The buffers with the event at the end of each.
pub open spec fn broadcast(buffers: Seq<(Seq<char>, Seq<EventView>)>, event: EventView) -> Seq<
    (Seq<char>, Seq<EventView>),
> {
    Seq::new(buffers.len(), |i: int| (buffers[i].0, buffers[i].1.push(event)))
}

/// The buffers with the events at the end of the first buffer of `group`; unchanged where
/// no buffer has that name.
pub open spec fn routed(
    buffers: Seq<(Seq<char>, Seq<EventView>)>,
    group: Seq<char>,
    events: Seq<EventView>,
) -> Seq<(Seq<char>, Seq<EventView>)> {
    match index_of(firsts(buffers), group) {
        Some(i) => buffers.update(i, (buffers[i].0, buffers[i].1 + events)),
        None => buffers,
    }
}

/// The state with the event put where its position asks: into every group above the split
/// element, else among the pending events.
pub open spec fn placed(setup: Setup, state: RewriterState, event: EventView) -> RewriterState {
    if is_above(state.path, setup.split_path) {
        RewriterState { buffers: broadcast(state.buffers, event), ..state }
    } else {
        RewriterState { pending: state.pending.push(event), ..state }
    }
}

/// Whether a rule has `path` as its target.
pub open spec fn targets(rules: Seq<RuleState>, path: Seq<char>) -> bool {
    exists|i: int| 0 <= i < rules.len() && (#[trigger] rules[i]).rule.target@ == path
}

/// Whether a rule removes the subtree at `path`.
pub open spec fn elides(rules: Seq<RuleState>, path: Seq<char>) -> bool {
    exists|i: int|
        0 <= i < rules.len() && (#[trigger] rules[i]).rule.target@ == path && !rules[i].rule.keep
}

/// The rules after an element was opened at `path`.
pub open spec fn seen_all(rules: Seq<RuleState>, path: Seq<char>) -> Seq<RuleState> {
    Seq::new(rules.len(), |i: int| seen(rules[i], path))
}

/// The rules as they were before anything was read.
pub open spec fn renewed_all(rules: Seq<RuleState>) -> Seq<RuleState> {
    Seq::new(rules.len(), |i: int| initial_state(rules[i].rule))
}

/// The rules after the element at `path` was closed: those that have it as their target
/// forget which paths were seen.
pub open spec fn released_at(rules: Seq<RuleState>, path: Seq<char>) -> Seq<RuleState> {
    Seq::new(
        rules.len(),
        |i: int|
            if rules[i].rule.target@ == path {
                released(rules[i])
            } else {
                rules[i]
            },
    )
}

/// Whether a rule puts its wrapped value on the given side of the end tag of `path`.
pub open spec fn wraps_at(rule: RuleState, path: Seq<char>, side: Side) -> bool {
    rule.rule.target@ == path && wrap_path(rule.rule, side) is Some && precondition_holds(rule)
}

/// Whether a rule replaces the text at `path` by its value.
pub open spec fn rewrites_at(rule: RuleState, path: Seq<char>) -> bool {
    rule.rule.target@ == path && rule.rule.nodes@.len() == 0 && precondition_holds(rule)
}

/// What the rules put on the given side of the end tag of `path`, rule after rule.
pub open spec fn wraps(rules: Seq<RuleState>, path: Seq<char>, side: Side) -> Seq<EventView>
    decreases rules.len(),
{
    if rules.len() == 0 {
        Seq::empty()
    } else {
        let before = wraps(rules.drop_last(), path, side);
        let rule = rules.last();
        if wraps_at(rule, path, side) {
            before + wrapped(rule.value_transformed, wrap_path(rule.rule, side)->0)
        } else {
            before
        }
    }
}

/// The events with the last replaced by the text of `value`.
pub open spec fn with_last_text(pending: Seq<EventView>, value: Seq<char>) -> Seq<EventView> {
    if pending.len() > 0 {
        pending.drop_last().push(text_event(value))
    } else {
        pending.push(text_event(value))
    }
}

/// Whether a text holds line breaks and nothing else.
pub open spec fn is_line_break(content: Seq<u8>) -> bool {
    content.len() > 0 && forall|i: int|
        0 <= i < content.len() ==> (#[trigger] content[i] == 0x0a || content[i] == 0x0d)
}

/// The state after the first `count` rules took note of `text` at `path`; each rule that
/// rewrites the text puts its value in place of the pending text. The first evaluation that
/// fails ends the run.
pub open spec fn after_rules(state: RewriterState, path: Seq<char>, text: Seq<char>, count: nat)
    -> (RewriterState, Option<EndingView>)
    decreases count,
{
    if count == 0 {
        (state, None)
    } else {
        let (before, ending) = after_rules(state, path, text, (count - 1) as nat);
        if ending is Some || count > before.rules.len() {
            (before, ending)
        } else {
            let i = count - 1;
            let (rule, outcome) = checked(before.rules[i], path, text);
            let rules = before.rules.update(i, rule);
            match outcome {
                Err(message) => (
                    RewriterState { rules, ..before },
                    Some(EndingView::EvaluationFailure(message)),
                ),
                Ok(warning) => (
                    RewriterState {
                        rules,
                        warnings: match warning {
                            Some(w) => before.warnings.push(w),
                            None => before.warnings,
                        },
                        pending: if rewrites_at(rule, path) {
                            with_last_text(before.pending, rule.value_transformed)
                        } else {
                            before.pending
                        },
                        ..before
                    },
                    None,
                ),
            }
        }
    }
}

/// The state after a start tag.
pub open spec fn on_start(setup: Setup, state: RewriterState, event: EventView) -> (
    RewriterState,
    Option<EndingView>,
) {
    match decoded(element_name(event.content)) {
        None => (state, Some(EndingView::MalformedName)),
        Some(name) => {
            let path = state.path.push(name);
            let keep = state.keep && !elides(state.rules, path_text(path));
            let entering = keep && path == setup.split_path;
            let rules = seen_all(
                if entering {
                    renewed_all(state.rules)
                } else {
                    state.rules
                },
                path_text(path),
            );
            let next = RewriterState { path, keep, rules, ..state };
            if !keep {
                (next, None)
            } else if entering {
                (
                    RewriterState {
                        pending: next.pending.push(event),
                        included: true,
                        group: setup.split.default@,
                        ..next
                    },
                    None,
                )
            } else {
                (placed(setup, next, event), None)
            }
        },
    }
}

/// The state after a text.
pub open spec fn on_text(setup: Setup, state: RewriterState, event: EventView) -> (
    RewriterState,
    Option<EndingView>,
) {
    if is_line_break(event.content) || !state.keep {
        (state, None)
    } else {
        match plain_text(event.content) {
            None => (state, Some(EndingView::MalformedText)),
            Some(text) => {
                let path = path_text(state.path);
                let next = RewriterState {
                    group: selected_group(setup.split, path, text, state.group),
                    included: state.included && passes(setup.filter, path, text),
                    ..state
                };
                if is_above(state.path, setup.split_path) {
                    (RewriterState { buffers: broadcast(next.buffers, event), ..next }, None)
                } else {
                    after_rules(
                        RewriterState { pending: next.pending.push(event), ..next },
                        path,
                        text,
                        next.rules.len(),
                    )
                }
            },
        }
    }
}

/// The path without its last name.
pub open spec fn popped(path: Seq<Seq<char>>) -> Seq<Seq<char>> {
    if path.len() > 0 {
        path.drop_last()
    } else {
        path
    }
}

/// The state after an end tag.
pub open spec fn on_end(setup: Setup, state: RewriterState, event: EventView) -> RewriterState {
    let path = path_text(state.path);
    if !state.keep {
        RewriterState { keep: targets(state.rules, path), path: popped(state.path), ..state }
    } else if is_above(state.path, setup.split_path) {
        RewriterState {
            buffers: broadcast(state.buffers, event),
            path: popped(state.path),
            ..state
        }
    } else {
        let pending = (state.pending + wraps(state.rules, path, Side::Before)).push(event)
            + wraps(state.rules, path, Side::After);
        let rules = released_at(state.rules, path);
        if state.path == setup.split_path {
            let group = if state.included {
                state.group
            } else {
                setup.filter.residue@
            };
            RewriterState {
                pending: Seq::empty(),
                buffers: routed(state.buffers, group, pending),
                group,
                rules,
                path: popped(state.path),
                ..state
            }
        } else {
            RewriterState { pending, rules, path: popped(state.path), ..state }
        }
    }
}

/// The state after one event, and why the run ends with it, if it does.
pub open spec fn step(setup: Setup, state: RewriterState, event: EventView) -> (
    RewriterState,
    Option<EndingView>,
) {
    match event.kind {
        EventKind::Eof => (state, Some(EndingView::EndOfDocument)),
        EventKind::Failure => (state, Some(EndingView::ReaderFailure)),
        EventKind::Declaration => (
            if setup.split.declaration {
                RewriterState { buffers: broadcast(state.buffers, event), ..state }
            } else {
                state
            },
            None,
        ),
        EventKind::Start => on_start(setup, state, event),
        EventKind::Text => on_text(setup, state, event),
        EventKind::End => (on_end(setup, state, event), None),
        _ => (
            if state.keep {
                placed(setup, state, event)
            } else {
                state
            },
            None,
        ),
    }
}

/// The state after the events, up to and including the first that ends the run, and why
/// the run ended.
pub open spec fn run(setup: Setup, state: RewriterState, events: Seq<EventView>) -> (
    RewriterState,
    EndingView,
)
    decreases events.len(),
{
    if events.len() == 0 {
        (state, EndingView::Unfinished)
    } else {
        let (next, ending) = step(setup, state, events[0]);
        match ending {
            Some(e) => (next, e),
            None => run(setup, next, events.drop_first()),
        }
    }
}

} // verus!
