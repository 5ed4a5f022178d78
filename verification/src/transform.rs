//! Rewriting a document: the rewriter as it runs, over a list of events or over the bytes
//! of a document.
use vstd::prelude::*;
use crate::config::Config;
use crate::escape::{plain_text_of, text_of_bytes};
use crate::event::{
    event_views, lemma_event_views_add, lemma_event_views_push, EventKind, EventView, XmlEvent,
};
use crate::expression::Warning;
use crate::filter::Filter;
use crate::path::PathTracker;
use crate::reader::{document_events, open_reader, pending_events, read_next};
use crate::rewriter::{
    after_rules, broadcast, elides, empty_buffers, initial, initial_rules, is_line_break,
    released_at, renewed_all, routed, run, seen_all, step, targets, wraps, EndingView,
    RewriterState, Setup,
};
use crate::split::Split;
use crate::table::{find_key, firsts, keys};
use crate::text::{pieces, split_text, texts};
use crate::transformer::{nodes_are_valid, rule_states, Side, Transformation, Transformer};
use crate::wrap::{embed, text_event_of};

verus! {

/// Why a run ended.
#[derive(Clone, Debug, PartialEq, Eq)]
pub enum Ending {
    /// The document was read to its end.
    EndOfDocument,
    /// The reader gave up.
    ReaderFailure,
    /// An element's name is no UTF-8.
    MalformedName,
    /// A text is no UTF-8, or holds an entity that cannot be resolved.
    MalformedText,
    /// A rule's expression could not be evaluated; the message says why.
    EvaluationFailure(String),
    /// The events ran out before the document ended.
    Unfinished,
}

impl View for Ending {
    type V = EndingView;

    open spec fn view(&self) -> EndingView {
        match self {
            Ending::EndOfDocument => EndingView::EndOfDocument,
            Ending::ReaderFailure => EndingView::ReaderFailure,
            Ending::MalformedName => EndingView::MalformedName,
            Ending::MalformedText => EndingView::MalformedText,
            Ending::EvaluationFailure(message) => EndingView::EvaluationFailure(message@),
            Ending::Unfinished => EndingView::Unfinished,
        }
    }
}

/// The view of an ending, if there is one.
pub open spec fn ending_view(ending: Option<Ending>) -> Option<EndingView> {
    match ending {
        Some(e) => Some(e@),
        None => None,
    }
}

/// The views of the groups' buffers.
pub open spec fn buffer_views(buffers: Seq<(String, Vec<XmlEvent>)>) -> Seq<
    (Seq<char>, Seq<EventView>),
> {
    Seq::new(buffers.len(), |i: int| (buffers[i].0@, event_views(buffers[i].1@)))
}

/// What a configuration fixes for the rewriter.
pub open spec fn setup_of(config: Config) -> Setup {
    Setup { split_path: pieces(config.element@, '/'), filter: config.filter, split: config.split }
}

/// The split path of a configuration names at least one element.
pub proof fn lemma_split_path_nonempty(config: Config)
    ensures
        setup_of(config).split_path.len() > 0,
{
    crate::text::lemma_pieces_nonempty(config.element@, '/');
}

/// The rewriter while it runs.
pub struct Rewriter {
    pub split_path: Vec<String>,
    pub filter: Filter,
    pub split: Split,
    pub current_path: PathTracker,
    pub pending: Vec<XmlEvent>,
    pub included: bool,
    pub keep: bool,
    pub current_group: String,
    pub group_buffers: Vec<(String, Vec<XmlEvent>)>,
    pub transformers: Vec<Transformer>,
    pub warnings: Vec<Warning>,
}

/// What a run gives: the events of each group, why the run ended, and the warnings.
#[derive(Clone, Debug)]
pub struct Outcome {
    pub groups: Vec<(String, Vec<XmlEvent>)>,
    pub ending: Ending,
    pub warnings: Vec<Warning>,
}

/// What is wrong with a configuration.
#[derive(Clone, Copy, Debug, PartialEq, Eq)]
pub enum ConfigError {
    /// The rule at this place has a key under `nodes` that is neither `insert` nor `append`.
    InvalidNodes(usize),
}

/// Compiles the rules: each rule gets its state before anything was read, in the order of
/// the configuration.
pub fn compile_rules(transformations: Vec<Transformation>) -> (transformers: Vec<Transformer>)
    ensures
        rule_states(transformers@) == initial_rules(transformations@),
{
    let mut rest = transformations;
    let mut transformers: Vec<Transformer> = Vec::new();
    proof {
        assert(rule_states(transformers@) + initial_rules(rest@) =~= initial_rules(
            transformations@,
        ));
    }
    while rest.len() > 0
        invariant
            rule_states(transformers@) + initial_rules(rest@) == initial_rules(transformations@),
        decreases rest.len(),
    {
        let ghost before = rule_states(transformers@);
        let ghost remaining = rest@;
        let transformation = rest.remove(0);
        let transformer = Transformer::new(transformation);
        transformers.push(transformer);
        proof {
            assert(rule_states(transformers@) =~= before.push(transformer@));
            assert(before.push(transformer@) + initial_rules(remaining.drop_first()) =~= before
                + initial_rules(remaining));
            assert(rest@ =~= remaining.drop_first());
        }
    }
    proof {
        assert(rule_states(transformers@) + initial_rules(rest@) =~= rule_states(transformers@));
    }
    transformers
}

/// Puts a copy of the event at the end of every buffer.
fn broadcast_to(buffers: &mut Vec<(String, Vec<XmlEvent>)>, event: &XmlEvent)
    ensures
        buffer_views(final(buffers)@) == broadcast(buffer_views(old(buffers)@), event@),
{
    let mut i: usize = 0;
    while i < buffers.len()
        invariant
            i <= buffers.len(),
            buffers.len() == old(buffers).len(),
            forall|j: int|
                0 <= j < buffers.len() ==> (#[trigger] buffers@[j]).0 == old(buffers)@[j].0,
            forall|j: int|
                0 <= j < i ==> event_views((#[trigger] buffers@[j]).1@) == event_views(
                    old(buffers)@[j].1@,
                ).push(event@),
            forall|j: int| i <= j < buffers.len() ==> buffers@[j] == old(buffers)@[j],
        decreases buffers.len() - i,
    {
        let copy = event.duplicate();
        let ghost before = buffers@[i as int].1@;
        buffers[i].1.push(copy);
        proof {
            lemma_event_views_push(before, copy);
        }
        i += 1;
    }
    proof {
        assert(buffer_views(buffers@) =~= broadcast(buffer_views(old(buffers)@), event@));
    }
}

/// Moves the pending events to the end of the buffer of `group`.
fn route(
    buffers: &mut Vec<(String, Vec<XmlEvent>)>,
    group: &String,
    pending: &mut Vec<XmlEvent>,
)
    ensures
        buffer_views(final(buffers)@) == routed(
            buffer_views(old(buffers)@),
            group@,
            event_views(old(pending)@),
        ),
        final(pending)@.len() == 0,
{
    proof {
        assert(firsts(buffer_views(buffers@)) =~= keys(buffers@));
    }
    match find_key(buffers, group) {
        Some(i) => {
            let ghost before = buffers@[i as int].1@;
            buffers[i].1.append(pending);
            proof {
                lemma_event_views_add(before, old(pending)@);
                assert(buffer_views(buffers@) =~= buffer_views(old(buffers)@).update(
                    i as int,
                    (old(buffers)@[i as int].0@, event_views(before) + event_views(old(pending)@)),
                ));
            }
        },
        None => {
            pending.clear();
        },
    }
}

/// Whether a rule has `path` as its target.
fn has_target(transformers: &Vec<Transformer>, path: &String) -> (found: bool)
    ensures
        found == targets(rule_states(transformers@), path@),
{
    let mut i: usize = 0;
    while i < transformers.len()
        invariant
            i <= transformers.len(),
            forall|j: int|
                0 <= j < i ==> (#[trigger] rule_states(transformers@)[j]).rule.target@ != path@,
        decreases transformers.len() - i,
    {
        if transformers[i].transformation.target == *path {
            proof {
                assert(rule_states(transformers@)[i as int].rule.target@ == path@);
            }
            return true;
        }
        i += 1;
    }
    false
}

/// Whether a rule removes the subtree at `path`.
fn has_elision(transformers: &Vec<Transformer>, path: &String) -> (found: bool)
    ensures
        found == elides(rule_states(transformers@), path@),
{
    let mut i: usize = 0;
    while i < transformers.len()
        invariant
            i <= transformers.len(),
            forall|j: int|
                0 <= j < i ==> !((#[trigger] rule_states(transformers@)[j]).rule.target@ == path@
                    && !rule_states(transformers@)[j].rule.keep),
        decreases transformers.len() - i,
    {
        if transformers[i].transformation.target == *path && !transformers[i].transformation.keep {
            proof {
                assert(rule_states(transformers@)[i as int].rule.target@ == path@);
            }
            return true;
        }
        i += 1;
    }
    false
}

/// Lets every rule take note that an element was opened at `path`.
fn mark_all(transformers: &mut Vec<Transformer>, path: &String)
    ensures
        rule_states(final(transformers)@) == seen_all(rule_states(old(transformers)@), path@),
{
    let mut i: usize = 0;
    while i < transformers.len()
        invariant
            i <= transformers.len(),
            transformers.len() == old(transformers).len(),
            forall|j: int|
                0 <= j < i ==> (#[trigger] transformers@[j])@ == seen_all(
                    rule_states(old(transformers)@),
                    path@,
                )[j],
            forall|j: int|
                i <= j < transformers.len() ==> transformers@[j] == old(transformers)@[j],
        decreases transformers.len() - i,
    {
        transformers[i].mark_seen(path);
        i += 1;
    }
    proof {
        assert(rule_states(transformers@) =~= seen_all(rule_states(old(transformers)@), path@));
    }
}

/// Puts every rule back to its state before anything was read.
fn renew_all(transformers: &mut Vec<Transformer>)
    ensures
        rule_states(final(transformers)@) == renewed_all(rule_states(old(transformers)@)),
{
    let mut i: usize = 0;
    while i < transformers.len()
        invariant
            i <= transformers.len(),
            transformers.len() == old(transformers).len(),
            forall|j: int|
                0 <= j < i ==> (#[trigger] transformers@[j])@ == renewed_all(
                    rule_states(old(transformers)@),
                )[j],
            forall|j: int|
                i <= j < transformers.len() ==> transformers@[j] == old(transformers)@[j],
        decreases transformers.len() - i,
    {
        transformers[i].renew();
        i += 1;
    }
    proof {
        assert(rule_states(transformers@) =~= renewed_all(rule_states(old(transformers)@)));
    }
}

/// Lets the rules with the target `path` forget which paths were seen.
fn release_at(transformers: &mut Vec<Transformer>, path: &String)
    ensures
        rule_states(final(transformers)@) == released_at(rule_states(old(transformers)@), path@),
{
    let mut i: usize = 0;
    while i < transformers.len()
        invariant
            i <= transformers.len(),
            transformers.len() == old(transformers).len(),
            forall|j: int|
                0 <= j < i ==> (#[trigger] transformers@[j])@ == released_at(
                    rule_states(old(transformers)@),
                    path@,
                )[j],
            forall|j: int|
                i <= j < transformers.len() ==> transformers@[j] == old(transformers)@[j],
        decreases transformers.len() - i,
    {
        if transformers[i].transformation.target == *path {
            transformers[i].release();
        }
        i += 1;
    }
    proof {
        assert(rule_states(transformers@) =~= released_at(rule_states(old(transformers)@), path@));
    }
}

/// Adds what the rules put on the given side of the end tag of `path`.
fn add_wraps(
    pending: &mut Vec<XmlEvent>,
    transformers: &Vec<Transformer>,
    path: &String,
    side: Side,
)
    ensures
        event_views(final(pending)@) == event_views(old(pending)@) + wraps(
            rule_states(transformers@),
            path@,
            side,
        ),
{
    let ghost rules = rule_states(transformers@);
    let mut i: usize = 0;
    proof {
        assert(rules.take(0) =~= Seq::empty());
        assert(event_views(pending@) + Seq::<EventView>::empty() =~= event_views(pending@));
    }
    while i < transformers.len()
        invariant
            i <= transformers.len(),
            rules == rule_states(transformers@),
            event_views(pending@) == event_views(old(pending)@) + wraps(
                rules.take(i as int),
                path@,
                side,
            ),
        decreases transformers.len() - i,
    {
        proof {
            assert(rules.take(i + 1).drop_last() =~= rules.take(i as int));
            assert(rules.take(i + 1).last() == transformers@[i as int]@);
        }
        let transformer = &transformers[i];
        if transformer.transformation.target == *path {
            match transformer.transformation.wrap_path(side) {
                Some(wrapper) => {
                    if transformer.precondition() {
                        let mut wrap = embed(
                            transformer.value_transformed.clone(),
                            wrapper.clone(),
                        );
                        let ghost before = pending@;
                        let ghost added = wrap@;
                        let ghost earlier = wraps(rules.take(i as int), path@, side);
                        pending.append(&mut wrap);
                        proof {
                            lemma_event_views_add(before, added);
                            assert((event_views(old(pending)@) + earlier) + event_views(added)
                                =~= event_views(old(pending)@) + (earlier + event_views(added)));
                        }
                    }
                },
                None => {},
            }
        }
        i += 1;
    }
    proof {
        assert(rules.take(transformers.len() as int) =~= rules);
    }
}

/// Whether the bytes are line breaks and nothing else.
pub fn is_line_break_text(content: &Vec<u8>) -> (line_break: bool)
    ensures
        line_break == is_line_break(content@),
{
    if content.len() == 0 {
        return false;
    }
    let mut i: usize = 0;
    while i < content.len()
        invariant
            i <= content.len(),
            forall|j: int| 0 <= j < i ==> (#[trigger] content@[j] == 0x0a || content@[j] == 0x0d),
        decreases content.len() - i,
    {
        if content[i] != 0x0a && content[i] != 0x0d {
            return false;
        }
        i += 1;
    }
    true
}

/// Once a rule's evaluation has failed, the rules after it are not asked.
pub proof fn lemma_after_rules_stops(
    state: RewriterState,
    path: Seq<char>,
    text: Seq<char>,
    failed: nat,
    count: nat,
)
    requires
        failed <= count,
        after_rules(state, path, text, failed).1 is Some,
    ensures
        after_rules(state, path, text, count) == after_rules(state, path, text, failed),
    decreases count,
{
    if failed < count {
        lemma_after_rules_stops(state, path, text, failed, (count - 1) as nat);
    }
}

impl Rewriter {
    /// What stays the same while the rewriter runs.
    pub open spec fn setup(&self) -> Setup {
        Setup { split_path: texts(self.split_path@), filter: self.filter, split: self.split }
    }

    /// What changes while the rewriter runs.
    pub open spec fn state(&self) -> RewriterState {
        RewriterState {
            path: self.current_path@,
            pending: event_views(self.pending@),
            included: self.included,
            keep: self.keep,
            group: self.current_group@,
            buffers: buffer_views(self.group_buffers@),
            rules: rule_states(self.transformers@),
            warnings: self.warnings@,
        }
    }

    /// The rewriter before the first event.
    pub fn new(config: Config) -> (rewriter: Rewriter)
        ensures
            rewriter.setup() == setup_of(config),
            rewriter.state() == initial(setup_of(config), config.transformations@),
    {
        let Config { element, filter, split, transformations, uploads: _, settings: _ } = config;
        let split_path = split_text(element.as_str(), '/');
        let mut names = split.groups(&filter.residue);
        let ghost universe = texts(names@);
        let mut group_buffers: Vec<(String, Vec<XmlEvent>)> = Vec::new();
        while names.len() > 0
            invariant
                buffer_views(group_buffers@) + empty_buffers(texts(names@)) == empty_buffers(
                    universe,
                ),
            decreases names.len(),
        {
            let ghost before = buffer_views(group_buffers@);
            let ghost rest = texts(names@);
            let name = names.remove(0);
            let events: Vec<XmlEvent> = Vec::new();
            group_buffers.push((name, events));
            proof {
                assert(event_views(events@) =~= Seq::empty());
                assert(buffer_views(group_buffers@) =~= before.push((name@, Seq::empty())));
                assert(texts(names@) =~= rest.drop_first());
                assert(before.push((name@, Seq::empty())) + empty_buffers(rest.drop_first())
                    =~= before + empty_buffers(rest));
            }
        }
        proof {
            assert(buffer_views(group_buffers@) + empty_buffers(texts(names@)) =~= buffer_views(
                group_buffers@,
            ));
        }
        let transformers = compile_rules(transformations);
        let current_group = split.default.clone();
        let pending: Vec<XmlEvent> = Vec::new();
        proof {
            assert(event_views(pending@) =~= Seq::empty());
        }
        Rewriter {
            split_path,
            filter,
            split,
            current_path: PathTracker::new(),
            pending,
            included: true,
            keep: true,
            current_group,
            group_buffers,
            transformers,
            warnings: Vec::new(),
        }
    }

    /// Lets every rule take note of `text` at `path`; a rule that rewrites the text puts its
    /// value in place of the last pending event.
    fn apply_rules(&mut self, path: &String, text: &String) -> (ending: Option<Ending>)
        ensures
            (final(self).state(), ending_view(ending)) == after_rules(
                old(self).state(),
                path@,
                text@,
                old(self).state().rules.len(),
            ),
            final(self).setup() == old(self).setup(),
    {
        let mut i: usize = 0;
        while i < self.transformers.len()
            invariant
                i <= self.transformers.len(),
                self.transformers.len() == old(self).transformers.len(),
                self.setup() == old(self).setup(),
                (self.state(), None::<EndingView>) == after_rules(
                    old(self).state(),
                    path@,
                    text@,
                    i as nat,
                ),
            decreases self.transformers.len() - i,
        {
            let ghost before = self.state();
            let ghost rules = self.transformers@;
            let outcome = self.transformers[i].check_value(path, text);
            proof {
                assert(rule_states(self.transformers@) =~= before.rules.update(
                    i as int,
                    self.transformers@[i as int]@,
                ));
            }
            match outcome {
                Err(message) => {
                    proof {
                        lemma_after_rules_stops(
                            old(self).state(),
                            path@,
                            text@,
                            (i + 1) as nat,
                            old(self).state().rules.len(),
                        );
                    }
                    return Some(Ending::EvaluationFailure(message));
                },
                Ok(warning) => {
                    match warning {
                        Some(w) => {
                            self.warnings.push(w);
                        },
                        None => {},
                    }
                    let transformer = &self.transformers[i];
                    if transformer.transformation.target == *path
                        && transformer.transformation.nodes.len() == 0
                        && transformer.precondition() {
                        let replacement = text_event_of(&transformer.value_transformed);
                        let ghost pending = self.pending@;
                        let _ = self.pending.pop();
                        let ghost kept = self.pending@;
                        self.pending.push(replacement);
                        proof {
                            lemma_event_views_push(kept, replacement);
                            if pending.len() > 0 {
                                assert(event_views(kept) =~= event_views(pending).drop_last());
                            } else {
                                assert(event_views(kept) =~= event_views(pending));
                            }
                        }
                    }
                },
            }
            i += 1;
        }
        None
    }

    /// Takes one event, and says why the run ends with it, if it does.
    pub fn step(&mut self, event: XmlEvent) -> (ending: Option<Ending>)
        ensures
            (final(self).state(), ending_view(ending)) == step(
                old(self).setup(),
                old(self).state(),
                event@,
            ),
            final(self).setup() == old(self).setup(),
    {
        match event.kind {
            EventKind::Eof => Some(Ending::EndOfDocument),
            EventKind::Failure => Some(Ending::ReaderFailure),
            EventKind::Declaration => {
                if self.split.declaration {
                    broadcast_to(&mut self.group_buffers, &event);
                }
                None
            },
            EventKind::Start => self.start(event),
            EventKind::Text => self.text(event),
            EventKind::End => {
                self.end(event);
                None
            },
            _ => {
                if self.keep {
                    self.place(event);
                }
                None
            },
        }
    }

    /// Puts the event into every group above the split element, else among the pending
    /// events.
    fn place(&mut self, event: XmlEvent)
        ensures
            final(self).state() == crate::rewriter::placed(
                old(self).setup(),
                old(self).state(),
                event@,
            ),
            final(self).setup() == old(self).setup(),
    {
        if self.current_path.is_strict_ancestor_of(&self.split_path) {
            broadcast_to(&mut self.group_buffers, &event);
        } else {
            proof {
                lemma_event_views_push(self.pending@, event);
            }
            self.pending.push(event);
        }
    }

    fn start(&mut self, event: XmlEvent) -> (ending: Option<Ending>)
        requires
            event.kind == EventKind::Start,
        ensures
            (final(self).state(), ending_view(ending)) == crate::rewriter::on_start(
                old(self).setup(),
                old(self).state(),
                event@,
            ),
            final(self).setup() == old(self).setup(),
    {
        let name_bytes = event.name();
        match text_of_bytes(&name_bytes) {
            None => Some(Ending::MalformedName),
            Some(name) => {
                self.current_path.push(name);
                let path = self.current_path.as_string();
                if self.keep && has_elision(&self.transformers, &path) {
                    self.keep = false;
                }
                let entering = self.keep && self.current_path.equals(&self.split_path);
                if entering {
                    renew_all(&mut self.transformers);
                }
                mark_all(&mut self.transformers, &path);
                if !self.keep {
                    return None;
                }
                if entering {
                    proof {
                        lemma_event_views_push(self.pending@, event);
                    }
                    self.pending.push(event);
                    self.included = true;
                    self.current_group = self.split.default.clone();
                } else {
                    self.place(event);
                }
                None
            },
        }
    }

    fn text(&mut self, event: XmlEvent) -> (ending: Option<Ending>)
        requires
            event.kind == EventKind::Text,
        ensures
            (final(self).state(), ending_view(ending)) == crate::rewriter::on_text(
                old(self).setup(),
                old(self).state(),
                event@,
            ),
            final(self).setup() == old(self).setup(),
    {
        if is_line_break_text(&event.content) || !self.keep {
            return None;
        }
        match plain_text_of(&event.content) {
            None => Some(Ending::MalformedText),
            Some(text) => {
                let path = self.current_path.as_string();
                let group = self.split.select(&path, &text, &self.current_group).clone();
                self.current_group = group;
                let passed = self.filter.passes(&path, &text);
                self.included = self.included && passed;
                if self.current_path.is_strict_ancestor_of(&self.split_path) {
                    broadcast_to(&mut self.group_buffers, &event);
                    None
                } else {
                    proof {
                        lemma_event_views_push(self.pending@, event);
                    }
                    self.pending.push(event);
                    self.apply_rules(&path, &text)
                }
            },
        }
    }

    fn end(&mut self, event: XmlEvent)
        requires
            event.kind == EventKind::End,
        ensures
            final(self).state() == crate::rewriter::on_end(
                old(self).setup(),
                old(self).state(),
                event@,
            ),
            final(self).setup() == old(self).setup(),
    {
        let path = self.current_path.as_string();
        if !self.keep {
            self.keep = has_target(&self.transformers, &path);
            self.current_path.pop();
        } else if self.current_path.is_strict_ancestor_of(&self.split_path) {
            broadcast_to(&mut self.group_buffers, &event);
            self.current_path.pop();
        } else {
            add_wraps(&mut self.pending, &self.transformers, &path, Side::Before);
            proof {
                lemma_event_views_push(self.pending@, event);
            }
            self.pending.push(event);
            add_wraps(&mut self.pending, &self.transformers, &path, Side::After);
            release_at(&mut self.transformers, &path);
            if self.current_path.equals(&self.split_path) {
                if !self.included {
                    self.current_group = self.filter.residue.clone();
                }
                route(&mut self.group_buffers, &self.current_group, &mut self.pending);
                proof {
                    assert(event_views(self.pending@) =~= Seq::empty());
                }
            }
            self.current_path.pop();
        }
    }

    /// What the run gave.
    pub fn finish(self, ending: Ending) -> (outcome: Outcome)
        ensures
            buffer_views(outcome.groups@) == self.state().buffers,
            outcome.warnings@ == self.state().warnings,
            outcome.ending == ending,
    {
        Outcome { groups: self.group_buffers, ending, warnings: self.warnings }
    }
}

/// Whether an outcome is what a run gives.
pub open spec fn is_outcome_of(outcome: Outcome, result: (RewriterState, EndingView)) -> bool {
    &&& buffer_views(outcome.groups@) == result.0.buffers
    &&& outcome.warnings@ == result.0.warnings
    &&& outcome.ending@ == result.1
}

/// Rewrites a list of events: the rewriter takes them one by one, from its first state,
/// until one of them ends the run.
pub fn rewrite_events(events: &Vec<XmlEvent>, config: Config) -> (outcome: Outcome)
    ensures
        is_outcome_of(
            outcome,
            run(
                setup_of(config),
                initial(setup_of(config), config.transformations@),
                event_views(events@),
            ),
        ),
{
    let mut rewriter = Rewriter::new(config);
    let ghost setup = setup_of(config);
    let ghost first = rewriter.state();
    let mut i: usize = 0;
    proof {
        assert(event_views(events@).skip(0) =~= event_views(events@));
    }
    while i < events.len()
        invariant
            i <= events.len(),
            rewriter.setup() == setup,
            setup == setup_of(config),
            first == initial(setup, config.transformations@),
            run(setup, first, event_views(events@)) == run(
                setup,
                rewriter.state(),
                event_views(events@).skip(i as int),
            ),
        decreases events.len() - i,
    {
        proof {
            let rest = event_views(events@).skip(i as int);
            assert(rest[0] == events@[i as int]@);
            assert(rest.drop_first() =~= event_views(events@).skip(i + 1));
        }
        let ghost before = rewriter.state();
        match rewriter.step(events[i].duplicate()) {
            Some(ending) => {
                proof {
                    let rest = event_views(events@).skip(i as int);
                    assert(step(setup, before, rest[0]) == (rewriter.state(), Some(ending@)));
                    assert(run(setup, before, rest) == (rewriter.state(), ending@));
                }
                return rewriter.finish(ending);
            },
            None => {
                proof {
                    let rest = event_views(events@).skip(i as int);
                    assert(step(setup, before, rest[0]) == (rewriter.state(), None::<EndingView>));
                    assert(run(setup, before, rest) == run(
                        setup,
                        rewriter.state(),
                        rest.drop_first(),
                    ));
                }
            },
        }
        i += 1;
    }
    proof {
        assert(event_views(events@).skip(events.len() as int).len() == 0);
    }
    rewriter.finish(Ending::Unfinished)
}

/// The place of the first rule with a key under `nodes` that is neither `insert` nor
/// `append`.
pub open spec fn first_invalid(transformations: Seq<Transformation>) -> Option<int> {
    if exists|i: int| is_first_invalid(transformations, i) {
        Some(choose|i: int| is_first_invalid(transformations, i))
    } else {
        None
    }
}

/// The rule at `index` has invalid nodes, and no rule before it has.
pub open spec fn is_first_invalid(transformations: Seq<Transformation>, index: int) -> bool {
    &&& 0 <= index < transformations.len()
    &&& !nodes_are_valid(transformations[index])
    &&& forall|j: int| 0 <= j < index ==> nodes_are_valid(#[trigger] transformations[j])
}

/// Looks for a rule with invalid nodes.
pub fn check_rules(transformations: &Vec<Transformation>) -> (result: Result<(), ConfigError>)
    ensures
        match result {
            Ok(_) => first_invalid(transformations@) is None,
            Err(ConfigError::InvalidNodes(i)) => first_invalid(transformations@) == Some(i as int),
        },
{
    let mut i: usize = 0;
    while i < transformations.len()
        invariant
            i <= transformations.len(),
            forall|j: int| 0 <= j < i ==> nodes_are_valid(#[trigger] transformations@[j]),
        decreases transformations.len() - i,
    {
        if !transformations[i].has_valid_nodes() {
            proof {
                assert(is_first_invalid(transformations@, i as int));
                let chosen = choose|k: int| is_first_invalid(transformations@, k);
                assert(chosen == i) by {
                    if chosen < i {
                        assert(nodes_are_valid(transformations@[chosen]));
                    }
                    if i < chosen {
                        assert(nodes_are_valid(transformations@[i as int]));
                    }
                }
            }
            return Err(ConfigError::InvalidNodes(i));
        }
        i += 1;
    }
    Ok(())
}

/// Rewrites a document: reads its events one by one and hands each to the rewriter, until
/// one of them ends the run. A configuration with an invalid rule is refused before
/// anything is read.
pub fn transform(input: &[u8], config: Config) -> (result: Result<Outcome, ConfigError>)
    ensures
        match result {
            Ok(outcome) => first_invalid(config.transformations@) is None && is_outcome_of(
                outcome,
                run(
                    setup_of(config),
                    initial(setup_of(config), config.transformations@),
                    document_events(input@),
                ),
            ),
            Err(ConfigError::InvalidNodes(i)) => first_invalid(config.transformations@) == Some(
                i as int,
            ),
        },
{
    match check_rules(&config.transformations) {
        Err(error) => {
            return Err(error);
        },
        Ok(_) => {},
    }
    let mut reader = open_reader(input);
    let mut rewriter = Rewriter::new(config);
    let ghost setup = setup_of(config);
    let ghost first = rewriter.state();
    loop
        invariant
            rewriter.setup() == setup,
            setup == setup_of(config),
            first == initial(setup, config.transformations@),
            first_invalid(config.transformations@) is None,
            run(setup, first, document_events(input@)) == run(
                setup,
                rewriter.state(),
                pending_events(reader),
            ),
        decreases pending_events(reader).len(),
    {
        let ghost before = rewriter.state();
        let ghost rest = pending_events(reader);
        let event = read_next(&mut reader);
        let ghost read = event@;
        match rewriter.step(event) {
            Some(ending) => {
                proof {
                    assert(step(setup, before, rest[0]) == (rewriter.state(), Some(ending@)));
                    assert(run(setup, before, rest) == (rewriter.state(), ending@));
                }
                return Ok(rewriter.finish(ending));
            },
            None => {
                proof {
                    assert(step(setup, before, rest[0]) == (rewriter.state(), None::<EndingView>));
                    assert(run(setup, before, rest) == run(
                        setup,
                        rewriter.state(),
                        rest.drop_first(),
                    ));
                    assert(!crate::event::is_terminal(read.kind));
                }
            },
        }
    }
}

} // verus!
