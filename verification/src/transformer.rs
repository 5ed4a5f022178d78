//! Transformation rules and their state while a document is read.
use vstd::prelude::*;
use crate::expression::{evaluate_text, evaluated, Warning};
use crate::table::{
    find_key, firsts, keys, lemma_keys_of_pairs, listed, lookup, occurs, pairs, set_default,
    set_value, value_of, with_default, with_value,
};
use crate::text::texts;

verus! {

/// Where the variables of a rule's expression get their values.
#[derive(Clone, Debug)]
pub struct Source {
    /// By variable, the path whose text it captures.
    pub datafields: Vec<(String, String)>,
    /// By variable, its fixed value.
    pub literals: Vec<(String, String)>,
}

/// One rule, as configured.
#[derive(Clone, Debug)]
pub struct Transformation {
    /// The path at which the rule acts.
    pub target: String,
    /// Whether the subtree at `target` stays in the output.
    pub keep: bool,
    /// The expression over the variables, or the literal value where there are none.
    pub value: String,
    /// Under `insert` or `append`, the path of the elements that wrap the value.
    pub nodes: Vec<(String, String)>,
    pub source: Source,
    /// Formatting options; `decimal_places` is the one that is read.
    pub parameters: Vec<(String, String)>,
    /// Under `missing` and `existing`, the paths that must not, or must, have been seen.
    pub preconditions: Vec<(String, Vec<String>)>,
}

/// Where the wrapped value of a rule stands: before the end tag of the target, inside the
/// element, or after it.
#[derive(Clone, Copy, Debug, PartialEq, Eq, Structural)]
pub enum Side {
    Before,
    After,
}

/// The state of one rule while a document is read.
#[derive(Clone, Debug)]
pub struct Transformer {
    pub transformation: Transformation,
    /// The values that the variables have so far.
    pub parameters: Vec<(String, String)>,
    pub value_computed: bool,
    /// The value that the rule writes: of a rule without variables its `value`, of another
    /// the last result of its expression.
    pub value_transformed: String,
    /// The paths that must not be seen, each with `true` until it was seen.
    pub missing: Vec<(String, bool)>,
    /// The paths that must be seen, each with `false` until it was seen.
    pub existing: Vec<(String, bool)>,
}

/// The state of a rule as a mathematical value.
pub struct RuleState {
    pub rule: Transformation,
    pub parameters: Seq<(Seq<char>, Seq<char>)>,
    pub value_computed: bool,
    pub value_transformed: Seq<char>,
    pub missing: Seq<(Seq<char>, bool)>,
    pub existing: Seq<(Seq<char>, bool)>,
}

/// The views of a list of flagged paths.
pub open spec fn flag_views(flags: Seq<(String, bool)>) -> Seq<(Seq<char>, bool)> {
    Seq::new(flags.len(), |i: int| (flags[i].0@, flags[i].1))
}

impl View for Transformer {
    type V = RuleState;

    open spec fn view(&self) -> RuleState {
        RuleState {
            rule: self.transformation,
            parameters: pairs(self.parameters@),
            value_computed: self.value_computed,
            value_transformed: self.value_transformed@,
            missing: flag_views(self.missing@),
            existing: flag_views(self.existing@),
        }
    }
}

/// The views of a list of rules' states.
pub open spec fn rule_states(transformers: Seq<Transformer>) -> Seq<RuleState> {
    Seq::new(transformers.len(), |i: int| transformers[i]@)
}

/// Each path with the same flag.
pub open spec fn flagged(paths: Seq<Seq<char>>, value: bool) -> Seq<(Seq<char>, bool)> {
    Seq::new(paths.len(), |i: int| (paths[i], value))
}

/// The flags with that of `path` set to `value`.
pub open spec fn with_flag(flags: Seq<(Seq<char>, bool)>, path: Seq<char>, value: bool) -> Seq<
    (Seq<char>, bool),
> {
    Seq::new(
        flags.len(),
        |i: int|
            if flags[i].0 == path {
                (flags[i].0, value)
            } else {
                flags[i]
            },
    )
}

/// The flags all set to `value`.
pub open spec fn all_flags(flags: Seq<(Seq<char>, bool)>, value: bool) -> Seq<(Seq<char>, bool)> {
    Seq::new(flags.len(), |i: int| (flags[i].0, value))
}

/// Whether every flag is set.
pub open spec fn every_flag(flags: Seq<(Seq<char>, bool)>) -> bool {
    forall|i: int| 0 <= i < flags.len() ==> (#[trigger] flags[i]).1
}

/// Whether a rule has no variables, so that its value is written as it stands.
pub open spec fn is_literal(rule: Transformation) -> bool {
    rule.source.datafields@.len() == 0 && rule.source.literals@.len() == 0
}

/// The key under `nodes` for a wrap on the given side of the end tag.
pub open spec fn side_key(side: Side) -> Seq<char> {
    match side {
        Side::Before => "insert"@,
        Side::After => "append"@,
    }
}

/// The path of the elements that wrap the value on the given side of the target's end tag.
pub open spec fn wrap_path(rule: Transformation, side: Side) -> Option<Seq<char>> {
    value_of(pairs(rule.nodes@), side_key(side))
}

/// The `decimal_places` option of a rule.
pub open spec fn decimal_places(rule: Transformation) -> Option<Seq<char>> {
    value_of(pairs(rule.parameters@), "decimal_places"@)
}

/// Whether every key under `nodes` is `insert` or `append`.
pub open spec fn nodes_are_valid(rule: Transformation) -> bool {
    forall|i: int|
        0 <= i < rule.nodes@.len() ==> (#[trigger] keys(rule.nodes@)[i] == "insert"@ || keys(
            rule.nodes@,
        )[i] == "append"@)
}

/// The state of a rule before anything was read: no variable has a value, no path was seen,
/// and a rule without variables has its value already.
pub open spec fn initial_state(rule: Transformation) -> RuleState {
    RuleState {
        rule,
        parameters: Seq::empty(),
        value_computed: is_literal(rule),
        value_transformed: if is_literal(rule) {
            rule.value@
        } else {
            Seq::empty()
        },
        missing: flagged(listed(rule.preconditions@, "missing"@), true),
        existing: flagged(listed(rule.preconditions@, "existing"@), false),
    }
}

/// The state after an element was opened at `path`.
pub open spec fn seen(state: RuleState, path: Seq<char>) -> RuleState {
    RuleState {
        missing: with_flag(state.missing, path, false),
        existing: with_flag(state.existing, path, true),
        ..state
    }
}

/// Whether the preconditions of the rule hold: none of its `missing` paths was seen, and
/// each of its `existing` paths was.
pub open spec fn precondition_holds(state: RuleState) -> bool {
    every_flag(state.missing) && every_flag(state.existing)
}

/// The state with the preconditions as at the start: nothing seen.
pub open spec fn released(state: RuleState) -> RuleState {
    RuleState {
        missing: all_flags(state.missing, true),
        existing: all_flags(state.existing, false),
        ..state
    }
}

/// The values of the variables after the literals were added that have none yet.
pub open spec fn with_literals(
    parameters: Seq<(Seq<char>, Seq<char>)>,
    literals: Seq<(Seq<char>, Seq<char>)>,
) -> Seq<(Seq<char>, Seq<char>)>
    decreases literals.len(),
{
    if literals.len() == 0 {
        parameters
    } else {
        with_default(
            with_literals(parameters, literals.drop_last()),
            literals.last().0,
            literals.last().1,
        )
    }
}

/// The values of the variables after each variable that is captured at `path` took `text`.
pub open spec fn with_captures(
    parameters: Seq<(Seq<char>, Seq<char>)>,
    datafields: Seq<(Seq<char>, Seq<char>)>,
    path: Seq<char>,
    text: Seq<char>,
) -> Seq<(Seq<char>, Seq<char>)>
    decreases datafields.len(),
{
    if datafields.len() == 0 {
        parameters
    } else {
        let before = with_captures(parameters, datafields.drop_last(), path, text);
        if datafields.last().1 == path {
            with_value(before, datafields.last().0, text)
        } else {
            before
        }
    }
}

/// Whether every variable of the list has a value.
pub open spec fn all_present(
    parameters: Seq<(Seq<char>, Seq<char>)>,
    variables: Seq<(Seq<char>, Seq<char>)>,
) -> bool {
    forall|i: int|
        0 <= i < variables.len() ==> occurs(firsts(parameters), (#[trigger] variables[i]).0)
}

/// Whether every variable of the rule has a value: the expression can be evaluated.
pub open spec fn is_complete(rule: Transformation, parameters: Seq<(Seq<char>, Seq<char>)>)
    -> bool {
    all_present(parameters, pairs(rule.source.literals@)) && all_present(
        parameters,
        pairs(rule.source.datafields@),
    )
}

/// The state after the rule's expression was evaluated over the values that the
/// variables have, with the warning that it gave; after an error the state as it was, with
/// the message.
pub open spec fn evaluation(state: RuleState) -> (RuleState, Result<Option<Warning>, Seq<char>>) {
    match evaluated(state.rule.value@, state.parameters, decimal_places(state.rule)) {
        Ok((text, warning)) => (RuleState { value_transformed: text, ..state }, Ok(warning)),
        Err(message) => (state, Err(message)),
    }
}

/// The state after `text` was seen at `path`. A rule without variables has its value as it
/// stands. Any other takes its literals, captures the text where `path` is the path of a
/// variable, and is evaluated once every variable has a value.
pub open spec fn checked(state: RuleState, path: Seq<char>, text: Seq<char>) -> (
    RuleState,
    Result<Option<Warning>, Seq<char>>,
) {
    if is_literal(state.rule) {
        (
            RuleState { value_transformed: state.rule.value@, value_computed: true, ..state },
            Ok(None),
        )
    } else {
        let parameters = with_captures(
            with_literals(state.parameters, pairs(state.rule.source.literals@)),
            pairs(state.rule.source.datafields@),
            path,
            text,
        );
        let next = RuleState { parameters, ..state };
        if is_complete(state.rule, parameters) {
            evaluation(next)
        } else {
            (next, Ok(None))
        }
    }
}

/// The outcome of a step of a rule, as a mathematical value.
pub open spec fn outcome_view(outcome: Result<Option<Warning>, String>) -> Result<
    Option<Warning>,
    Seq<char>,
> {
    match outcome {
        Ok(warning) => Ok(warning),
        Err(message) => Err(message@),
    }
}

/// Builds the flags of a list of paths.
fn flags_of(table: &Vec<(String, Vec<String>)>, key: &str, value: bool) -> (flags: Vec<
    (String, bool),
>)
    ensures
        flag_views(flags@) == flagged(listed(table@, key@), value),
{
    let mut flags: Vec<(String, bool)> = Vec::new();
    let key = key.to_owned();
    match find_key(table, &key) {
        Some(k) => {
            let paths = &table[k].1;
            let mut i: usize = 0;
            while i < paths.len()
                invariant
                    i <= paths.len(),
                    flags.len() == i,
                    forall|j: int| 0 <= j < i ==> flags@[j] == (paths@[j], value),
                decreases paths.len() - i,
            {
                flags.push((paths[i].clone(), value));
                i += 1;
            }
            proof {
                assert(flag_views(flags@) =~= flagged(texts(paths@), value));
            }
        },
        None => {
            proof {
                assert(flag_views(flags@) =~= flagged(Seq::empty(), value));
            }
        },
    }
    flags
}

/// Sets the flag of `path`.
fn set_flag(flags: &mut Vec<(String, bool)>, path: &String, value: bool)
    ensures
        flag_views(final(flags)@) == with_flag(flag_views(old(flags)@), path@, value),
{
    let mut i: usize = 0;
    while i < flags.len()
        invariant
            i <= flags.len(),
            flags.len() == old(flags).len(),
            forall|j: int| 0 <= j < flags.len() ==> (#[trigger] flags@[j]).0 == old(flags)@[j].0,
            forall|j: int|
                0 <= j < i ==> (#[trigger] flags@[j]).1 == if old(flags)@[j].0@ == path@ {
                    value
                } else {
                    old(flags)@[j].1
                },
            forall|j: int| i <= j < flags.len() ==> flags@[j] == old(flags)@[j],
        decreases flags.len() - i,
    {
        if flags[i].0 == *path {
            flags[i].1 = value;
        }
        i += 1;
    }
    proof {
        assert(flag_views(flags@) =~= with_flag(flag_views(old(flags)@), path@, value));
    }
}

/// Sets every flag.
fn set_all_flags(flags: &mut Vec<(String, bool)>, value: bool)
    ensures
        flag_views(final(flags)@) == all_flags(flag_views(old(flags)@), value),
{
    let mut i: usize = 0;
    while i < flags.len()
        invariant
            i <= flags.len(),
            flags.len() == old(flags).len(),
            forall|j: int| 0 <= j < i ==> flags@[j] == (old(flags)@[j].0, value),
            forall|j: int| i <= j < flags.len() ==> flags@[j] == old(flags)@[j],
        decreases flags.len() - i,
    {
        flags[i].1 = value;
        i += 1;
    }
    proof {
        assert(flag_views(flags@) =~= all_flags(flag_views(old(flags)@), value));
    }
}

/// Whether every flag is set.
fn flags_hold(flags: &Vec<(String, bool)>) -> (held: bool)
    ensures
        held == every_flag(flag_views(flags@)),
{
    let mut i: usize = 0;
    while i < flags.len()
        invariant
            i <= flags.len(),
            forall|j: int| 0 <= j < i ==> (#[trigger] flag_views(flags@)[j]).1,
        decreases flags.len() - i,
    {
        if !flags[i].1 {
            proof {
                assert(!flag_views(flags@)[i as int].1);
            }
            return false;
        }
        i += 1;
    }
    true
}

/// Whether every variable of the list has a value.
fn present(parameters: &Vec<(String, String)>, variables: &Vec<(String, String)>) -> (all: bool)
    ensures
        all == all_present(pairs(parameters@), pairs(variables@)),
{
    proof {
        lemma_keys_of_pairs(parameters@);
    }
    let mut i: usize = 0;
    while i < variables.len()
        invariant
            i <= variables.len(),
            firsts(pairs(parameters@)) == keys(parameters@),
            forall|j: int|
                0 <= j < i ==> occurs(
                    firsts(pairs(parameters@)),
                    (#[trigger] pairs(variables@)[j]).0,
                ),
        decreases variables.len() - i,
    {
        if find_key(parameters, &variables[i].0).is_none() {
            proof {
                assert(!occurs(firsts(pairs(parameters@)), pairs(variables@)[i as int].0));
            }
            return false;
        }
        i += 1;
    }
    true
}

impl Transformation {
    /// The path of the elements that wrap the value on the given side of the target's end
    /// tag.
    pub fn wrap_path(&self, side: Side) -> (path: Option<&String>)
        ensures
            match path {
                Some(p) => wrap_path(*self, side) == Some(p@),
                None => wrap_path(*self, side) is None,
            },
    {
        match side {
            Side::Before => lookup(&self.nodes, &"insert".to_owned()),
            Side::After => lookup(&self.nodes, &"append".to_owned()),
        }
    }

    /// Whether every key under `nodes` is `insert` or `append`.
    pub fn has_valid_nodes(&self) -> (valid: bool)
        ensures
            valid == nodes_are_valid(*self),
    {
        let insert = "insert".to_owned();
        let append = "append".to_owned();
        let mut i: usize = 0;
        while i < self.nodes.len()
            invariant
                i <= self.nodes.len(),
                insert@ == "insert"@,
                append@ == "append"@,
                forall|j: int|
                    0 <= j < i ==> (#[trigger] keys(self.nodes@)[j] == "insert"@ || keys(
                        self.nodes@,
                    )[j] == "append"@),
            decreases self.nodes.len() - i,
        {
            if self.nodes[i].0 != insert && self.nodes[i].0 != append {
                proof {
                    assert(keys(self.nodes@)[i as int] != "insert"@);
                    assert(keys(self.nodes@)[i as int] != "append"@);
                }
                return false;
            }
            i += 1;
        }
        true
    }
}

impl Transformer {
    /// The state of a rule before anything was read.
    pub fn new(transformation: Transformation) -> (transformer: Transformer)
        ensures
            transformer@ == initial_state(transformation),
    {
        let literal = transformation.source.datafields.len() == 0
            && transformation.source.literals.len() == 0;
        let value_transformed = if literal {
            transformation.value.clone()
        } else {
            String::new()
        };
        let missing = flags_of(&transformation.preconditions, "missing", true);
        let existing = flags_of(&transformation.preconditions, "existing", false);
        let transformer = Transformer {
            transformation,
            parameters: Vec::new(),
            value_computed: literal,
            value_transformed,
            missing,
            existing,
        };
        proof {
            assert(pairs(transformer.parameters@) =~= Seq::empty());
        }
        transformer
    }

    /// Takes note that an element was opened at `path`.
    pub fn mark_seen(&mut self, path: &String)
        ensures
            final(self)@ == seen(old(self)@, path@),
    {
        set_flag(&mut self.missing, path, false);
        set_flag(&mut self.existing, path, true);
    }

    /// Whether the preconditions of the rule hold.
    pub fn precondition(&self) -> (holds: bool)
        ensures
            holds == precondition_holds(self@),
    {
        flags_hold(&self.missing) && flags_hold(&self.existing)
    }

    /// Forgets which paths were seen.
    pub fn release(&mut self)
        ensures
            final(self)@ == released(old(self)@),
    {
        set_all_flags(&mut self.missing, true);
        set_all_flags(&mut self.existing, false);
    }

    /// Goes back to the state before anything was read.
    pub fn renew(&mut self)
        ensures
            final(self)@ == initial_state(old(self)@.rule),
    {
        let literal = self.transformation.source.datafields.len() == 0
            && self.transformation.source.literals.len() == 0;
        self.parameters = Vec::new();
        self.value_computed = literal;
        self.value_transformed = if literal {
            self.transformation.value.clone()
        } else {
            String::new()
        };
        self.missing = flags_of(&self.transformation.preconditions, "missing", true);
        self.existing = flags_of(&self.transformation.preconditions, "existing", false);
        proof {
            assert(pairs(self.parameters@) =~= Seq::empty());
        }
    }

    /// Evaluates the rule's expression over the values that its variables have, and keeps
    /// the result as the value that the rule writes. The error is the message of the
    /// evaluation; the state is then as it was.
    pub fn eval_expr(&mut self) -> (outcome: Result<Option<Warning>, String>)
        ensures
            (final(self)@, outcome_view(outcome)) == evaluation(old(self)@),
    {
        let places = lookup(&self.transformation.parameters, &"decimal_places".to_owned());
        match evaluate_text(&self.transformation.value, &self.parameters, places) {
            Ok((text, warning)) => {
                self.value_transformed = text;
                Ok(warning)
            },
            Err(message) => Err(message),
        }
    }

    /// Takes note of `text` seen at `current_path_string`: captures it for the variables
    /// of that path and evaluates the expression once every variable has a value.
    pub fn check_value(
        &mut self,
        current_path_string: &String,
        text_from_event: &String,
    ) -> (outcome: Result<Option<Warning>, String>)
        ensures
            (final(self)@, outcome_view(outcome)) == checked(
                old(self)@,
                current_path_string@,
                text_from_event@,
            ),
    {
        if self.transformation.source.datafields.len() == 0
            && self.transformation.source.literals.len() == 0 {
            self.value_transformed = self.transformation.value.clone();
            self.value_computed = true;
            return Ok(None);
        }
        let mut i: usize = 0;
        proof {
            assert(pairs(self.transformation.source.literals@).take(0) =~= Seq::empty());
        }
        while i < self.transformation.source.literals.len()
            invariant
                i <= self.transformation.source.literals.len(),
                self.transformation == old(self).transformation,
                self.value_computed == old(self).value_computed,
                self.value_transformed == old(self).value_transformed,
                self.missing == old(self).missing,
                self.existing == old(self).existing,
                pairs(self.parameters@) == with_literals(
                    pairs(old(self).parameters@),
                    pairs(self.transformation.source.literals@).take(i as int),
                ),
            decreases self.transformation.source.literals.len() - i,
        {
            proof {
                let literals = pairs(self.transformation.source.literals@);
                assert(literals.take(i + 1).drop_last() =~= literals.take(i as int));
                assert(literals.take(i + 1).last() == literals[i as int]);
            }
            set_default(
                &mut self.parameters,
                &self.transformation.source.literals[i].0,
                &self.transformation.source.literals[i].1,
            );
            i += 1;
        }
        let ghost merged = pairs(self.parameters@);
        proof {
            let literals = pairs(self.transformation.source.literals@);
            assert(literals.take(literals.len() as int) =~= literals);
            assert(pairs(self.transformation.source.datafields@).take(0) =~= Seq::empty());
        }
        let mut j: usize = 0;
        while j < self.transformation.source.datafields.len()
            invariant
                j <= self.transformation.source.datafields.len(),
                self.transformation == old(self).transformation,
                self.value_computed == old(self).value_computed,
                self.value_transformed == old(self).value_transformed,
                self.missing == old(self).missing,
                self.existing == old(self).existing,
                pairs(self.parameters@) == with_captures(
                    merged,
                    pairs(self.transformation.source.datafields@).take(j as int),
                    current_path_string@,
                    text_from_event@,
                ),
            decreases self.transformation.source.datafields.len() - j,
        {
            proof {
                let datafields = pairs(self.transformation.source.datafields@);
                assert(datafields.take(j + 1).drop_last() =~= datafields.take(j as int));
                assert(datafields.take(j + 1).last() == datafields[j as int]);
            }
            if self.transformation.source.datafields[j].1 == *current_path_string {
                set_value(
                    &mut self.parameters,
                    &self.transformation.source.datafields[j].0,
                    text_from_event.clone(),
                );
            }
            j += 1;
        }
        proof {
            let datafields = pairs(self.transformation.source.datafields@);
            assert(datafields.take(datafields.len() as int) =~= datafields);
        }
        if present(&self.parameters, &self.transformation.source.literals) && present(
            &self.parameters,
            &self.transformation.source.datafields,
        ) {
            self.eval_expr()
        } else {
            Ok(None)
        }
    }
}

} // verus!
