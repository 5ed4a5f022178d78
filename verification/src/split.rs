//! The grouping: which group a split element goes to, by the text found at a configured path.
use vstd::prelude::*;
use crate::sets::distinct;
use crate::table::{find_key, find_text, index_of, keys, lemma_index_of, occurs};
use crate::text::texts;

verus! {

/// How the document is split into groups.
#[derive(Clone, Debug)]
pub struct Split {
    /// Whether the XML declaration is copied into every group.
    pub declaration: bool,
    /// The group of a split element that no grouping text names.
    pub default: String,
    /// By path, the group that each text selects.
    pub grouping: Vec<(String, Vec<(String, String)>)>,
}

/// The group after a text was seen at `path`: where the grouping has an entry for the
/// path, the group that it gives to the text, or the default group; else the group as it was.
pub open spec fn selected_group(
    split: Split,
    path: Seq<char>,
    text: Seq<char>,
    current: Seq<char>,
) -> Seq<char> {
    match index_of(keys(split.grouping@), path) {
        Some(i) => {
            let choices = split.grouping@[i].1@;
            match index_of(keys(choices), text) {
                Some(j) => choices[j].1@,
                None => split.default@,
            }
        },
        None => current,
    }
}

/// The items without those that stood in the list before.
pub open spec fn deduplicated(items: Seq<Seq<char>>) -> Seq<Seq<char>>
    decreases items.len(),
{
    if items.len() == 0 {
        Seq::empty()
    } else {
        let before = deduplicated(items.drop_last());
        if occurs(before, items.last()) {
            before
        } else {
            before.push(items.last())
        }
    }
}

/// The groups that the texts of one path select.
pub open spec fn choice_groups(choices: Seq<(String, String)>) -> Seq<Seq<char>> {
    Seq::new(choices.len(), |j: int| choices[j].1@)
}

/// The groups that the grouping names, path after path.
pub open spec fn grouping_groups(grouping: Seq<(String, Vec<(String, String)>)>) -> Seq<Seq<char>>
    decreases grouping.len(),
{
    if grouping.len() == 0 {
        Seq::empty()
    } else {
        grouping_groups(grouping.drop_last()) + choice_groups(grouping.last().1@)
    }
}

/// Every group that a split element can go to: the groups of the grouping, then the residue
/// group and the default group, each named once.
pub open spec fn group_universe(split: Split, residue: Seq<char>) -> Seq<Seq<char>> {
    deduplicated(grouping_groups(split.grouping@).push(residue).push(split.default@))
}

/// `deduplicated` names every item, and each once.
pub proof fn lemma_deduplicated(items: Seq<Seq<char>>)
    ensures
        distinct(deduplicated(items)),
        forall|item: Seq<char>| occurs(deduplicated(items), item) <==> occurs(items, item),
    decreases items.len(),
{
    if items.len() > 0 {
        let shorter = items.drop_last();
        let before = deduplicated(shorter);
        let after = deduplicated(items);
        lemma_deduplicated(shorter);
        lemma_index_of(before, items.last());
        assert forall|item: Seq<char>| occurs(after, item) <==> occurs(items, item) by {
            lemma_index_of(after, item);
            lemma_index_of(items, item);
            lemma_index_of(before, item);
            lemma_index_of(shorter, item);
            assert(occurs(before, item) <==> occurs(shorter, item));
            if occurs(items, item) {
                let i = index_of(items, item)->0;
                if i < shorter.len() {
                    assert(shorter[i] == item);
                } else {
                    assert(item == items.last());
                }
            }
            if occurs(shorter, item) {
                let i = index_of(shorter, item)->0;
                assert(items[i] == item);
            }
            if occurs(before, item) {
                let i = index_of(before, item)->0;
                if !occurs(before, items.last()) {
                    assert(after[i] == item);
                }
            }
            if occurs(after, item) && !occurs(before, items.last()) {
                let i = index_of(after, item)->0;
                if i < before.len() {
                    assert(before[i] == item);
                }
            }
            if item == items.last() {
                assert(items[items.len() - 1] == item);
                if !occurs(before, items.last()) {
                    assert(after[after.len() - 1] == item);
                }
            }
        }
    }
}

impl Split {
    /// The group after `text` was seen at `path`.
    pub fn select<'a>(&'a self, path: &String, text: &String, current: &'a String) -> (group:
        &'a String)
        ensures
            group@ == selected_group(*self, path@, text@, current@),
    {
        match find_key(&self.grouping, path) {
            Some(i) => {
                let choices = &self.grouping[i].1;
                match find_key(choices, text) {
                    Some(j) => &choices[j].1,
                    None => &self.default,
                }
            },
            None => current,
        }
    }

    /// Every group that a split element can go to, each named once.
    pub fn groups(&self, residue: &String) -> (names: Vec<String>)
        ensures
            texts(names@) == group_universe(*self, residue@),
    {
        let mut names: Vec<String> = Vec::new();
        let ghost mut seen: Seq<Seq<char>> = Seq::empty();
        let mut i: usize = 0;
        proof {
            assert(self.grouping@.take(0) =~= Seq::empty());
            assert(texts(names@) =~= Seq::<Seq<char>>::empty());
        }
        while i < self.grouping.len()
            invariant
                i <= self.grouping.len(),
                seen == grouping_groups(self.grouping@.take(i as int)),
                texts(names@) == deduplicated(seen),
            decreases self.grouping.len() - i,
        {
            let choices = &self.grouping[i].1;
            let ghost start = seen;
            let mut j: usize = 0;
            proof {
                assert(choice_groups(choices@).take(0) =~= Seq::<Seq<char>>::empty());
                assert(start + Seq::<Seq<char>>::empty() =~= start);
            }
            while j < choices.len()
                invariant
                    j <= choices.len(),
                    seen == start + choice_groups(choices@).take(j as int),
                    texts(names@) == deduplicated(seen),
                decreases choices.len() - j,
            {
                add_group(&mut names, &choices[j].1, Ghost(seen));
                proof {
                    seen = seen.push(choices@[j as int].1@);
                    assert(seen =~= start + choice_groups(choices@).take(j + 1));
                }
                j += 1;
            }
            proof {
                assert(choice_groups(choices@).take(choices.len() as int) =~= choice_groups(
                    choices@,
                ));
                assert(self.grouping@.take(i + 1).drop_last() =~= self.grouping@.take(i as int));
                assert(self.grouping@.take(i + 1).last() == self.grouping@[i as int]);
            }
            i += 1;
        }
        proof {
            assert(self.grouping@.take(self.grouping.len() as int) =~= self.grouping@);
        }
        add_group(&mut names, residue, Ghost(seen));
        add_group(&mut names, &self.default, Ghost(seen.push(residue@)));
        names
    }
}

/// Adds a group to the names, unless it is among them.
fn add_group(names: &mut Vec<String>, group: &String, Ghost(seen): Ghost<Seq<Seq<char>>>)
    requires
        texts(old(names)@) == deduplicated(seen),
    ensures
        texts(final(names)@) == deduplicated(seen.push(group@)),
{
    proof {
        assert(seen.push(group@).drop_last() =~= seen);
    }
    if find_text(names, group).is_none() {
        let ghost before = texts(names@);
        names.push(group.clone());
        proof {
            assert(texts(names@) =~= before.push(group@));
        }
    }
}

} // verus!
