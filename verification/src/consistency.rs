//! The consistency check: where the filter and the grouping of a configuration disagree.
use vstd::prelude::*;
use vstd::string::*;
use crate::config::Config;
use crate::messages::{compile_warnings, get_msg, message_text, warning_text, warning_texts};
use crate::sets::{
    apart, common, distinct, get_difference, get_intersection, law_apart_distinct,
    law_common_distinct,
};
use crate::split::{deduplicated, lemma_deduplicated};
use crate::table::{find_key, find_text, keys, listed, occurs};
use crate::text::{join_strings, joined, texts};

verus! {

/// The items of both lists, each once.
pub open spec fn united(first: Seq<Seq<char>>, second: Seq<Seq<char>>) -> Seq<Seq<char>> {
    deduplicated(first + second)
}

/// The kinds of disagreement between the grouping and the filter at one path.
#[derive(Clone, Copy, Debug, PartialEq, Eq, Structural)]
pub enum Conflict {
    /// Texts that select a group but are not allowed.
    SplittingWithoutAllowance,
    /// Texts that select a group but are blocked.
    SplittingDespiteBlocking,
    /// Texts that are allowed but select no group.
    AllowanceWithoutSplitting,
}

/// The paths that the allowlist has an entry for.
pub open spec fn allowed_paths(config: Config) -> Seq<Seq<char>> {
    united(keys(config.filter.allowlist.exact@), keys(config.filter.allowlist.regex@))
}

/// The paths that the blocklist has an entry for.
pub open spec fn blocked_paths(config: Config) -> Seq<Seq<char>> {
    united(keys(config.filter.blocklist.exact@), keys(config.filter.blocklist.regex@))
}

/// The paths that both the allowlist and the blocklist have an entry for.
pub open spec fn contested_paths(config: Config) -> Seq<Seq<char>> {
    common(allowed_paths(config), blocked_paths(config))
}

/// The texts in conflict at the path of the grouping's entry `index`, each once.
pub open spec fn conflict_at(config: Config, kind: Conflict, index: int) -> Seq<Seq<char>> {
    let path = keys(config.split.grouping@)[index];
    let splitting = deduplicated(keys(config.split.grouping@[index].1@));
    let exact = deduplicated(listed(config.filter.allowlist.exact@, path));
    let allowed = united(exact, listed(config.filter.allowlist.regex@, path));
    match kind {
        Conflict::SplittingWithoutAllowance => if occurs(allowed_paths(config), path) {
            apart(splitting, allowed)
        } else {
            Seq::empty()
        },
        Conflict::AllowanceWithoutSplitting => if occurs(allowed_paths(config), path) {
            apart(exact, splitting)
        } else {
            Seq::empty()
        },
        Conflict::SplittingDespiteBlocking => if occurs(
            keys(config.filter.blocklist.exact@),
            path,
        ) {
            common(splitting, listed(config.filter.blocklist.exact@, path))
        } else {
            Seq::empty()
        },
    }
}

/// The warnings for the conflicts of one kind among the first `count` entries of the
/// grouping: one for each path at which some text is in conflict.
pub open spec fn conflict_warnings(
    config: Config,
    kind: Conflict,
    catalog: Seq<(String, Vec<(String, String)>)>,
    lang: Seq<char>,
    count: nat,
) -> Seq<Seq<char>>
    decreases count,
{
    if count == 0 {
        Seq::empty()
    } else {
        let before = conflict_warnings(config, kind, catalog, lang, (count - 1) as nat);
        let values = conflict_at(config, kind, count - 1);
        if values.len() > 0 {
            before.push(
                warning_text(keys(config.split.grouping@)[count - 1], values, catalog, lang),
            )
        } else {
            before
        }
    }
}

/// The key of the message that heads the conflicts of a kind.
pub open spec fn conflict_key(kind: Conflict) -> Seq<char> {
    match kind {
        Conflict::SplittingWithoutAllowance => "splitting_without_allowance"@,
        Conflict::SplittingDespiteBlocking => "splitting_despite_blocking"@,
        Conflict::AllowanceWithoutSplitting => "allowance_without_splitting"@,
    }
}

/// The section of the report on one kind of conflict; none where there is no such conflict.
pub open spec fn conflict_section(
    config: Config,
    kind: Conflict,
    catalog: Seq<(String, Vec<(String, String)>)>,
    lang: Seq<char>,
) -> Option<Seq<char>> {
    let warnings = conflict_warnings(config, kind, catalog, lang, config.split.grouping@.len());
    if warnings.len() > 0 {
        Some(
            "• "@ + message_text(catalog, conflict_key(kind), lang) + ":\n\n"@ + joined(
                warnings,
                "\n  ---\n"@,
            ) + "\n"@,
        )
    } else {
        None
    }
}

/// A list with the section at its end, where there is one.
pub open spec fn with_section(sections: Seq<Seq<char>>, section: Option<Seq<char>>) -> Seq<
    Seq<char>,
> {
    match section {
        Some(text) => sections.push(text),
        None => sections,
    }
}

/// The report of the consistency check; none where nothing is in conflict. Where a path
/// has entries in the allowlist and in the blocklist, the report names those paths and
/// nothing else. Else it names, kind by kind, the texts at which the grouping and the
/// filter disagree.
pub open spec fn consistency_report(
    config: Config,
    catalog: Seq<(String, Vec<(String, String)>)>,
    lang: Seq<char>,
) -> Option<Seq<char>> {
    if contested_paths(config).len() > 0 {
        Some(
            message_text(catalog, "allow_block_conflict"@, lang) + ":\n  • "@ + joined(
                contested_paths(config),
                "\n  • "@,
            ),
        )
    } else {
        let sections = with_section(
            with_section(
                with_section(
                    Seq::empty(),
                    conflict_section(config, Conflict::SplittingWithoutAllowance, catalog, lang),
                ),
                conflict_section(config, Conflict::SplittingDespiteBlocking, catalog, lang),
            ),
            conflict_section(config, Conflict::AllowanceWithoutSplitting, catalog, lang),
        );
        if sections.len() > 0 {
            Some(
                message_text(catalog, "filter_split_conflict"@, lang) + ":\n\n"@ + joined(
                    sections,
                    "\n"@,
                ),
            )
        } else {
            None
        }
    }
}

/// No path stands twice among the paths that are both allowed and blocked.
pub proof fn law_contested_paths_distinct(config: Config)
    ensures
        distinct(contested_paths(config)),
{
    lemma_deduplicated(
        keys(config.filter.allowlist.exact@) + keys(config.filter.allowlist.regex@),
    );
    law_common_distinct(allowed_paths(config), blocked_paths(config));
}

/// No text stands twice among the texts in conflict at one path.
pub proof fn law_conflicts_distinct(config: Config, kind: Conflict, index: int)
    ensures
        distinct(conflict_at(config, kind, index)),
{
    let path = keys(config.split.grouping@)[index];
    let splitting = deduplicated(keys(config.split.grouping@[index].1@));
    let exact = deduplicated(listed(config.filter.allowlist.exact@, path));
    let allowed = united(exact, listed(config.filter.allowlist.regex@, path));
    lemma_deduplicated(keys(config.split.grouping@[index].1@));
    lemma_deduplicated(listed(config.filter.allowlist.exact@, path));
    law_apart_distinct(splitting, allowed);
    law_apart_distinct(exact, splitting);
    law_common_distinct(splitting, listed(config.filter.blocklist.exact@, path));
}

/// The strings of a list, each once.
pub fn distinct_texts(list: &Vec<String>) -> (all: Vec<String>)
    ensures
        texts(all@) == deduplicated(texts(list@)),
        distinct(texts(all@)),
{
    let none: Vec<String> = Vec::new();
    proof {
        assert(texts(list@) + texts(none@) =~= texts(list@));
        lemma_deduplicated(texts(list@));
    }
    unite(list, &none)
}

/// The strings of both lists, each once.
pub fn unite(first: &Vec<String>, second: &Vec<String>) -> (all: Vec<String>)
    ensures
        texts(all@) == united(texts(first@), texts(second@)),
{
    let mut all: Vec<String> = Vec::new();
    let ghost both = texts(first@) + texts(second@);
    let mut i: usize = 0;
    proof {
        assert(both.take(0) =~= Seq::empty());
        assert(texts(all@) =~= Seq::empty());
    }
    while i < first.len()
        invariant
            i <= first.len(),
            both == texts(first@) + texts(second@),
            texts(all@) == deduplicated(both.take(i as int)),
        decreases first.len() - i,
    {
        proof {
            assert(both.take(i + 1).drop_last() =~= both.take(i as int));
            assert(both.take(i + 1).last() == first@[i as int]@);
        }
        if find_text(&all, &first[i]).is_none() {
            let ghost before = texts(all@);
            all.push(first[i].clone());
            proof {
                assert(texts(all@) =~= before.push(first@[i as int]@));
            }
        }
        i += 1;
    }
    let mut j: usize = 0;
    while j < second.len()
        invariant
            j <= second.len(),
            both == texts(first@) + texts(second@),
            texts(all@) == deduplicated(both.take(first.len() + j)),
        decreases second.len() - j,
    {
        proof {
            assert(both.take(first.len() + j + 1).drop_last() =~= both.take(first.len() + j));
            assert(both.take(first.len() + j + 1).last() == second@[j as int]@);
        }
        if find_text(&all, &second[j]).is_none() {
            let ghost before = texts(all@);
            all.push(second[j].clone());
            proof {
                assert(texts(all@) =~= before.push(second@[j as int]@));
            }
        }
        j += 1;
    }
    proof {
        assert(both.take(first.len() + second.len()) =~= both);
    }
    all
}

/// The keys of a table.
pub fn key_list<V>(entries: &Vec<(String, V)>) -> (names: Vec<String>)
    ensures
        texts(names@) == keys(entries@),
{
    let mut names: Vec<String> = Vec::new();
    let mut i: usize = 0;
    while i < entries.len()
        invariant
            i <= entries.len(),
            names.len() == i,
            forall|j: int| 0 <= j < i ==> names@[j]@ == entries@[j].0@,
        decreases entries.len() - i,
    {
        names.push(entries[i].0.clone());
        i += 1;
    }
    proof {
        assert(texts(names@) =~= keys(entries@));
    }
    names
}

/// The list that the table holds for `path`; the empty list where it holds none.
pub fn list_at(table: &Vec<(String, Vec<String>)>, path: &String) -> (list: Vec<String>)
    ensures
        texts(list@) == listed(table@, path@),
{
    match find_key(table, path) {
        Some(i) => {
            let source = &table[i].1;
            let mut list: Vec<String> = Vec::new();
            let mut k: usize = 0;
            while k < source.len()
                invariant
                    k <= source.len(),
                    list.len() == k,
                    forall|j: int| 0 <= j < k ==> list@[j]@ == source@[j]@,
                decreases source.len() - k,
            {
                list.push(source[k].clone());
                k += 1;
            }
            proof {
                assert(texts(list@) =~= texts(source@));
            }
            list
        },
        None => {
            let list: Vec<String> = Vec::new();
            proof {
                assert(texts(list@) =~= Seq::empty());
            }
            list
        },
    }
}

/// The texts in conflict at the path of the grouping's entry `index`.
fn conflict_values(config: &Config, kind: Conflict, index: usize) -> (values: Vec<String>)
    requires
        index < config.split.grouping.len(),
    ensures
        texts(values@) == conflict_at(*config, kind, index as int),
{
    let path = &config.split.grouping[index].0;
    let splitting = distinct_texts(&key_list(&config.split.grouping[index].1));
    let allowed_paths = unite(
        &key_list(&config.filter.allowlist.exact),
        &key_list(&config.filter.allowlist.regex),
    );
    let exact = distinct_texts(&list_at(&config.filter.allowlist.exact, path));
    let empty: Vec<String> = Vec::new();
    proof {
        assert(texts(empty@) =~= Seq::empty());
    }
    match kind {
        Conflict::SplittingWithoutAllowance => {
            if find_text(&allowed_paths, path).is_some() {
                let allowed = unite(&exact, &list_at(&config.filter.allowlist.regex, path));
                get_difference(&splitting, &allowed)
            } else {
                empty
            }
        },
        Conflict::AllowanceWithoutSplitting => {
            if find_text(&allowed_paths, path).is_some() {
                get_difference(&exact, &splitting)
            } else {
                empty
            }
        },
        Conflict::SplittingDespiteBlocking => {
            if find_key(&config.filter.blocklist.exact, path).is_some() {
                get_intersection(&splitting, &list_at(&config.filter.blocklist.exact, path))
            } else {
                empty
            }
        },
    }
}

/// The section of the report on one kind of conflict.
fn section(
    config: &Config,
    kind: Conflict,
    msg_config: &Vec<(String, Vec<(String, String)>)>,
    lang: &String,
) -> (text: Option<String>)
    ensures
        match text {
            Some(t) => conflict_section(*config, kind, msg_config@, lang@) == Some(t@),
            None => conflict_section(*config, kind, msg_config@, lang@) is None,
        },
{
    let mut found: Vec<(&String, Vec<String>)> = Vec::new();
    let mut i: usize = 0;
    while i < config.split.grouping.len()
        invariant
            i <= config.split.grouping.len(),
            warning_texts(found@, msg_config@, lang@) == conflict_warnings(
                *config,
                kind,
                msg_config@,
                lang@,
                i as nat,
            ),
        decreases config.split.grouping.len() - i,
    {
        let values = conflict_values(config, kind, i);
        if values.len() > 0 {
            let ghost before = warning_texts(found@, msg_config@, lang@);
            let ghost path = config.split.grouping@[i as int].0;
            found.push((&config.split.grouping[i].0, values));
            proof {
                assert(warning_texts(found@, msg_config@, lang@) =~= before.push(
                    warning_text(path@, texts(values@), msg_config@, lang@),
                ));
            }
        }
        i += 1;
    }
    if found.len() > 0 {
        let key = match kind {
            Conflict::SplittingWithoutAllowance => "splitting_without_allowance",
            Conflict::SplittingDespiteBlocking => "splitting_despite_blocking",
            Conflict::AllowanceWithoutSplitting => "allowance_without_splitting",
        };
        let label = get_msg(msg_config, key, lang);
        let compiled = compile_warnings(found, msg_config, lang);
        let mut text = String::new();
        text.append("• ");
        text.append(label.as_str());
        text.append(":\n\n");
        text.append(compiled.as_str());
        text.append("\n");
        proof {
            assert(Seq::<char>::empty() + "• "@ =~= "• "@);
        }
        Some(text)
    } else {
        None
    }
}

/// Looks for disagreements between the filter and the grouping, and writes the report on
/// them; none where there are none.
pub fn check_consistency(
    config: &Config,
    msg_config: &Vec<(String, Vec<(String, String)>)>,
    lang: &String,
) -> (report: Option<String>)
    ensures
        match report {
            Some(text) => consistency_report(*config, msg_config@, lang@) == Some(text@),
            None => consistency_report(*config, msg_config@, lang@) is None,
        },
{
    let keys_allow = unite(
        &key_list(&config.filter.allowlist.exact),
        &key_list(&config.filter.allowlist.regex),
    );
    let keys_block = unite(
        &key_list(&config.filter.blocklist.exact),
        &key_list(&config.filter.blocklist.regex),
    );
    let inconsistent_filter = get_intersection(&keys_allow, &keys_block);
    if inconsistent_filter.len() > 0 {
        let mut text = get_msg(msg_config, "allow_block_conflict", lang);
        text.append(":\n  • ");
        text.append(join_strings(&inconsistent_filter, "\n  • ").as_str());
        return Some(text);
    }
    let mut sections: Vec<String> = Vec::new();
    proof {
        assert(texts(sections@) =~= Seq::empty());
    }
    add_section(
        &mut sections,
        section(config, Conflict::SplittingWithoutAllowance, msg_config, lang),
    );
    add_section(
        &mut sections,
        section(config, Conflict::SplittingDespiteBlocking, msg_config, lang),
    );
    add_section(
        &mut sections,
        section(config, Conflict::AllowanceWithoutSplitting, msg_config, lang),
    );
    if sections.len() > 0 {
        let mut text = get_msg(msg_config, "filter_split_conflict", lang);
        text.append(":\n\n");
        text.append(join_strings(&sections, "\n").as_str());
        Some(text)
    } else {
        None
    }
}

/// Adds a section to the list, where there is one.
fn add_section(sections: &mut Vec<String>, section: Option<String>)
    ensures
        texts(final(sections)@) == with_section(
            texts(old(sections)@),
            match section {
                Some(text) => Some(text@),
                None => None,
            },
        ),
{
    match section {
        Some(text) => {
            sections.push(text);
            proof {
                assert(texts(sections@) =~= texts(old(sections)@).push(text@));
            }
        },
        None => {},
    }
}

} // verus!
