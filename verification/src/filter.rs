//! The filter: which split elements are kept, by the texts found at configured paths.
use vstd::prelude::*;
use regex::Regex;
use crate::table::{contains_text, find_key, keys, listed, occurs};
use crate::text::texts;

verus! {

/// Whether `pattern`, taken as a regular expression of the `regex` crate, matches somewhere
/// in `text`; none where it is no regular expression.
pub uninterp spec fn pattern_match(pattern: Seq<char>, text: Seq<char>) -> Option<bool>;

/// `regex::Regex::new`, then `regex::Regex::is_match`: whether the pattern matches the text,
/// or nothing where the pattern does not compile.
#[verifier::external_body]
pub(crate) fn match_pattern(pattern: &str, text: &str) -> (matched: Option<bool>)
    ensures
        matched == pattern_match(pattern@, text@),
{
    match Regex::new(pattern) {
        Ok(regex) => Some(regex.is_match(text)),
        Err(_) => None,
    }
}

/// Whether one of the patterns matches `text`. A pattern that is no regular expression
/// matches nothing.
pub open spec fn some_pattern_matches(patterns: Seq<Seq<char>>, text: Seq<char>) -> bool {
    exists|i: int|
        0 <= i < patterns.len() && pattern_match(#[trigger] patterns[i], text) == Some(true)
}

/// Whether the allowlist lets `text` pass at `path`: it has no entry for the path, or
/// the text is one of its exact texts or meets one of its patterns.
pub open spec fn allows(allowlist: Allowlist, path: Seq<char>, text: Seq<char>) -> bool {
    ||| !occurs(keys(allowlist.exact@), path) && !occurs(keys(allowlist.regex@), path)
    ||| occurs(listed(allowlist.exact@, path), text)
    ||| some_pattern_matches(listed(allowlist.regex@, path), text)
}

/// Whether the blocklist stops `text` at `path`: the text is one of its exact texts for the
/// path or meets one of its patterns.
pub open spec fn blocks(blocklist: Blocklist, path: Seq<char>, text: Seq<char>) -> bool {
    ||| occurs(listed(blocklist.exact@, path), text)
    ||| some_pattern_matches(listed(blocklist.regex@, path), text)
}

/// Whether `text` at `path` leaves the element in: allowed, and not blocked.
pub open spec fn passes(filter: Filter, path: Seq<char>, text: Seq<char>) -> bool {
    allows(filter.allowlist, path, text) && !blocks(filter.blocklist, path, text)
}

/// The filter tables, and the group that takes what they reject.
#[derive(Clone, Debug)]
pub struct Filter {
    pub residue: String,
    pub allowlist: Allowlist,
    pub blocklist: Blocklist,
}

/// By path, the texts and the patterns of which one must be met.
#[derive(Clone, Debug)]
pub struct Allowlist {
    pub exact: Vec<(String, Vec<String>)>,
    pub regex: Vec<(String, Vec<String>)>,
}

/// By path, the texts and the patterns of which none may be met.
#[derive(Clone, Debug)]
pub struct Blocklist {
    pub exact: Vec<(String, Vec<String>)>,
    pub regex: Vec<(String, Vec<String>)>,
}

/// Whether a pattern is a regular expression.
pub open spec fn compiles(pattern: Seq<char>) -> bool {
    pattern_match(pattern, Seq::empty()) is Some
}

/// The patterns of a table, list after list.
pub open spec fn patterns_of(table: Seq<(String, Vec<String>)>) -> Seq<Seq<char>>
    decreases table.len(),
{
    if table.len() == 0 {
        Seq::empty()
    } else {
        patterns_of(table.drop_last()) + texts(table.last().1@)
    }
}

/// The patterns that are no regular expressions, in their order.
pub open spec fn not_compiling(patterns: Seq<Seq<char>>) -> Seq<Seq<char>>
    decreases patterns.len(),
{
    if patterns.len() == 0 {
        Seq::empty()
    } else if compiles(patterns.last()) {
        not_compiling(patterns.drop_last())
    } else {
        not_compiling(patterns.drop_last()).push(patterns.last())
    }
}

/// Adds to `found` the patterns of the table that are no regular expressions.
fn add_not_compiling(
    found: &mut Vec<String>,
    table: &Vec<(String, Vec<String>)>,
    Ghost(before): Ghost<Seq<Seq<char>>>,
)
    requires
        texts(old(found)@) == not_compiling(before),
    ensures
        texts(final(found)@) == not_compiling(before + patterns_of(table@)),
{
    let mut i: usize = 0;
    proof {
        assert(table@.take(0) =~= Seq::empty());
        assert(before + patterns_of(table@.take(0)) =~= before);
    }
    while i < table.len()
        invariant
            i <= table.len(),
            texts(found@) == not_compiling(before + patterns_of(table@.take(i as int))),
        decreases table.len() - i,
    {
        let list = &table[i].1;
        let ghost start = before + patterns_of(table@.take(i as int));
        let mut j: usize = 0;
        proof {
            assert(start + texts(list@).take(0) =~= start);
        }
        while j < list.len()
            invariant
                j <= list.len(),
                texts(found@) == not_compiling(start + texts(list@).take(j as int)),
            decreases list.len() - j,
        {
            proof {
                let longer = start + texts(list@).take(j + 1);
                assert(longer.drop_last() =~= start + texts(list@).take(j as int));
                assert(longer.last() == list@[j as int]@);
            }
            if match_pattern(list[j].as_str(), "").is_none() {
                let ghost earlier = texts(found@);
                found.push(list[j].clone());
                proof {
                    reveal_strlit("");
                    assert(""@ =~= Seq::<char>::empty());
                    assert(texts(found@) =~= earlier.push(list@[j as int]@));
                }
            } else {
                proof {
                    reveal_strlit("");
                    assert(""@ =~= Seq::<char>::empty());
                }
            }
            j += 1;
        }
        proof {
            assert(texts(list@).take(list.len() as int) =~= texts(list@));
            assert(table@.take(i + 1).drop_last() =~= table@.take(i as int));
            assert(table@.take(i + 1).last() == table@[i as int]);
            assert(start + texts(list@) =~= before + patterns_of(table@.take(i + 1)));
        }
        i += 1;
    }
    proof {
        assert(table@.take(table.len() as int) =~= table@);
    }
}

/// Whether one of the patterns matches the text.
pub fn any_pattern_matches(patterns: &Vec<String>, text: &String) -> (matched: bool)
    ensures
        matched == some_pattern_matches(texts(patterns@), text@),
{
    let mut i: usize = 0;
    while i < patterns.len()
        invariant
            i <= patterns.len(),
            forall|j: int|
                0 <= j < i ==> pattern_match(#[trigger] texts(patterns@)[j], text@) != Some(true),
        decreases patterns.len() - i,
    {
        match match_pattern(patterns[i].as_str(), text.as_str()) {
            Some(true) => {
                proof {
                    assert(pattern_match(texts(patterns@)[i as int], text@) == Some(true));
                }
                return true;
            },
            _ => {},
        }
        i += 1;
    }
    false
}

/// Whether the table's list for `path` holds `text`.
fn lists_text(table: &Vec<(String, Vec<String>)>, path: &String, text: &String) -> (found: bool)
    ensures
        found == occurs(listed(table@, path@), text@),
{
    match find_key(table, path) {
        Some(i) => contains_text(&table[i].1, text),
        None => false,
    }
}

/// Whether one of the table's patterns for `path` matches `text`.
fn meets_pattern(table: &Vec<(String, Vec<String>)>, path: &String, text: &String) -> (found: bool)
    ensures
        found == some_pattern_matches(listed(table@, path@), text@),
{
    match find_key(table, path) {
        Some(i) => any_pattern_matches(&table[i].1, text),
        None => false,
    }
}

impl Filter {
    /// The patterns of the allowlist and of the blocklist that are no regular expressions,
    /// and so match nothing.
    pub fn invalid_patterns(&self) -> (found: Vec<String>)
        ensures
            texts(found@) == not_compiling(
                patterns_of(self.allowlist.regex@) + patterns_of(self.blocklist.regex@),
            ),
    {
        let mut found: Vec<String> = Vec::new();
        proof {
            assert(texts(found@) =~= Seq::empty());
            assert(Seq::<Seq<char>>::empty() + patterns_of(self.allowlist.regex@)
                =~= patterns_of(self.allowlist.regex@));
        }
        add_not_compiling(&mut found, &self.allowlist.regex, Ghost(Seq::empty()));
        add_not_compiling(
            &mut found,
            &self.blocklist.regex,
            Ghost(patterns_of(self.allowlist.regex@)),
        );
        found
    }

    /// Whether `text`, found at `path`, leaves the element in.
    pub fn passes(&self, path: &String, text: &String) -> (passed: bool)
        ensures
            passed == passes(*self, path@, text@),
    {
        let allowed = (find_key(&self.allowlist.exact, path).is_none() && find_key(
            &self.allowlist.regex,
            path,
        ).is_none()) || lists_text(&self.allowlist.exact, path, text) || meets_pattern(
            &self.allowlist.regex,
            path,
            text,
        );
        let blocked = lists_text(&self.blocklist.exact, path, text) || meets_pattern(
            &self.blocklist.regex,
            path,
            text,
        );
        allowed && !blocked
    }
}

} // verus!
