//! Lists of strings and lists of `(key, value)` pairs, searched from the front.
//!
//! A key may occur more than once; the first occurrence counts.
use vstd::prelude::*;
use crate::text::texts;

verus! {

/// The keys of a list of pairs, as texts.
pub open spec fn keys<V>(entries: Seq<(String, V)>) -> Seq<Seq<char>> {
    Seq::new(entries.len(), |i: int| entries[i].0@)
}

/// The first components of a list of pairs.
pub open spec fn firsts<K, V>(entries: Seq<(K, V)>) -> Seq<K> {
    Seq::new(entries.len(), |i: int| entries[i].0)
}

/// `wanted` stands at `index`, and nowhere before it.
pub open spec fn is_first_at(items: Seq<Seq<char>>, wanted: Seq<char>, index: int) -> bool {
    &&& 0 <= index < items.len()
    &&& items[index] == wanted
    &&& forall|j: int| 0 <= j < index ==> items[j] != wanted
}

/// The index of the first occurrence of `wanted`.
pub open spec fn index_of(items: Seq<Seq<char>>, wanted: Seq<char>) -> Option<int>
    decreases items.len(),
{
    if items.len() == 0 {
        None
    } else if items[0] == wanted {
        Some(0)
    } else {
        match index_of(items.drop_first(), wanted) {
            Some(i) => Some(i + 1),
            None => None,
        }
    }
}

/// Whether `wanted` is among `items`.
pub open spec fn occurs(items: Seq<Seq<char>>, wanted: Seq<char>) -> bool {
    index_of(items, wanted) is Some
}

/// The value of the first pair whose key is `key`.
pub open spec fn value_of<T>(entries: Seq<(Seq<char>, T)>, key: Seq<char>) -> Option<T> {
    match index_of(firsts(entries), key) {
        Some(i) => Some(entries[i].1),
        None => None,
    }
}

/// The list that a table holds for `path`; the empty list where it holds none.
pub open spec fn listed(table: Seq<(String, Vec<String>)>, path: Seq<char>) -> Seq<Seq<char>> {
    match index_of(keys(table), path) {
        Some(i) => texts(table[i].1@),
        None => Seq::empty(),
    }
}

/// The views of a list of pairs of strings.
pub open spec fn pairs(entries: Seq<(String, String)>) -> Seq<(Seq<char>, Seq<char>)> {
    Seq::new(entries.len(), |i: int| (entries[i].0@, entries[i].1@))
}

/// The pairs with `value` under `key`: in place of the first value that `key` had, or at the
/// end where it had none.
pub open spec fn with_value(
    entries: Seq<(Seq<char>, Seq<char>)>,
    key: Seq<char>,
    value: Seq<char>,
) -> Seq<(Seq<char>, Seq<char>)> {
    match index_of(firsts(entries), key) {
        Some(i) => entries.update(i, (key, value)),
        None => entries.push((key, value)),
    }
}

/// The pairs with `value` under `key` where `key` had no value, and unchanged where it had.
pub open spec fn with_default(
    entries: Seq<(Seq<char>, Seq<char>)>,
    key: Seq<char>,
    value: Seq<char>,
) -> Seq<(Seq<char>, Seq<char>)> {
    if occurs(firsts(entries), key) {
        entries
    } else {
        entries.push((key, value))
    }
}

/// The keys of pairs of strings are the first components of their views.
pub proof fn lemma_keys_of_pairs(entries: Seq<(String, String)>)
    ensures
        firsts(pairs(entries)) == keys(entries),
{
    assert(firsts(pairs(entries)) =~= keys(entries));
}

/// `index_of` finds the first occurrence, and fails only where there is none.
pub proof fn lemma_index_of(items: Seq<Seq<char>>, wanted: Seq<char>)
    ensures
        match index_of(items, wanted) {
            Some(i) => is_first_at(items, wanted, i),
            None => forall|j: int| 0 <= j < items.len() ==> items[j] != wanted,
        },
    decreases items.len(),
{
    if items.len() > 0 && items[0] != wanted {
        let rest = items.drop_first();
        lemma_index_of(rest, wanted);
        match index_of(rest, wanted) {
            Some(i) => {
                assert forall|j: int| 0 <= j < i + 1 implies items[j] != wanted by {
                    if j > 0 {
                        assert(rest[j - 1] == items[j]);
                    }
                }
                assert(rest[i] == items[i + 1]);
            },
            None => {
                assert forall|j: int| 0 <= j < items.len() implies items[j] != wanted by {
                    if j > 0 {
                        assert(rest[j - 1] == items[j]);
                    }
                }
            },
        }
    }
}

/// An occurrence with none before it is what `index_of` finds.
pub proof fn lemma_first_is_index_of(items: Seq<Seq<char>>, wanted: Seq<char>, index: int)
    requires
        is_first_at(items, wanted, index),
    ensures
        index_of(items, wanted) == Some(index),
{
    lemma_index_of(items, wanted);
}

/// Where nothing equals `wanted`, `index_of` finds nothing.
pub proof fn lemma_absent_is_none(items: Seq<Seq<char>>, wanted: Seq<char>)
    requires
        forall|j: int| 0 <= j < items.len() ==> items[j] != wanted,
    ensures
        index_of(items, wanted) is None,
{
    lemma_index_of(items, wanted);
}

/// The position of the first string equal to `wanted`.
pub fn find_text(items: &Vec<String>, wanted: &String) -> (found: Option<usize>)
    ensures
        match found {
            Some(i) => i < items.len() && index_of(texts(items@), wanted@) == Some(i as int),
            None => index_of(texts(items@), wanted@) is None,
        },
{
    let mut i: usize = 0;
    while i < items.len()
        invariant
            i <= items.len(),
            forall|j: int| 0 <= j < i ==> texts(items@)[j] != wanted@,
        decreases items.len() - i,
    {
        if items[i] == *wanted {
            proof {
                lemma_first_is_index_of(texts(items@), wanted@, i as int);
            }
            return Some(i);
        }
        i += 1;
    }
    proof {
        lemma_absent_is_none(texts(items@), wanted@);
    }
    None
}

/// Whether some string of `items` equals `wanted`.
pub fn contains_text(items: &Vec<String>, wanted: &String) -> (found: bool)
    ensures
        found == occurs(texts(items@), wanted@),
{
    find_text(items, wanted).is_some()
}

/// The position of the first pair whose key equals `key`.
pub fn find_key<V>(entries: &Vec<(String, V)>, key: &String) -> (found: Option<usize>)
    ensures
        match found {
            Some(i) => i < entries.len() && index_of(keys(entries@), key@) == Some(i as int),
            None => index_of(keys(entries@), key@) is None,
        },
{
    let mut i: usize = 0;
    while i < entries.len()
        invariant
            i <= entries.len(),
            forall|j: int| 0 <= j < i ==> keys(entries@)[j] != key@,
        decreases entries.len() - i,
    {
        if entries[i].0 == *key {
            proof {
                lemma_first_is_index_of(keys(entries@), key@, i as int);
            }
            return Some(i);
        }
        i += 1;
    }
    proof {
        lemma_absent_is_none(keys(entries@), key@);
    }
    None
}

/// The value that the pairs hold under `key`.
pub fn lookup<'a>(entries: &'a Vec<(String, String)>, key: &String) -> (value: Option<&'a String>)
    ensures
        match value {
            Some(v) => value_of(pairs(entries@), key@) == Some(v@),
            None => value_of(pairs(entries@), key@) is None,
        },
{
    proof {
        lemma_keys_of_pairs(entries@);
    }
    match find_key(entries, key) {
        Some(i) => Some(&entries[i].1),
        None => None,
    }
}

/// Puts `value` under `key`, in place of the first value that the key had.
pub fn set_value(entries: &mut Vec<(String, String)>, key: &String, value: String)
    ensures
        pairs(final(entries)@) == with_value(pairs(old(entries)@), key@, value@),
{
    proof {
        lemma_keys_of_pairs(entries@);
    }
    match find_key(entries, key) {
        Some(i) => {
            entries[i].1 = value;
            proof {
                lemma_index_of(keys(old(entries)@), key@);
                assert(pairs(entries@) =~= pairs(old(entries)@).update(i as int, (key@, value@)));
            }
        },
        None => {
            entries.push((key.clone(), value));
            proof {
                assert(pairs(entries@) =~= pairs(old(entries)@).push((key@, value@)));
            }
        },
    }
}

/// Puts `value` under `key` unless the key has a value.
pub fn set_default(entries: &mut Vec<(String, String)>, key: &String, value: &String)
    ensures
        pairs(final(entries)@) == with_default(pairs(old(entries)@), key@, value@),
{
    proof {
        lemma_keys_of_pairs(entries@);
    }
    if find_key(entries, key).is_none() {
        entries.push((key.clone(), value.clone()));
        proof {
            assert(pairs(entries@) =~= pairs(old(entries)@).push((key@, value@)));
        }
    }
}

} // verus!
