//! Strings as sequences of characters: joining, splitting and comparing.
use vstd::prelude::*;
use vstd::string::*;

verus! {

/// The views of a list of strings.
pub open spec fn texts(strings: Seq<String>) -> Seq<Seq<char>> {
    Seq::new(strings.len(), |i: int| strings[i]@)
}

/// The parts in order, with `separator` between each two neighbours.
pub open spec fn joined(parts: Seq<Seq<char>>, separator: Seq<char>) -> Seq<char>
    decreases parts.len(),
{
    if parts.len() == 0 {
        Seq::empty()
    } else if parts.len() == 1 {
        parts[0]
    } else {
        joined(parts.drop_last(), separator) + separator + parts.last()
    }
}

/// The pieces of `text` between the occurrences of `separator`: always at least one piece,
/// and `n + 1` pieces where the separator occurs `n` times.
pub open spec fn pieces(text: Seq<char>, separator: char) -> Seq<Seq<char>>
    decreases text.len(),
{
    if text.len() == 0 {
        seq![Seq::empty()]
    } else if text.last() == separator {
        pieces(text.drop_last(), separator).push(Seq::empty())
    } else {
        let before = pieces(text.drop_last(), separator);
        before.drop_last().push(before.last().push(text.last()))
    }
}

pub proof fn lemma_pieces_nonempty(text: Seq<char>, separator: char)
    ensures
        pieces(text, separator).len() >= 1,
    decreases text.len(),
{
    if text.len() > 0 {
        lemma_pieces_nonempty(text.drop_last(), separator);
    }
}

/// Joining the pieces of a text with the separator gives the text back.
pub proof fn lemma_joined_pieces(text: Seq<char>, separator: char)
    ensures
        joined(pieces(text, separator), seq![separator]) == text,
    decreases text.len(),
{
    let between = seq![separator];
    if text.len() == 0 {
        assert(pieces(text, separator)[0] =~= text);
    } else {
        let shorter = text.drop_last();
        let before = pieces(shorter, separator);
        lemma_pieces_nonempty(shorter, separator);
        lemma_joined_pieces(shorter, separator);
        if text.last() == separator {
            let all = before.push(Seq::empty());
            assert(all.drop_last() =~= before);
            assert(joined(all, between) =~= shorter + between + Seq::<char>::empty());
            assert(shorter + between + Seq::<char>::empty() =~= text);
        } else {
            let grown = before.last().push(text.last());
            let all = before.drop_last().push(grown);
            assert(all.drop_last() =~= before.drop_last());
            if before.len() == 1 {
                assert(joined(before, between) == before[0]);
                assert(grown =~= text);
            } else {
                assert(joined(all, between) =~= (joined(before.drop_last(), between) + between
                    + before.last()).push(text.last()));
                assert(shorter.push(text.last()) =~= text);
            }
        }
    }
}

/// Joining two lists that are not empty joins each, with one separator between them.
pub proof fn lemma_joined_add(first: Seq<Seq<char>>, second: Seq<Seq<char>>, separator: Seq<char>)
    requires
        first.len() > 0,
        second.len() > 0,
    ensures
        joined(first + second, separator) == joined(first, separator) + separator + joined(
            second,
            separator,
        ),
    decreases second.len(),
{
    let all = first + second;
    assert(all.drop_last() =~= first + second.drop_last());
    assert(all.last() == second.last());
    if second.len() == 1 {
        assert(first + second.drop_last() =~= first);
    } else {
        lemma_joined_add(first, second.drop_last(), separator);
        assert(joined(all, separator) =~= joined(first, separator) + separator + (joined(
            second.drop_last(),
            separator,
        ) + separator + second.last()));
    }
}

/// Joins `parts` with `separator` between them.
pub fn join_strings(parts: &Vec<String>, separator: &str) -> (result: String)
    ensures
        result@ == joined(texts(parts@), separator@),
{
    let mut result = String::new();
    let mut i: usize = 0;
    while i < parts.len()
        invariant
            i <= parts.len(),
            result@ == joined(texts(parts@).take(i as int), separator@),
        decreases parts.len() - i,
    {
        if i > 0 {
            result.append(separator);
        }
        result.append(parts[i].as_str());
        proof {
            let all = texts(parts@);
            assert(all.take(i + 1).drop_last() =~= all.take(i as int));
            assert(all.take(i + 1).last() == parts[i as int]@);
            if i == 0 {
                assert(Seq::<char>::empty() + parts[i as int]@ =~= parts[i as int]@);
            }
        }
        i += 1;
    }
    proof {
        assert(texts(parts@).take(parts.len() as int) =~= texts(parts@));
    }
    result
}

/// Splits `text` at every occurrence of `separator`.
pub fn split_text(text: &str, separator: char) -> (result: Vec<String>)
    ensures
        texts(result@) == pieces(text@, separator),
{
    let length = text.unicode_len();
    let mut result: Vec<String> = Vec::new();
    let mut start: usize = 0;
    let mut i: usize = 0;
    proof {
        assert(text@.take(0) =~= Seq::<char>::empty());
        assert(text@.subrange(0, 0) =~= Seq::<char>::empty());
        assert(texts(result@).push(Seq::<char>::empty()) =~= seq![Seq::<char>::empty()]);
    }
    while i < length
        invariant
            length == text@.len(),
            start <= i <= length,
            pieces(text@.take(i as int), separator) == texts(result@).push(
                text@.subrange(start as int, i as int),
            ),
        decreases length - i,
    {
        let c = text.get_char(i);
        proof {
            let shorter = text@.take(i as int);
            let longer = text@.take(i + 1);
            assert(longer.drop_last() =~= shorter);
            assert(longer.last() == c);
            let before = pieces(shorter, separator);
            assert(before.drop_last() =~= texts(result@));
        }
        if c == separator {
            let piece = text.substring_char(start, i).to_owned();
            let ghost earlier = texts(result@);
            let ghost from = start;
            result.push(piece);
            start = i + 1;
            proof {
                assert(texts(result@) =~= earlier.push(text@.subrange(from as int, i as int)));
                assert(text@.subrange(start as int, i + 1) =~= Seq::<char>::empty());
            }
        } else {
            proof {
                assert(text@.subrange(start as int, i + 1) =~= text@.subrange(
                    start as int,
                    i as int,
                ).push(c));
            }
        }
        i += 1;
    }
    let piece = text.substring_char(start, length).to_owned();
    proof {
        assert(text@.take(length as int) =~= text@);
        let earlier = texts(result@);
        assert(earlier.push(piece@) =~= texts(result@.push(piece)));
    }
    result.push(piece);
    result
}

} // verus!
