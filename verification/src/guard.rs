//! Which expressions are handed to `evalexpr`, and which are refused before.
//!
//! Four functions that `evalexpr` builds in do not answer for every argument: `shl` and
//! `shr` overflow on a shift as wide as an integer, `math::abs` on the least integer, and
//! `str::substring` cuts a text off a character boundary. An expression that can call one
//! of them is refused. A function is called by its name, which is a word of the expression:
//! its characters side by side, or, where the expression holds a comment, with comments
//! between them.
use vstd::prelude::*;
use vstd::string::*;

verus! {

/// Whether a character can stand in a name: a letter or digit of ASCII, `_`, `:` or `.`.
/// No operator, no quote and no white space is among them.
pub open spec fn is_word_char(c: char) -> bool {
    ||| ('a' <= c && c <= 'z')
    ||| ('A' <= c && c <= 'Z')
    ||| ('0' <= c && c <= '9')
    ||| c == '_'
    ||| c == ':'
    ||| c == '.'
}

/// Whether a comment can open at `at`: a slash, and after it a slash or a star.
pub open spec fn opens_comment(text: Seq<char>, at: int) -> bool {
    &&& 0 <= at
    &&& at + 1 < text.len()
    &&& text[at] == '/'
    &&& (text[at + 1] == '/' || text[at + 1] == '*')
}

/// Whether the text can hold a comment.
pub open spec fn has_comment(text: Seq<char>) -> bool {
    exists|at: int| opens_comment(text, at)
}

/// Whether `word` stands at `at`, with no character of a name before or behind it.
pub open spec fn word_at(text: Seq<char>, word: Seq<char>, at: int) -> bool {
    &&& 0 <= at
    &&& at + word.len() <= text.len()
    &&& text.subrange(at, at + word.len()) == word
    &&& at == 0 || !is_word_char(text[at - 1])
    &&& at + word.len() == text.len() || !is_word_char(text[at + word.len()])
}

/// Whether `word` stands somewhere in the text as a word of its own.
pub open spec fn has_word(text: Seq<char>, word: Seq<char>) -> bool {
    exists|at: int| word_at(text, word, at)
}

/// How many characters of `word` are found in the text, in their order, by taking each at
/// the first place where it comes after the one before.
pub open spec fn found_in_order(word: Seq<char>, text: Seq<char>) -> nat
    decreases text.len(),
{
    if text.len() == 0 {
        0
    } else {
        let before = found_in_order(word, text.drop_last());
        if before < word.len() && text.last() == word[before as int] {
            before + 1
        } else {
            before
        }
    }
}

/// Whether the characters of `word` all stand in the text in their order, with anything
/// between them.
pub open spec fn has_scattered(text: Seq<char>, word: Seq<char>) -> bool {
    found_in_order(word, text) == word.len()
}

/// Whether the text can name `word`: as a word of its own, or, where the text can hold a
/// comment, with its characters scattered.
pub open spec fn can_name(text: Seq<char>, word: Seq<char>) -> bool {
    if has_comment(text) {
        has_scattered(text, word)
    } else {
        has_word(text, word)
    }
}

/// Whether an expression is handed to `evalexpr`: it can name none of the functions that
/// do not answer for every argument.
pub open spec fn is_guarded(expression: Seq<char>) -> bool {
    &&& !can_name(expression, "shl"@)
    &&& !can_name(expression, "shr"@)
    &&& !can_name(expression, "math::abs"@)
    &&& !can_name(expression, "str::substring"@)
}

/// The characters of a text.
pub fn characters(text: &str) -> (chars: Vec<char>)
    ensures
        chars@ == text@,
{
    let length = text.unicode_len();
    let mut chars: Vec<char> = Vec::new();
    let mut i: usize = 0;
    while i < length
        invariant
            i <= length,
            length == text@.len(),
            chars@ == text@.take(i as int),
        decreases length - i,
    {
        chars.push(text.get_char(i));
        proof {
            assert(chars@ =~= text@.take(i + 1));
        }
        i += 1;
    }
    proof {
        assert(text@.take(length as int) =~= text@);
    }
    chars
}

/// Whether a character can stand in a name.
fn is_word_character(c: char) -> (word: bool)
    ensures
        word == is_word_char(c),
{
    (c >= 'a' && c <= 'z') || (c >= 'A' && c <= 'Z') || (c >= '0' && c <= '9') || c == '_' || c
        == ':' || c == '.'
}

/// Whether the text can hold a comment.
fn finds_comment(text: &Vec<char>) -> (found: bool)
    ensures
        found == has_comment(text@),
{
    if text.len() < 2 {
        return false;
    }
    let mut i: usize = 0;
    while i < text.len() - 1
        invariant
            text.len() >= 2,
            i <= text.len() - 1,
            forall|at: int| 0 <= at < i ==> !opens_comment(text@, at),
        decreases text.len() - i,
    {
        if text[i] == '/' && (text[i + 1] == '/' || text[i + 1] == '*') {
            proof {
                assert(opens_comment(text@, i as int));
            }
            return true;
        }
        i += 1;
    }
    false
}

/// Whether `word` stands at `at` as a word of its own.
fn stands_at(text: &Vec<char>, word: &Vec<char>, at: usize) -> (stands: bool)
    requires
        at + word.len() <= text.len(),
    ensures
        stands == word_at(text@, word@, at as int),
{
    if at > 0 && is_word_character(text[at - 1]) {
        return false;
    }
    if at + word.len() < text.len() && is_word_character(text[at + word.len()]) {
        return false;
    }
    let mut k: usize = 0;
    while k < word.len()
        invariant
            k <= word.len(),
            at + word.len() <= text.len(),
            forall|j: int| 0 <= j < k ==> text@[at + j] == word@[j],
        decreases word.len() - k,
    {
        if text[at + k] != word[k] {
            proof {
                assert(text@.subrange(at as int, at + word.len())[k as int] != word@[k as int]);
            }
            return false;
        }
        k += 1;
    }
    proof {
        assert(text@.subrange(at as int, at + word.len()) =~= word@);
    }
    true
}

/// Whether `word` stands somewhere in the text as a word of its own.
fn finds_word(text: &Vec<char>, word: &Vec<char>) -> (found: bool)
    ensures
        found == has_word(text@, word@),
{
    if word.len() > text.len() {
        return false;
    }
    let last = text.len() - word.len();
    let mut at: usize = 0;
    loop
        invariant
            last == text.len() - word.len(),
            at <= last,
            forall|earlier: int| 0 <= earlier < at ==> !word_at(text@, word@, earlier),
        decreases last - at,
    {
        if stands_at(text, word, at) {
            return true;
        }
        if at == last {
            return false;
        }
        at += 1;
    }
}

/// Whether the characters of `word` all stand in the text in their order.
fn finds_scattered(text: &Vec<char>, word: &Vec<char>) -> (found: bool)
    ensures
        found == has_scattered(text@, word@),
{
    let mut count: usize = 0;
    let mut i: usize = 0;
    proof {
        assert(text@.take(0) =~= Seq::<char>::empty());
    }
    while i < text.len()
        invariant
            i <= text.len(),
            count <= word.len(),
            count == found_in_order(word@, text@.take(i as int)),
        decreases text.len() - i,
    {
        proof {
            assert(text@.take(i + 1).drop_last() =~= text@.take(i as int));
            assert(text@.take(i + 1).last() == text@[i as int]);
        }
        if count < word.len() && text[i] == word[count] {
            count += 1;
        }
        i += 1;
    }
    proof {
        assert(text@.take(text.len() as int) =~= text@);
    }
    count == word.len()
}

/// Whether the text can name `word`.
fn names(text: &Vec<char>, commented: bool, word: &str) -> (named: bool)
    requires
        commented == has_comment(text@),
    ensures
        named == can_name(text@, word@),
{
    let word = characters(word);
    if commented {
        finds_scattered(text, &word)
    } else {
        finds_word(text, &word)
    }
}

/// Whether an expression is handed to `evalexpr`.
pub fn is_guarded_expression(expression: &str) -> (guarded: bool)
    ensures
        guarded == is_guarded(expression@),
{
    let text = characters(expression);
    let commented = finds_comment(&text);
    !names(&text, commented, "shl") && !names(&text, commented, "shr") && !names(
        &text,
        commented,
        "math::abs",
    ) && !names(&text, commented, "str::substring")
}

} // verus!
