//! From bytes to text and back: UTF-8, and the escaping of XML's special characters.
use vstd::prelude::*;
use vstd::utf8::{decode_utf8, valid_utf8};

verus! {

/// The text that `bytes` encode; none where they are no UTF-8.
pub open spec fn decoded(bytes: Seq<u8>) -> Option<Seq<char>> {
    if valid_utf8(bytes) {
        Some(decode_utf8(bytes))
    } else {
        None
    }
}

/// What stands for one character in escaped text.
pub open spec fn escaped_char(c: char) -> Seq<char> {
    if c == '<' {
        "&lt;"@
    } else if c == '>' {
        "&gt;"@
    } else if c == '&' {
        "&amp;"@
    } else if c == '\'' {
        "&apos;"@
    } else if c == '"' {
        "&quot;"@
    } else {
        seq![c]
    }
}

/// The text with each of `<`, `>`, `&`, `'` and `"` replaced by its entity.
pub open spec fn escaped(text: Seq<char>) -> Seq<char>
    decreases text.len(),
{
    if text.len() == 0 {
        Seq::empty()
    } else {
        escaped(text.drop_last()) + escaped_char(text.last())
    }
}

/// The text with its entities and character references resolved, as
/// `quick_xml::escape::unescape` resolves them; none where it reports an error.
pub uninterp spec fn unescaped(text: Seq<char>) -> Option<Seq<char>>;

/// `String::from_utf8`: the text that the bytes encode, where they are UTF-8, and nothing
/// where they are not.
#[verifier::external_body]
pub(crate) fn decode_text(bytes: Vec<u8>) -> (text: Option<String>)
    ensures
        text is Some <==> valid_utf8(bytes@),
        text is Some ==> text->0@ == decode_utf8(bytes@),
{
    String::from_utf8(bytes).ok()
}

/// `quick_xml::escape::escape`: replaces the five special characters by their entities and
/// leaves every other character as it is.
#[verifier::external_body]
pub(crate) fn escape_text(text: &str) -> (result: String)
    ensures
        result@ == escaped(text@),
{
    quick_xml::escape::escape(text).into_owned()
}

/// `quick_xml::escape::unescape`: the text with entities resolved, or nothing where the
/// text holds an entity that is unknown, unterminated or no character.
#[verifier::external_body]
pub(crate) fn unescape_text(text: &str) -> (result: Option<String>)
    ensures
        match result {
            Some(plain) => unescaped(text@) == Some(plain@),
            None => unescaped(text@) is None,
        },
{
    match quick_xml::escape::unescape(text) {
        Ok(plain) => Some(plain.into_owned()),
        Err(_) => None,
    }
}

/// The text of the bytes, where they are UTF-8.
pub fn text_of_bytes(bytes: &Vec<u8>) -> (text: Option<String>)
    ensures
        match text {
            Some(t) => decoded(bytes@) == Some(t@),
            None => decoded(bytes@) is None,
        },
{
    decode_text(copy_bytes(bytes))
}

/// The plain text of escaped bytes: decoded, then unescaped.
pub open spec fn plain_text(bytes: Seq<u8>) -> Option<Seq<char>> {
    match decoded(bytes) {
        Some(text) => unescaped(text),
        None => None,
    }
}

/// Decodes escaped bytes and resolves their entities.
pub fn plain_text_of(bytes: &Vec<u8>) -> (text: Option<String>)
    ensures
        match text {
            Some(t) => plain_text(bytes@) == Some(t@),
            None => plain_text(bytes@) is None,
        },
{
    match text_of_bytes(bytes) {
        Some(raw) => unescape_text(raw.as_str()),
        None => None,
    }
}

/// A copy of the bytes.
pub fn copy_bytes(bytes: &Vec<u8>) -> (copy: Vec<u8>)
    ensures
        copy@ == bytes@,
{
    let mut copy: Vec<u8> = Vec::new();
    let mut i: usize = 0;
    while i < bytes.len()
        invariant
            i <= bytes.len(),
            copy@ == bytes@.take(i as int),
        decreases bytes.len() - i,
    {
        copy.push(bytes[i]);
        proof {
            assert(copy@ =~= bytes@.take(i + 1));
        }
        i += 1;
    }
    proof {
        assert(bytes@.take(bytes.len() as int) =~= bytes@);
    }
    copy
}

} // verus!
