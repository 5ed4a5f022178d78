//! The elements that wrap a value which a rule inserts or appends.
use vstd::prelude::*;
use vstd::string::*;
use vstd::utf8::encode_utf8;
use crate::escape::{escape_text, escaped};
use crate::event::{event_views, lemma_event_views_push, EventKind, EventView, XmlEvent};
use crate::text::{pieces, split_text, texts};

verus! {

/// The text event that writes `value`: its escaped form, in UTF-8.
pub open spec fn text_event(value: Seq<char>) -> EventView {
    EventView { kind: EventKind::Text, content: encode_utf8(escaped(value)) }
}

/// One tag of the given kind for each name.
pub open spec fn tags(names: Seq<Seq<char>>, kind: EventKind) -> Seq<EventView> {
    Seq::new(names.len(), |i: int| EventView { kind, content: encode_utf8(names[i]) })
}

/// The value inside the elements that `path` names: a start tag for each name of the
/// slash-separated path, the value as text, and the end tags in the opposite order.
pub open spec fn wrapped(value: Seq<char>, path: Seq<char>) -> Seq<EventView> {
    let names = pieces(path, '/');
    tags(names, EventKind::Start).push(text_event(value)) + tags(names.reverse(), EventKind::End)
}

/// The text event that writes `value`.
pub fn text_event_of(value: &String) -> (event: XmlEvent)
    ensures
        event@ == text_event(value@),
{
    let escaped_value = escape_text(value.as_str());
    XmlEvent { kind: EventKind::Text, content: escaped_value.as_str().as_bytes_vec() }
}

/// Wraps `value` in the elements that the slash-separated `path` names.
pub fn embed(value: String, path: String) -> (new_elements: Vec<XmlEvent>)
    ensures
        event_views(new_elements@) == wrapped(value@, path@),
{
    let names = split_text(path.as_str(), '/');
    let ghost all = pieces(path@, '/');
    let mut new_elements: Vec<XmlEvent> = Vec::new();
    let mut i: usize = 0;
    proof {
        assert(event_views(new_elements@) =~= tags(all, EventKind::Start).take(0));
    }
    while i < names.len()
        invariant
            i <= names.len(),
            texts(names@) == all,
            event_views(new_elements@) == tags(all, EventKind::Start).take(i as int),
        decreases names.len() - i,
    {
        let event = XmlEvent { kind: EventKind::Start, content: names[i].as_str().as_bytes_vec() };
        proof {
            lemma_event_views_push(new_elements@, event);
            assert(all[i as int] == names@[i as int]@);
            assert(tags(all, EventKind::Start).take(i as int).push(event@) =~= tags(
                all,
                EventKind::Start,
            ).take(i + 1));
        }
        new_elements.push(event);
        i += 1;
    }
    let text = text_event_of(&value);
    proof {
        lemma_event_views_push(new_elements@, text);
        assert(tags(all, EventKind::Start).take(names.len() as int) =~= tags(
            all,
            EventKind::Start,
        ));
    }
    new_elements.push(text);
    let ghost opened = tags(all, EventKind::Start).push(text_event(value@));
    let mut j: usize = names.len();
    proof {
        assert(opened + tags(all.reverse(), EventKind::End).take(0) =~= opened);
    }
    while j > 0
        invariant
            j <= names.len(),
            texts(names@) == all,
            event_views(new_elements@) == opened + tags(all.reverse(), EventKind::End).take(
                names.len() - j,
            ),
        decreases j,
    {
        j -= 1;
        let event = XmlEvent { kind: EventKind::End, content: names[j].as_str().as_bytes_vec() };
        proof {
            lemma_event_views_push(new_elements@, event);
            let closing = tags(all.reverse(), EventKind::End);
            assert(all.reverse()[names.len() - j - 1] == names@[j as int]@);
            assert((opened + closing.take(names.len() - j - 1)).push(event@) =~= opened
                + closing.take(names.len() - j));
        }
        new_elements.push(event);
    }
    proof {
        let closing = tags(all.reverse(), EventKind::End);
        assert(closing.take(names.len() as int) =~= closing);
    }
    new_elements
}

} // verus!
