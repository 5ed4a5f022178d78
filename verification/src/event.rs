//! XML events as plain values: a kind and the bytes that the markup holds.
use vstd::prelude::*;

verus! {

/// What an event is.
#[derive(Clone, Copy, Debug, PartialEq, Eq, Structural)]
pub enum EventKind {
    /// The XML declaration, `<?xml ...?>`.
    Declaration,
    /// A start tag, `<name attributes>`.
    Start,
    /// An end tag, `</name>`.
    End,
    /// An empty-element tag, `<name attributes/>`.
    Empty,
    /// Character data between tags, still escaped.
    Text,
    /// A `<![CDATA[...]]>` section.
    CData,
    /// A comment, `<!--...-->`.
    Comment,
    /// A processing instruction, `<?...?>`.
    ProcessingInstruction,
    /// A document type declaration, `<!DOCTYPE ...>`.
    DocType,
    /// The end of the document.
    Eof,
    /// The document could not be read further.
    Failure,
}

/// One event: its kind, and the bytes between the delimiters of its markup.
#[derive(Clone, Debug, PartialEq, Eq)]
pub struct XmlEvent {
    pub kind: EventKind,
    pub content: Vec<u8>,
}

/// An event as a mathematical value.
pub struct EventView {
    pub kind: EventKind,
    pub content: Seq<u8>,
}

impl View for XmlEvent {
    type V = EventView;

    open spec fn view(&self) -> EventView {
        EventView { kind: self.kind, content: self.content@ }
    }
}

/// Whether a byte is XML white space: blank, tab, line feed or carriage return.
pub open spec fn is_space(byte: u8) -> bool {
    byte == 0x20 || byte == 0x09 || byte == 0x0a || byte == 0x0d
}

/// The number of bytes before the first white space byte.
pub open spec fn name_length(content: Seq<u8>) -> nat
    decreases content.len(),
{
    if content.len() == 0 || is_space(content[0]) {
        0
    } else {
        1 + name_length(content.drop_first())
    }
}

/// The name in the content of a tag: the bytes before the first white space.
pub open spec fn element_name(content: Seq<u8>) -> Seq<u8> {
    content.take(name_length(content) as int)
}

/// Whether an event ends a document.
pub open spec fn is_terminal(kind: EventKind) -> bool {
    kind == EventKind::Eof || kind == EventKind::Failure
}

/// The views of a list of events.
pub open spec fn event_views(events: Seq<XmlEvent>) -> Seq<EventView> {
    Seq::new(events.len(), |i: int| events[i]@)
}

/// The views of a list with one more event.
pub proof fn lemma_event_views_push(events: Seq<XmlEvent>, event: XmlEvent)
    ensures
        event_views(events.push(event)) == event_views(events).push(event@),
{
    assert(event_views(events.push(event)) =~= event_views(events).push(event@));
}

/// The views of two lists, one after the other.
pub proof fn lemma_event_views_add(first: Seq<XmlEvent>, second: Seq<XmlEvent>)
    ensures
        event_views(first + second) == event_views(first) + event_views(second),
{
    assert(event_views(first + second) =~= event_views(first) + event_views(second));
}

pub proof fn lemma_name_length(content: Seq<u8>)
    ensures
        name_length(content) <= content.len(),
        forall|i: int| 0 <= i < name_length(content) ==> !is_space(#[trigger] content[i]),
        name_length(content) < content.len() ==> is_space(content[name_length(content) as int]),
    decreases content.len(),
{
    if content.len() > 0 && !is_space(content[0]) {
        let rest = content.drop_first();
        lemma_name_length(rest);
        assert forall|i: int| 0 <= i < name_length(content) implies !is_space(
            #[trigger] content[i],
        ) by {
            if i > 0 {
                assert(content[i] == rest[i - 1]);
            }
        }
        if name_length(content) < content.len() {
            assert(content[name_length(content) as int] == rest[name_length(rest) as int]);
        }
    }
}

/// A position with white space at it and none before it is where the name ends.
pub proof fn lemma_name_length_is(content: Seq<u8>, end: int)
    requires
        0 <= end <= content.len(),
        forall|i: int| 0 <= i < end ==> !is_space(#[trigger] content[i]),
        end < content.len() ==> is_space(content[end]),
    ensures
        name_length(content) == end,
{
    lemma_name_length(content);
    let found = name_length(content) as int;
    if found < end {
        assert(!is_space(content[found]));
    }
    if end < found {
        assert(!is_space(content[end]));
    }
}

impl XmlEvent {
    /// An event of the given kind and content.
    pub fn new(kind: EventKind, content: Vec<u8>) -> (event: XmlEvent)
        ensures
            event@ == (EventView { kind, content: content@ }),
    {
        XmlEvent { kind, content }
    }

    /// A copy of the event.
    pub fn duplicate(&self) -> (copy: XmlEvent)
        ensures
            copy@ == self@,
    {
        let mut content: Vec<u8> = Vec::new();
        let mut i: usize = 0;
        while i < self.content.len()
            invariant
                i <= self.content.len(),
                content@ == self.content@.take(i as int),
            decreases self.content.len() - i,
        {
            content.push(self.content[i]);
            proof {
                assert(content@ =~= self.content@.take(i + 1));
            }
            i += 1;
        }
        proof {
            assert(content@ =~= self.content@);
        }
        XmlEvent { kind: self.kind, content }
    }

    /// The name of the element that a tag opens or closes: the content before its first
    /// white space.
    pub fn name(&self) -> (name: Vec<u8>)
        ensures
            name@ == element_name(self.content@),
    {
        let mut name: Vec<u8> = Vec::new();
        let mut i: usize = 0;
        while i < self.content.len() && !is_space_byte(self.content[i])
            invariant
                i <= self.content.len(),
                name@ == self.content@.take(i as int),
                forall|j: int| 0 <= j < i ==> !is_space(#[trigger] self.content@[j]),
            decreases self.content.len() - i,
        {
            name.push(self.content[i]);
            proof {
                assert(name@ =~= self.content@.take(i + 1));
            }
            i += 1;
        }
        proof {
            lemma_name_length_is(self.content@, i as int);
        }
        name
    }
}

/// Whether a byte is XML white space.
pub fn is_space_byte(byte: u8) -> (space: bool)
    ensures
        space == is_space(byte),
{
    byte == 0x20 || byte == 0x09 || byte == 0x0a || byte == 0x0d
}

} // verus!
