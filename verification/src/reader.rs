//! Reading a document: the events that `quick_xml` finds in its bytes, one after the other.
use vstd::prelude::*;
use quick_xml::events::Event;
use quick_xml::reader::Reader;
use crate::event::{event_views, is_terminal, EventKind, EventView, XmlEvent};

verus! {

#[verifier::external_type_specification]
#[verifier::external_body]
#[verifier::reject_recursive_types(R)]
pub struct ExReader<R>(Reader<R>);

/// What a new reader over `input` gives, read after read, up to and including the first
/// end of document or failure.
pub uninterp spec fn document_events(input: Seq<u8>) -> Seq<EventView>;

/// What the reader gives from now on, read after read, up to and including the first end
/// of document or failure.
pub uninterp spec fn pending_events(reader: Reader<&[u8]>) -> Seq<EventView>;

/// `quick_xml::reader::Reader::from_reader` on a byte slice: a reader that has all the
/// events of the document to give.
#[verifier::external_body]
pub(crate) fn open_reader<'a>(input: &'a [u8]) -> (reader: Reader<&'a [u8]>)
    ensures
        pending_events(reader) == document_events(input@),
{
    Reader::from_reader(input)
}

/// `quick_xml::reader::Reader::read_event` on a byte slice: hands out the next event, with the
/// bytes that `quick_xml` holds for it, or `Failure` for an error. The reader always has
/// an event to give; the end of the document or a failure is the last of them, and after
/// any other event the reader has the rest to give.
#[verifier::external_body]
pub(crate) fn read_next(reader: &mut Reader<&[u8]>) -> (event: XmlEvent)
    ensures
        pending_events(*old(reader)).len() > 0,
        event@ == pending_events(*old(reader))[0],
        is_terminal(event.kind) <==> pending_events(*old(reader)).len() == 1,
        !is_terminal(event.kind) ==> pending_events(*final(reader)) == pending_events(
            *old(reader),
        ).drop_first(),
{
    let Ok(event) = reader.read_event() else { return XmlEvent { kind: EventKind::Failure, content: Vec::new() }; };
    let kind = match &event {
        Event::Decl(_) => EventKind::Declaration,
        Event::Start(_) => EventKind::Start,
        Event::End(_) => EventKind::End,
        Event::Empty(_) => EventKind::Empty,
        Event::Text(_) => EventKind::Text,
        Event::CData(_) => EventKind::CData,
        Event::Comment(_) => EventKind::Comment,
        Event::PI(_) => EventKind::ProcessingInstruction,
        Event::DocType(_) => EventKind::DocType,
        Event::Eof => EventKind::Eof,
    };
    XmlEvent { kind, content: event.to_vec() }
}

/// Reads the whole document: every event up to and including the end of the document or
/// the first failure.
pub fn read_events(input: &[u8]) -> (events: Vec<XmlEvent>)
    ensures
        event_views(events@) == document_events(input@),
{
    let mut reader = open_reader(input);
    let mut events: Vec<XmlEvent> = Vec::new();
    proof {
        assert(event_views(events@) + pending_events(reader) =~= document_events(input@));
    }
    loop
        invariant
            event_views(events@) + pending_events(reader) == document_events(input@),
        decreases pending_events(reader).len(),
    {
        let ghost before = pending_events(reader);
        let ghost sofar = event_views(events@);
        let event = read_next(&mut reader);
        let done = event.kind == EventKind::Eof || event.kind == EventKind::Failure;
        events.push(event);
        proof {
            assert(event_views(events@) =~= sofar.push(event@));
            assert(sofar.push(event@) + before.drop_first() =~= sofar + before);
        }
        if done {
            proof {
                assert(before.drop_first() =~= Seq::empty());
                assert(sofar.push(event@) + before.drop_first() =~= sofar.push(event@));
            }
            return events;
        }
    }
}

} // verus!
