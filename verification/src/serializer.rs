//! Writing events out: each event's bytes between the delimiters of its kind.
use vstd::prelude::*;
use crate::escape::{decoded, text_of_bytes};
use crate::event::{event_views, EventKind, EventView, XmlEvent};

verus! {

/// The bytes that open the markup of a kind.
pub open spec fn opening(kind: EventKind) -> Seq<u8> {
    match kind {
        EventKind::Start | EventKind::Empty => seq![0x3cu8],
        EventKind::End => seq![0x3cu8, 0x2f],
        EventKind::Comment => seq![0x3cu8, 0x21, 0x2d, 0x2d],
        EventKind::CData => seq![0x3cu8, 0x21, 0x5b, 0x43, 0x44, 0x41, 0x54, 0x41, 0x5b],
        EventKind::Declaration | EventKind::ProcessingInstruction => seq![0x3cu8, 0x3f],
        EventKind::DocType => seq![0x3cu8, 0x21, 0x44, 0x4f, 0x43, 0x54, 0x59, 0x50, 0x45, 0x20],
        EventKind::Text | EventKind::Eof | EventKind::Failure => Seq::empty(),
    }
}

/// The bytes that close the markup of a kind.
pub open spec fn closing(kind: EventKind) -> Seq<u8> {
    match kind {
        EventKind::Start | EventKind::End | EventKind::DocType => seq![0x3eu8],
        EventKind::Empty => seq![0x2fu8, 0x3e],
        EventKind::Comment => seq![0x2du8, 0x2d, 0x3e],
        EventKind::CData => seq![0x5du8, 0x5d, 0x3e],
        EventKind::Declaration | EventKind::ProcessingInstruction => seq![0x3fu8, 0x3e],
        EventKind::Text | EventKind::Eof | EventKind::Failure => Seq::empty(),
    }
}

/// The bytes of one event: its content between the delimiters of its kind. The end of a
/// document and a failure write nothing.
pub open spec fn event_bytes(event: EventView) -> Seq<u8> {
    if event.kind == EventKind::Eof || event.kind == EventKind::Failure {
        Seq::empty()
    } else {
        opening(event.kind) + event.content + closing(event.kind)
    }
}

/// The bytes of the events, one after the other.
pub open spec fn document_bytes(events: Seq<EventView>) -> Seq<u8>
    decreases events.len(),
{
    if events.len() == 0 {
        Seq::empty()
    } else {
        document_bytes(events.drop_last()) + event_bytes(events.last())
    }
}

/// Writes the bytes that open the markup of a kind.
fn write_opening(out: &mut Vec<u8>, kind: EventKind)
    ensures
        final(out)@ == old(out)@ + opening(kind),
{
    match kind {
        EventKind::Start | EventKind::Empty => {
            out.push(0x3c);
        },
        EventKind::End => {
            out.push(0x3c);
            out.push(0x2f);
        },
        EventKind::Comment => {
            out.push(0x3c);
            out.push(0x21);
            out.push(0x2d);
            out.push(0x2d);
        },
        EventKind::CData => {
            out.push(0x3c);
            out.push(0x21);
            out.push(0x5b);
            out.push(0x43);
            out.push(0x44);
            out.push(0x41);
            out.push(0x54);
            out.push(0x41);
            out.push(0x5b);
        },
        EventKind::Declaration | EventKind::ProcessingInstruction => {
            out.push(0x3c);
            out.push(0x3f);
        },
        EventKind::DocType => {
            out.push(0x3c);
            out.push(0x21);
            out.push(0x44);
            out.push(0x4f);
            out.push(0x43);
            out.push(0x54);
            out.push(0x59);
            out.push(0x50);
            out.push(0x45);
            out.push(0x20);
        },
        EventKind::Text | EventKind::Eof | EventKind::Failure => {},
    }
    proof {
        assert(out@ =~= old(out)@ + opening(kind));
    }
}

/// Writes the bytes that close the markup of a kind.
fn write_closing(out: &mut Vec<u8>, kind: EventKind)
    ensures
        final(out)@ == old(out)@ + closing(kind),
{
    match kind {
        EventKind::Start | EventKind::End | EventKind::DocType => {
            out.push(0x3e);
        },
        EventKind::Empty => {
            out.push(0x2f);
            out.push(0x3e);
        },
        EventKind::Comment => {
            out.push(0x2d);
            out.push(0x2d);
            out.push(0x3e);
        },
        EventKind::CData => {
            out.push(0x5d);
            out.push(0x5d);
            out.push(0x3e);
        },
        EventKind::Declaration | EventKind::ProcessingInstruction => {
            out.push(0x3f);
            out.push(0x3e);
        },
        EventKind::Text | EventKind::Eof | EventKind::Failure => {},
    }
    proof {
        assert(out@ =~= old(out)@ + closing(kind));
    }
}

/// Writes one event.
pub fn write_event(out: &mut Vec<u8>, event: &XmlEvent)
    ensures
        final(out)@ == old(out)@ + event_bytes(event@),
{
    match event.kind {
        EventKind::Eof | EventKind::Failure => {
            proof {
                assert(out@ =~= old(out)@ + event_bytes(event@));
            }
        },
        _ => {
            write_opening(out, event.kind);
            let mut i: usize = 0;
            let ghost opened = out@;
            proof {
                assert(opened + event.content@.take(0) =~= opened);
            }
            while i < event.content.len()
                invariant
                    i <= event.content.len(),
                    out@ == opened + event.content@.take(i as int),
                decreases event.content.len() - i,
            {
                out.push(event.content[i]);
                proof {
                    assert(out@ =~= opened + event.content@.take(i + 1));
                }
                i += 1;
            }
            proof {
                assert(event.content@.take(event.content.len() as int) =~= event.content@);
            }
            write_closing(out, event.kind);
            proof {
                assert(out@ =~= old(out)@ + event_bytes(event@));
            }
        },
    }
}

/// The bytes of a list of events.
pub fn serialize(events: &Vec<XmlEvent>) -> (bytes: Vec<u8>)
    ensures
        bytes@ == document_bytes(event_views(events@)),
{
    let mut bytes: Vec<u8> = Vec::new();
    let mut i: usize = 0;
    proof {
        assert(event_views(events@).take(0) =~= Seq::empty());
    }
    while i < events.len()
        invariant
            i <= events.len(),
            bytes@ == document_bytes(event_views(events@).take(i as int)),
        decreases events.len() - i,
    {
        proof {
            let views = event_views(events@);
            assert(views.take(i + 1).drop_last() =~= views.take(i as int));
            assert(views.take(i + 1).last() == events@[i as int]@);
        }
        write_event(&mut bytes, &events[i]);
        i += 1;
    }
    proof {
        assert(event_views(events@).take(events.len() as int) =~= event_views(events@));
    }
    bytes
}

/// The events written out as text, where their bytes are UTF-8.
pub fn serialize_text(events: &Vec<XmlEvent>) -> (text: Option<String>)
    ensures
        match text {
            Some(t) => decoded(document_bytes(event_views(events@))) == Some(t@),
            None => decoded(document_bytes(event_views(events@))) is None,
        },
{
    let bytes = serialize(events);
    text_of_bytes(&bytes)
}

} // verus!
