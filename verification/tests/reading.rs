use xml_splitter::{read_events, EventKind, XmlEvent};

#[test]
fn reads_a_small_document() {
    let events = read_events(b"<a x=\"1\">t&amp;u</a>");
    assert_eq!(
        events,
        vec![
            XmlEvent::new(EventKind::Start, b"a x=\"1\"".to_vec()),
            XmlEvent::new(EventKind::Text, b"t&amp;u".to_vec()),
            XmlEvent::new(EventKind::End, b"a".to_vec()),
            XmlEvent::new(EventKind::Eof, Vec::new()),
        ]
    );
    assert_eq!(events[0].name(), b"a".to_vec());
}

#[test]
fn reading_stops_at_the_first_failure() {
    let events = read_events(b"<a></b><c/>");
    assert_eq!(
        events,
        vec![
            XmlEvent::new(EventKind::Start, b"a".to_vec()),
            XmlEvent::new(EventKind::Failure, Vec::new()),
        ]
    );
}

#[test]
fn every_kind_of_markup_is_told_apart() {
    let events = read_events(b"<?xml version=\"1.0\"?><!DOCTYPE r><r><!--c--><![CDATA[d]]><?p i?><e/></r>");
    let kinds: Vec<EventKind> = events.iter().map(|e| e.kind).collect();
    assert_eq!(
        kinds,
        vec![
            EventKind::Declaration,
            EventKind::DocType,
            EventKind::Start,
            EventKind::Comment,
            EventKind::CData,
            EventKind::ProcessingInstruction,
            EventKind::Empty,
            EventKind::End,
            EventKind::Eof,
        ]
    );
}
