use xml_splitter::{read_events, serialize, serialize_text, write_event, EventKind, XmlEvent};

#[test]
fn each_kind_is_written_between_its_delimiters() {
    let cases: Vec<(EventKind, &[u8], &[u8])> = vec![
        (EventKind::Declaration, b"xml version=\"1.0\"", b"<?xml version=\"1.0\"?>"),
        (EventKind::Start, b"a x=\"1\"", b"<a x=\"1\">"),
        (EventKind::End, b"a", b"</a>"),
        (EventKind::Empty, b"a", b"<a/>"),
        (EventKind::Text, b"t&amp;u", b"t&amp;u"),
        (EventKind::CData, b"<d>", b"<![CDATA[<d>]]>"),
        (EventKind::Comment, b" c ", b"<!-- c -->"),
        (EventKind::ProcessingInstruction, b"p i", b"<?p i?>"),
        (EventKind::DocType, b"r", b"<!DOCTYPE r>"),
        (EventKind::Eof, b"", b""),
        (EventKind::Failure, b"x", b""),
    ];
    for (kind, content, expected) in cases {
        let mut out = b"#".to_vec();
        write_event(&mut out, &XmlEvent::new(kind, content.to_vec()));
        assert_eq!(out[1..].to_vec(), expected.to_vec());
        assert_eq!(out[0], b'#');
    }
}

#[test]
fn writing_what_was_read_gives_the_document_back() {
    let input: &[u8] = b"<?xml version=\"1.0\"?><!DOCTYPE r><r a=\"1\"><!--c--><![CDATA[d]]><?p i?><e/>t&lt;\n<f>\r\n</f></r>";
    assert_eq!(serialize(&read_events(input)), input.to_vec());
}

#[test]
fn text_is_given_only_for_utf8() {
    let good = vec![XmlEvent::new(EventKind::Text, "gr\u{fc}n".as_bytes().to_vec())];
    assert_eq!(serialize_text(&good), Some("gr\u{fc}n".to_string()));
    let bad = vec![XmlEvent::new(EventKind::Text, vec![0x67, 0xff])];
    assert_eq!(serialize_text(&bad), None);
    assert_eq!(serialize(&bad), vec![0x67, 0xff]);
}

#[test]
fn the_name_of_a_tag_ends_at_white_space() {
    assert_eq!(XmlEvent::new(EventKind::Start, b"a b=\"c\"".to_vec()).name(), b"a".to_vec());
    assert_eq!(XmlEvent::new(EventKind::Start, b"a\tb".to_vec()).name(), b"a".to_vec());
    assert_eq!(XmlEvent::new(EventKind::Start, b"a\nb".to_vec()).name(), b"a".to_vec());
    assert_eq!(XmlEvent::new(EventKind::Start, b"name".to_vec()).name(), b"name".to_vec());
    assert_eq!(XmlEvent::new(EventKind::Start, b"".to_vec()).name(), b"".to_vec());
    let event = XmlEvent::new(EventKind::Comment, b"c".to_vec());
    assert_eq!(event.duplicate(), event);
}
