use ooxmlsdk_build::common::{
    as_escaped_xml_attribute, as_xml_attribute, expect_event_start, matches_tag,
    parse_bool_bytes, read_content_run, read_events, to_xml_bytes, to_xml_string, tokenize, xml_tag_end,
    xml_tag_start, SdkError, SliceReader, XmlEvent, XmlReader,
};

#[test]
fn boolean_vocabulary() {
    for t in ["true", "1", "True", "TRUE", "t", "Yes", "YES", "yes", "y"] {
        assert!(matches!(parse_bool_bytes(t.as_bytes()), Ok(true)), "{t}");
    }
    for f in ["false", "0", "False", "FALSE", "f", "No", "NO", "no", "n", ""] {
        assert!(matches!(parse_bool_bytes(f.as_bytes()), Ok(false)), "{f}");
    }
}

#[test]
fn a_text_that_is_no_truth_value_is_an_error() {
    match parse_bool_bytes(b"maybe") {
        Err(SdkError::CommonError(text)) => assert_eq!(text, "maybe"),
        other => panic!("{other:?}"),
    }
    assert!(parse_bool_bytes(b"tRUE").is_err());
    assert!(parse_bool_bytes(b" true").is_err());
}

#[test]
fn attribute_text() {
    assert_eq!(as_xml_attribute("w:val", "both"), " w:val=\"both\"");
    assert_eq!(as_xml_attribute("", ""), " =\"\"");
}

#[test]
fn attribute_values_are_escaped() {
    assert_eq!(
        as_escaped_xml_attribute("Target", "a&b<c>\"d'"),
        " Target=\"a&amp;b&lt;c&gt;&quot;d&apos;\""
    );
    assert_eq!(as_escaped_xml_attribute("k", "plain"), " k=\"plain\"");
}

#[test]
fn tags() {
    assert_eq!(xml_tag_start("w:body", None), "<w:body>");
    assert_eq!(xml_tag_start("body", Some(" a=\"1\"")), "<body a=\"1\">");
    assert_eq!(xml_tag_end("w:body"), "</w:body>");
}

#[test]
fn an_element_without_content_closes_itself() {
    assert_eq!(to_xml_string(false, "w:br", None, None), "<w:br/>");
    assert_eq!(to_xml_string(false, "w:br", Some(" a=\"1\""), Some("")), "<w:br a=\"1\"/>");
}

#[test]
fn an_element_with_content_has_both_tags() {
    assert_eq!(to_xml_string(false, "t", None, Some("x")), "<t>x</t>");
    assert_eq!(
        to_xml_string(true, "t", Some(" a=\"1\""), Some("x")),
        "<?xml version=\"1.0\" encoding=\"UTF-8\" standalone=\"yes\"?>\r\n<t a=\"1\">x</t>"
    );
    assert_eq!(to_xml_bytes(false, "t", None, Some("é")), "<t>é</t>".as_bytes().to_vec());
}

#[test]
fn tag_dual_matching() {
    assert!(matches_tag(b"w:body", b"w:body", b"body"));
    assert!(matches_tag(b"body", b"w:body", b"body"));
    assert!(!matches_tag(b"w:bodyx", b"w:body", b"body"));
    assert!(!matches_tag(b"a:body", b"w:body", b"body"));
    assert!(!matches_tag(b"", b"w:body", b"body"));
}

#[test]
fn tokenizer_gives_the_events_of_a_text() {
    let events = tokenize("<a x=\"1&amp;2\"><b/>text</a>");
    assert_eq!(events.len(), 5);
    match &events[0] {
        XmlEvent::Start(tag) => {
            assert_eq!(tag.name, b"a");
            assert_eq!(tag.attributes.len(), 1);
            let a = tag.attributes[0].as_ref().unwrap();
            assert_eq!(a.key, b"x");
            assert_eq!(a.value, b"1&amp;2");
            assert_eq!(a.unescaped.as_ref().unwrap(), "1&2");
        },
        other => panic!("{other:?}"),
    }
    assert!(matches!(&events[1], XmlEvent::Empty(tag) if tag.name == b"b"));
    assert!(matches!(&events[2], XmlEvent::Text(t) if t.raw == b"text" && t.decoded.as_deref() == Ok("text")));
    assert!(matches!(&events[3], XmlEvent::End(name) if name == b"a"));
    assert!(matches!(&events[4], XmlEvent::Eof));
}

#[test]
fn tokenizer_keeps_repeated_keys_apart() {
    let events = tokenize("<a k=\"1\" k=\"2\"/>");
    match &events[0] {
        XmlEvent::Empty(tag) => {
            assert_eq!(tag.attributes.len(), 2);
            assert!(tag.attributes[1].is_ok());
            assert_eq!(tag.checked_attributes.len(), 2);
            assert!(tag.checked_attributes[0].is_ok());
            assert!(tag.checked_attributes[1].is_err());
        },
        other => panic!("{other:?}"),
    }
}

#[test]
fn tokenizer_ends_at_a_refusal() {
    let events = tokenize("<a><b");
    assert!(matches!(events.last(), Some(XmlEvent::Failure(_))));
    assert!(matches!(&events[0], XmlEvent::Start(_)));
    let closing = tokenize("<a></b>");
    assert!(matches!(&closing[1], XmlEvent::End(name) if name == b"b"));
}

#[test]
fn the_expected_tag_is_found_behind_other_events() {
    let events = tokenize("<?xml version=\"1.0\"?><!-- c --><w:body/>");
    let (tag, empty, next) = expect_event_start(&events, 0, None, b"w:body", b"body").unwrap();
    assert_eq!(tag.name, b"w:body");
    assert!(empty);
    assert_eq!(next, 3);
}

#[test]
fn another_tag_is_a_mismatch() {
    let events = tokenize("<w:p/>");
    match expect_event_start(&events, 0, None, b"w:body", b"body") {
        Err(SdkError::MismatchError { expected, found }) => {
            assert_eq!(expected, "w:body OR body");
            assert_eq!(found, "w:p");
        },
        other => panic!("{other:?}"),
    }
}

#[test]
fn the_end_of_the_text_before_a_tag_is_an_error() {
    let events = tokenize("  <!-- nothing -->");
    assert!(matches!(
        expect_event_start(&events, 0, None, b"a", b"a"),
        Err(SdkError::UnknownError)
    ));
}

#[test]
fn a_tag_that_was_read_already_is_taken_as_it_is() {
    let events = tokenize("<x/><y/>");
    let tag = match &events[0] {
        XmlEvent::Empty(t) => t,
        other => panic!("{other:?}"),
    };
    let (got, empty, next) = expect_event_start(&events, 1, Some((tag, true)), b"a", b"a").unwrap();
    assert_eq!(got.name, b"x");
    assert!(empty);
    assert_eq!(next, 1);
}

struct Script {
    events: Vec<XmlEvent>,
}

impl XmlReader for Script {
    fn next(&mut self) -> Result<XmlEvent, SdkError> {
        if self.events.is_empty() {
            Err(SdkError::UnknownError)
        } else {
            Ok(self.events.remove(0))
        }
    }
}

#[test]
fn events_are_read_up_to_the_end_of_the_document() {
    let mut reader = Script { events: vec![XmlEvent::Other, XmlEvent::Eof, XmlEvent::Other] };
    let events = read_events(&mut reader, 10);
    assert_eq!(events.len(), 2);
    assert!(matches!(events[0], XmlEvent::Other));
    assert!(matches!(events[1], XmlEvent::Eof));
    assert_eq!(reader.events.len(), 1);
}

#[test]
fn a_refusal_of_the_reader_ends_the_events() {
    let mut reader = Script { events: vec![XmlEvent::Other] };
    let events = read_events(&mut reader, 10);
    assert_eq!(events.len(), 2);
    assert!(matches!(&events[1], XmlEvent::Failure(m) if m.is_empty()));
}

#[test]
fn no_more_events_are_read_than_the_budget_allows() {
    let mut reader = Script {
        events: vec![XmlEvent::Other, XmlEvent::Other, XmlEvent::Other, XmlEvent::Eof],
    };
    let events = read_events(&mut reader, 2);
    assert_eq!(events.len(), 3);
    assert!(matches!(events[0], XmlEvent::Other));
    assert!(matches!(events[1], XmlEvent::Other));
    assert!(matches!(events[2], XmlEvent::Failure(_)));
    let mut reader = Script { events: vec![XmlEvent::Other, XmlEvent::Other, XmlEvent::Eof] };
    let events = read_events(&mut reader, 2);
    assert_eq!(events.len(), 3);
    assert!(matches!(events[2], XmlEvent::Eof));
}

#[test]
fn a_slice_reader_hands_out_the_events_of_its_tokenizer() {
    let mut reader = SliceReader::new(quick_xml::Reader::from_str("<a><b/></a>"));
    assert!(matches!(reader.next(), Ok(XmlEvent::Start(t)) if t.name == b"a"));
    assert!(matches!(reader.next(), Ok(XmlEvent::Empty(t)) if t.name == b"b"));
    assert!(matches!(reader.next(), Ok(XmlEvent::End(name)) if name == b"a"));
    assert!(matches!(reader.next(), Ok(XmlEvent::Eof)));
    let mut broken = SliceReader::new(quick_xml::Reader::from_str("<a"));
    assert!(matches!(broken.next(), Err(SdkError::QuickXmlError(_))));
}

#[test]
fn a_text_ends_at_each_reference() {
    let events = tokenize("<a>x&amp;y&#65;</a>");
    assert_eq!(events.len(), 7);
    assert!(matches!(&events[1], XmlEvent::Text(t) if t.raw == b"x"));
    match &events[2] {
        XmlEvent::Reference(r) => {
            assert_eq!(r.raw, b"amp");
            assert_eq!(r.character, Ok(None));
        }
        other => panic!("{other:?}"),
    }
    assert!(matches!(&events[3], XmlEvent::Text(t) if t.raw == b"y"));
    match &events[4] {
        XmlEvent::Reference(r) => assert_eq!(r.character, Ok(Some('A'))),
        other => panic!("{other:?}"),
    }
    assert!(matches!(&events[5], XmlEvent::End(name) if name == b"a"));
    assert_eq!(read_content_run(&events, 1).unwrap(), "x&yA");
    assert_eq!(read_content_run(&events, 3).unwrap(), "yA");
    assert_eq!(read_content_run(&events, 5).unwrap(), "");
    assert_eq!(read_content_run(&events, 50).unwrap(), "");
}
