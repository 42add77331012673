//! The element model: construction, validation, attributes, children,
//! text, and the serialize-parse round trip.

use confidante::xml::parser::{Frame, ParserEvent, StreamParser};
use confidante::xml::writer::StreamWriter;
use confidante::xml::Element;

#[test]
fn xml_validate_simple() {
    let element = Element::new("foo", Some("bar"));
    assert!(element.validate("foo", Some("bar")));
}

#[test]
fn xml_validate_different_name() {
    let element = Element::new("foo", Some("bar"));
    assert!(!element.validate("baz", Some("bar")));
}

#[test]
fn xml_validate_different_namespace() {
    let element = Element::new("foo", Some("bar"));
    assert!(!element.validate("foo", Some("baz")));
}

#[test]
fn xml_attribute_simple() {
    let mut element = Element::new("foo", Some("bar"));
    element.set_attribute("baz", None, "qux");
    assert_eq!(element.attribute("baz", None), Some("qux"));
}

#[test]
fn xml_attribute_missing() {
    let element = Element::new("foo", Some("bar"));
    assert_eq!(element.attribute("baz", None), None);
}

#[test]
fn xml_attribute_overwrite() {
    let mut element = Element::new("foo", Some("bar"));
    element.set_attribute("baz", None, "qux");
    element.set_attribute("baz", None, "overwritten");
    assert_eq!(element.attribute("baz", None), Some("overwritten"));
}

#[test]
fn child_single() {
    let mut parent = Element::new("foo", Some("bar"));
    let child = Element::new("baz", Some("qux"));
    parent.add_child(child);
    assert!(parent.find_child("baz", Some("qux")).is_some());
    assert!(parent
        .find_child("baz", Some("qux"))
        .unwrap()
        .validate("baz", Some("qux")));
}

#[test]
fn child_multiple() {
    let mut parent = Element::new("foo", Some("bar"));
    let child = Element::new("baz", Some("baz"));
    parent.add_child(child);
    let child = Element::new("qux", Some("qux"));
    parent.add_child(child);
    assert!(parent.find_child("qux", Some("qux")).is_some());
    assert!(parent
        .find_child("qux", Some("qux"))
        .unwrap()
        .validate("qux", Some("qux")));
}

#[test]
fn child_missing() {
    let parent = Element::new("foo", Some("bar"));
    assert!(parent.find_child("baz", Some("qux")).is_none());
}

#[test]
fn child_helper() {
    let mut parent = Element::new("foo", Some("bar"));
    parent.with_child("baz", Some("qux"), |mut child| {
        child.set_attribute("quux", None, "corge");
        child
    });
    assert!(parent.find_child("baz", Some("qux")).is_some());
    assert_eq!(
        parent
            .find_child("baz", Some("qux"))
            .unwrap()
            .attribute("quux", None),
        Some("corge")
    );
}

#[test]
fn text_simple() {
    let mut element = Element::new("foo", Some("bar"));
    element.add_text("baz");
    assert_eq!(element.text(), "baz");
}

#[test]
fn text_nested() {
    let mut parent = Element::new("foo", Some("bar"));
    parent.add_text("before");
    parent.with_child("baz", Some("qux"), |mut child| {
        child.add_text("inside");
        child
    });
    parent.add_text("after");
    assert_eq!(parent.text(), "beforeinsideafter");
}

#[test]
fn text_skips_comments_and_pis() {
    let mut element = Element::new("foo", None);
    element.add_text("a");
    element.add_comment("nope");
    element.add_processing_instruction("pi nope");
    element.add_cdata("b");
    assert_eq!(element.text(), "ab");
}

#[test]
fn writer_self_closing_element() {
    let mut writer = StreamWriter::new();
    let mut el = Element::new("message", Some("jabber:client"));
    el.set_attribute("xmlns", None, "jabber:client");
    let out = writer.write_xml_element(&el).unwrap();
    assert_eq!(out, "<message xmlns=\"jabber:client\"/>");
}

#[test]
fn writer_rejects_undeclared_namespace() {
    let mut writer = StreamWriter::new();
    let el = Element::new("message", Some("jabber:client"));
    assert!(writer.write_xml_element(&el).is_err());
}

#[test]
fn writer_nested_children_and_text() {
    let mut writer = StreamWriter::new();
    let mut el = Element::new("message", Some("jabber:client"));
    el.set_attribute("xmlns", None, "jabber:client");
    el.with_child("body", Some("jabber:client"), |mut body| {
        body.add_text("hello");
        body
    });
    let out = writer.write_xml_element(&el).unwrap();
    assert_eq!(out, "<message xmlns=\"jabber:client\"><body>hello</body></message>");
}

/// The executable law: serialize then parse gives the tree back.
#[test]
fn serialize_then_parse_returns_the_tree() {
    let mut el = Element::new("presence", Some("jabber:client"));
    el.set_attribute("xmlns", None, "jabber:client");
    el.with_child("status", Some("jabber:client"), |mut st| {
        st.add_text("gone fishing");
        st
    });
    let back = confidante::xml::round_trip::serialize_then_parse(&el).unwrap();
    assert!(back.validate("presence", Some("jabber:client")));
    assert_eq!(back.text(), "gone fishing");
}

fn stream_header() -> &'static str {
    "<stream:stream xmlns=\"jabber:client\" xmlns:stream=\"http://etherx.jabber.org/streams\" to=\"localhost\" version=\"1.0\">"
}

/// Serialize an element, feed the bytes through the streaming parser, and
/// serialize the parsed tree again: both byte strings must agree.
#[test]
fn element_round_trip_through_parser() {
    let mut writer = StreamWriter::new();
    let mut el = Element::new("message", Some("jabber:client"));
    el.set_attribute("xmlns", None, "jabber:client");
    el.set_attribute("type", None, "chat");
    el.with_child("body", Some("jabber:client"), |mut body| {
        body.add_text("round trip");
        body
    });
    el.add_comment("a comment");
    el.add_cdata("cdata <>& stuff");
    let out = writer.write_xml_element(&el).unwrap();

    let mut parser = StreamParser::new();
    parser.feed(stream_header());
    match parser.next_frame() {
        ParserEvent::Item(Frame::StreamStart(_)) => {}
        _ => panic!("expected the stream header"),
    }
    parser.feed(&out);
    let parsed = match parser.next_frame() {
        ParserEvent::Item(Frame::XmlFragment(e)) => e,
        _ => panic!("expected the fragment back"),
    };
    assert!(parsed.validate("message", Some("jabber:client")));
    assert_eq!(parsed.attribute("type", None), Some("chat"));
    assert_eq!(parsed.text(), "round tripcdata <>& stuff");
    let mut writer2 = StreamWriter::new();
    let out2 = writer2.write_xml_element(&parsed).unwrap();
    assert_eq!(out, out2);
}

/// Whitespace keep-alives between fragments are consumed silently.
#[test]
fn keepalive_whitespace_is_not_a_frame() {
    let mut parser = StreamParser::new();
    parser.feed(stream_header());
    match parser.next_frame() {
        ParserEvent::Item(Frame::StreamStart(_)) => {}
        _ => panic!("expected the stream header"),
    }
    parser.feed("   \n\t  <a xmlns=\"jabber:client\"/>");
    match parser.next_frame() {
        ParserEvent::Item(Frame::XmlFragment(e)) => {
            assert!(e.validate("a", Some("jabber:client")));
        }
        other => panic!("expected the fragment, got {}", kind_of(&other)),
    }
}

/// A peer's stream close yields the closed event, not a frame.
#[test]
fn stream_close_ends_the_stream() {
    let mut parser = StreamParser::new();
    parser.feed(stream_header());
    match parser.next_frame() {
        ParserEvent::Item(Frame::StreamStart(_)) => {}
        _ => panic!("expected the stream header"),
    }
    parser.feed("</stream:stream>");
    match parser.next_frame() {
        ParserEvent::Closed => {}
        other => panic!("expected the close, got {}", kind_of(&other)),
    }
}

/// An invalid first frame fails the stream.
#[test]
fn invalid_initial_frame_fails() {
    let mut parser = StreamParser::new();
    parser.feed("<iq type=\"get\">");
    match parser.next_frame() {
        ParserEvent::Failed => {}
        other => panic!("expected the failure, got {}", kind_of(&other)),
    }
}

/// An incomplete buffer asks for more input.
#[test]
fn incomplete_fragment_needs_more() {
    let mut parser = StreamParser::new();
    parser.feed(stream_header());
    match parser.next_frame() {
        ParserEvent::Item(Frame::StreamStart(_)) => {}
        _ => panic!("expected the stream header"),
    }
    parser.feed("<message xmlns=\"jabber:client\"><body>hal");
    match parser.next_frame() {
        ParserEvent::NeedMore => {}
        other => panic!("expected a demand for input, got {}", kind_of(&other)),
    }
    parser.feed("f</body></message>");
    match parser.next_frame() {
        ParserEvent::Item(Frame::XmlFragment(e)) => {
            assert_eq!(e.text(), "half");
        }
        other => panic!("expected the fragment, got {}", kind_of(&other)),
    }
}

/// The stream header's attributes are extracted.
#[test]
fn stream_header_fields_are_read() {
    let mut parser = StreamParser::new();
    parser.feed("<stream:stream xmlns=\"jabber:client\" xmlns:stream=\"http://etherx.jabber.org/streams\" to=\"localhost\" from=\"romeo@montague.example\" xml:lang=\"de\">");
    match parser.next_frame() {
        ParserEvent::Item(Frame::StreamStart(h)) => {
            assert_eq!(h.to.unwrap().as_text(), "localhost");
            assert_eq!(h.from.unwrap().as_text(), "romeo@montague.example");
            assert_eq!(h.language.unwrap().0, "de");
            assert!(h.id.is_none());
        }
        other => panic!("expected the stream header, got {}", kind_of(&other)),
    }
}

fn kind_of(ev: &ParserEvent) -> &'static str {
    match ev {
        ParserEvent::NeedMore => "need-more",
        ParserEvent::Item(Frame::StreamStart(_)) => "stream-start",
        ParserEvent::Item(Frame::XmlFragment(_)) => "fragment",
        ParserEvent::Closed => "closed",
        ParserEvent::Failed => "failed",
    }
}
