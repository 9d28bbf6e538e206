//! The XML events that the descriptor of an agile-encrypted document is read from.

use quick_xml::events::attributes::Attribute;
use quick_xml::events::Event;
use vstd::prelude::*;

verus! {

/// One attribute of an element, as it stands in the text, or the sign that the attributes could
/// not be read there.
#[derive(Debug)]
pub enum XmlAttribute {
    Pair { key: Vec<u8>, value: Vec<u8> },
    Malformed,
}

/// One event of reading an XML text.
#[derive(Debug)]
pub enum XmlEvent {
    /// A self-closing element.
    Empty { name: Vec<u8>, attributes: Vec<XmlAttribute> },
    /// Any other piece of the text.
    Other,
    /// The end of the text.
    Eof,
    /// A place at which the text is not XML.
    Malformed,
}

/// What an [`XmlAttribute`] says, as a mathematical value.
#[verifier::ext_equal]
pub enum AttributeView {
    Pair { key: Seq<u8>, value: Seq<u8> },
    Malformed,
}

/// What an [`XmlEvent`] says, as a mathematical value.
#[verifier::ext_equal]
pub enum EventView {
    Empty { name: Seq<u8>, attributes: Seq<AttributeView> },
    Other,
    Eof,
    Malformed,
}

impl View for XmlAttribute {
    type V = AttributeView;

    open spec fn view(&self) -> AttributeView {
        match self {
            XmlAttribute::Pair { key, value } => AttributeView::Pair { key: key@, value: value@ },
            XmlAttribute::Malformed => AttributeView::Malformed,
        }
    }
}

/// The views of attributes, in order.
pub open spec fn attribute_views(attributes: Seq<XmlAttribute>) -> Seq<AttributeView> {
    attributes.map_values(|attribute: XmlAttribute| attribute@)
}

impl View for XmlEvent {
    type V = EventView;

    open spec fn view(&self) -> EventView {
        match self {
            XmlEvent::Empty { name, attributes } => EventView::Empty {
                name: name@,
                attributes: attribute_views(attributes@),
            },
            XmlEvent::Other => EventView::Other,
            XmlEvent::Eof => EventView::Eof,
            XmlEvent::Malformed => EventView::Malformed,
        }
    }
}

/// The views of events, in order.
pub open spec fn event_views(events: Seq<XmlEvent>) -> Seq<EventView> {
    events.map_values(|event: XmlEvent| event@)
}

/// The reader of the `quick_xml` crate.
#[verifier::external_type_specification]
#[verifier::external_body]
#[verifier::reject_recursive_types(R)]
pub struct ExReader<R>(quick_xml::Reader<R>);

/// The events that `read_event` hands out from the place and the state of a `quick_xml` reader on,
/// up to and including the first that is the end of the text or a place at which the text is not
/// XML. A reader that has come to the end of its text stays there, and hands it out again.
pub uninterp spec fn pending_events(reader: quick_xml::Reader<&[u8]>) -> Seq<EventView>;

/// The events that a new `quick_xml` reader hands out for a text, up to and including the end of
/// the text or the first place at which it is not XML.
pub uninterp spec fn text_events(text: Seq<char>) -> Seq<EventView>;

/// Whether an event is the last one of a text.
pub open spec fn is_last(event: EventView) -> bool {
    event is Eof || event is Malformed
}

/// Whether events end with the end of the text or with a place that is not XML, and hold neither
/// before.
pub open spec fn ends_once(events: Seq<EventView>) -> bool {
    &&& events.len() > 0
    &&& is_last(events.last())
    &&& forall|i: int| 0 <= i < events.len() - 1 ==> !is_last(#[trigger] events[i])
}

/// Calls `quick_xml::Reader::from_str` and sets `trim_text`. Trusted: the events depend on the
/// text alone, and come to an end.
#[verifier::external_body]
fn open_text<'a>(text: &'a str) -> (reader: quick_xml::Reader<&'a [u8]>)
    ensures
        pending_events(reader) == text_events(text@),
        ends_once(pending_events(reader)),
{
    let mut reader = quick_xml::Reader::from_str(text);
    reader.config_mut().trim_text(true);
    reader
}

/// Calls `quick_xml::Reader::read_event`. Trusted: it hands out the first pending event, and the
/// others stay pending. Of the reader behind the last one nothing is said.
#[verifier::external_body]
fn next_event<'a>(reader: &mut quick_xml::Reader<&'a [u8]>) -> (event: XmlEvent)
    requires
        pending_events(*old(reader)).len() > 0,
    ensures
        event@ == pending_events(*old(reader))[0],
        !is_last(event@) ==> pending_events(*final(reader)) == pending_events(*old(reader)).skip(1),
{
    match reader.read_event() {
        Ok(Event::Empty(element)) => XmlEvent::Empty {
            name: element.name().as_ref().to_vec(),
            attributes: element.attributes().map(|a| match a {
                Ok(Attribute { key, value }) => XmlAttribute::Pair {
                    key: key.as_ref().to_vec(),
                    value: value.into_owned(),
                },
                Err(_) => XmlAttribute::Malformed,
            }).collect(),
        },
        Ok(Event::Eof) => XmlEvent::Eof,
        Ok(_) => XmlEvent::Other,
        Err(_) => XmlEvent::Malformed,
    }
}

/// All events of reading `text`, up to and including the end of the text or the first place at
/// which it is not XML.
pub fn read_events(text: &str) -> (events: Vec<XmlEvent>)
    ensures
        event_views(events@) == text_events(text@),
        ends_once(event_views(events@)),
{
    let mut reader = open_text(text);
    let mut events: Vec<XmlEvent> = Vec::new();
    let mut ended: bool = false;
    assert(event_views(events@) + pending_events(reader) =~= text_events(text@));
    while !ended
        invariant
            ends_once(text_events(text@)),
            ended ==> event_views(events@) == text_events(text@),
            !ended ==> event_views(events@) + pending_events(reader) == text_events(text@),
            !ended ==> pending_events(reader).len() > 0,
        decreases
            text_events(text@).len() - events@.len() + (if ended {
                0int
            } else {
                1int
            }),
    {
        let ghost before = events@;
        let ghost pending = pending_events(reader);
        let event = next_event(&mut reader);
        assert(text_events(text@)[before.len() as int] == pending[0]);
        ended = matches!(event, XmlEvent::Eof | XmlEvent::Malformed);
        events.push(event);
        assert(event_views(events@) =~= event_views(before).push(pending[0]));
        if ended {
            assert(pending.len() == 1);
            assert(event_views(events@) =~= text_events(text@));
        } else {
            assert(event_views(events@) + pending_events(reader) =~= event_views(before) + pending);
        }
    }
    events
}

/// The views of events stand for them one by one, with every name, key and value as it is.
pub proof fn law_event_views(events: Seq<XmlEvent>, i: int)
    requires
        0 <= i < events.len(),
    ensures
        event_views(events).len() == events.len(),
        events[i] is Other <==> event_views(events)[i] is Other,
        events[i] is Eof <==> event_views(events)[i] is Eof,
        events[i] is Malformed <==> event_views(events)[i] is Malformed,
        events[i] matches XmlEvent::Empty { name, attributes } ==> (
        event_views(events)[i] matches EventView::Empty { name: n, attributes: a } && n == name@
            && a.len() == attributes@.len() && forall|k: int|
            0 <= k < a.len() ==> #[trigger] a[k] == (match attributes@[k] {
                XmlAttribute::Pair { key, value } => AttributeView::Pair {
                    key: key@,
                    value: value@,
                },
                XmlAttribute::Malformed => AttributeView::Malformed,
            })),
{
}

} // verus!
