//! The XML reader of `quick_xml`, seen as a stream of events.
//!
//! Only the distinctions that the wallpaper logic draws are kept: an empty
//! element with its attributes, the end of the document, a reader error, and
//! every other event.
use vstd::prelude::*;
use quick_xml::events::Event;

verus! {

/// One attribute of an element, as the reader's attribute iterator yields it.
#[derive(Debug, PartialEq, Eq)]
pub enum AttributeItem {
    /// A well-formed `key="value"` pair; `value` holds the raw bytes, escape sequences kept.
    Parsed { key: Vec<u8>, value: Vec<u8> },
    /// The iterator reported a malformed or duplicated attribute.
    Malformed,
}

/// What one read of the XML reader produced.
#[derive(Debug, PartialEq, Eq)]
pub enum XmlEvent {
    /// A self-closing element `<name .../>` with its attributes in document order.
    Empty(Vec<AttributeItem>),
    /// The end of the document.
    Eof,
    /// The reader reported an error.
    Error,
    /// Any other event (start and end tags, text, comments, declarations, ...).
    Other,
}

/// The events of `events` other than `Other`, in order.
pub open spec fn significant_events(events: Seq<XmlEvent>) -> Seq<XmlEvent>
    decreases events.len(),
{
    if events.len() == 0 {
        events
    } else if events[0] is Other {
        significant_events(events.drop_first())
    } else {
        seq![events[0]] + significant_events(events.drop_first())
    }
}

/// A `quick_xml::Reader` over a borrowed document, held opaque;
/// `pending_xml_events` names what it will hand out.
#[verifier::external_body]
pub struct XmlEventReader<'a> {
    reader: quick_xml::Reader<&'a [u8]>,
}

/// The events that `quick_xml` produces for the document `text`, read by a
/// fresh `Reader::from_str` with default settings: every event up to and
/// including the first `Eof` or error.
pub uninterp spec fn xml_document_events(text: Seq<char>) -> Seq<XmlEvent>;

/// The events that the reader `reader` has still to hand out, up to and
/// including the first `Eof` or error; empty once one of those was handed out.
pub uninterp spec fn pending_xml_events(reader: XmlEventReader) -> Seq<XmlEvent>;

/// Calls `quick_xml::Reader::from_str`. The claim: the new reader will hand
/// out the events of `text` (a function of the text alone).
#[verifier::external_body]
pub(crate) fn xml_reader_from_str(text: &str) -> (reader: XmlEventReader)
    ensures
        pending_xml_events(reader) == xml_document_events(text@),
{
    XmlEventReader { reader: quick_xml::Reader::from_str(text) }
}

/// Calls `quick_xml::Reader::trim_text(true)`. The claim: trimming only
/// trims text events or drops whitespace-only ones, so the events other than
/// `Other` that the reader will hand out are unchanged.
#[verifier::external_body]
pub(crate) fn xml_reader_trim_text(reader: &mut XmlEventReader)
    ensures
        significant_events(pending_xml_events(*final(reader)))
            == significant_events(pending_xml_events(*old(reader))),
{
    reader.reader.trim_text(true);
}

/// Calls `quick_xml::Reader::read_event` and converts the event. The claim:
/// it hands out the first pending event and removes it; once nothing is
/// pending (after an end or an error) it answers `Eof`. The contents of
/// `buf` are not described.
#[verifier::external_body]
pub(crate) fn xml_reader_next_event(reader: &mut XmlEventReader, buf: &mut Vec<u8>) -> (event: XmlEvent)
    ensures
        pending_xml_events(*old(reader)).len() == 0 ==> {
            &&& event is Eof
            &&& pending_xml_events(*final(reader)).len() == 0
        },
        pending_xml_events(*old(reader)).len() > 0 ==> {
            &&& event == pending_xml_events(*old(reader))[0]
            &&& pending_xml_events(*final(reader)) == pending_xml_events(*old(reader)).drop_first()
        },
{
    match reader.reader.read_event(buf) {
        Ok(Event::Empty(e)) => XmlEvent::Empty(e.attributes().map(|a| match a {
            Ok(a) => AttributeItem::Parsed { key: a.key.to_vec(), value: a.value.into_owned() },
            Err(_) => AttributeItem::Malformed,
        }).collect()),
        Ok(Event::Eof) => XmlEvent::Eof,
        Ok(_) => XmlEvent::Other,
        Err(_) => XmlEvent::Error,
    }
}

} // verus!
