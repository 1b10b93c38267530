use vstd::prelude::*;
use vstd::utf8::{decode_utf8, valid_utf8};
use quick_xml::events::attributes::AttrError;
use quick_xml::events::Event;
use quick_xml::Reader;

verus! {

// The `quick_xml` and `std` types that the transcript reader holds, opaque.

#[verifier::external_type_specification]
#[verifier::external_body]
#[verifier::reject_recursive_types(R)]
pub struct ExReader<R>(Reader<R>);

#[verifier::external_type_specification]
#[verifier::external_body]
pub struct ExXmlError(quick_xml::Error);

#[verifier::external_type_specification]
#[verifier::external_body]
pub struct ExAttrError(AttrError);

#[verifier::external_type_specification]
#[verifier::external_body]
pub struct ExUtf8Error(core::str::Utf8Error);

/// The derived `Clone` of `quick_xml::Error`: a copy of the error. The
/// error is opaque here, so nothing is stated of it.
pub assume_specification[<quick_xml::Error as Clone>::clone](e: &quick_xml::Error) -> quick_xml::Error;

/// The derived `Clone` of `AttrError`: a copy of the error. The error is
/// opaque here, so nothing is stated of it.
pub assume_specification[<AttrError as Clone>::clone](e: &AttrError) -> AttrError;

/// An event of the XML reader, in plain values: a start tag with its raw
/// name and its attributes (raw key and raw value bytes, or the error met
/// there, in the order written), a text with its escapes resolved (or the
/// error met resolving them), the end of the input, another kind of event,
/// or the error that stopped the reader.
pub enum XmlEvent {
    Start { name: Vec<u8>, attributes: Vec<Result<(Vec<u8>, Vec<u8>), AttrError>> },
    Text(Result<String, quick_xml::Error>),
    Eof,
    Other,
    Error(quick_xml::Error),
}

/// What an [`XmlEvent`] holds: a failed attribute or text is `None`.
pub enum EventView {
    Start { name: Seq<u8>, attributes: Seq<Option<(Seq<u8>, Seq<u8>)>> },
    Text(Option<Seq<char>>),
    Eof,
    Other,
    Error,
}

impl EventView {
    /// The reader gives nothing after this event.
    pub open spec fn is_terminal(self) -> bool {
        self is Eof || self is Error
    }
}

/// An attribute as raw key and value bytes, or `None` where it failed.
pub open spec fn attribute_view(a: Result<(Vec<u8>, Vec<u8>), AttrError>) -> Option<(Seq<u8>, Seq<u8>)> {
    match a {
        Ok((k, v)) => Some((k@, v@)),
        Err(_) => None,
    }
}

impl View for XmlEvent {
    type V = EventView;

    open spec fn view(&self) -> EventView {
        match self {
            XmlEvent::Start { name, attributes } => EventView::Start {
                name: name@,
                attributes: attributes@.map_values(|a: Result<(Vec<u8>, Vec<u8>), AttrError>| attribute_view(a)),
            },
            XmlEvent::Text(Ok(s)) => EventView::Text(Some(s@)),
            XmlEvent::Text(Err(_)) => EventView::Text(None),
            XmlEvent::Eof => EventView::Eof,
            XmlEvent::Other => EventView::Other,
            XmlEvent::Error(_) => EventView::Error,
        }
    }
}

impl XmlEvent {
    /// Whether this is the end of the input or the error that stopped the reader.
    pub fn is_terminal(&self) -> (r: bool)
        ensures
            r == self@.is_terminal(),
    {
        match self {
            XmlEvent::Eof => true,
            XmlEvent::Error(_) => true,
            _ => false,
        }
    }
}

/// The views of a run of events.
pub open spec fn events_view(events: Seq<XmlEvent>) -> Seq<EventView> {
    events.map_values(|e: XmlEvent| e@)
}

/// A run of events that ends with its first end of input or error.
pub open spec fn ends_at_first_stop(events: Seq<EventView>) -> bool {
    &&& events.len() > 0
    &&& events.last().is_terminal()
    &&& forall|i: int| 0 <= i < events.len() - 1 ==> !(#[trigger] events[i]).is_terminal()
}

/// The events that `quick_xml`'s reader, made by `Reader::from_str` with its
/// default settings, gives for `xml` through `read_event`, up to and
/// including the first end of input or error.
pub uninterp spec fn xml_events(xml: Seq<char>) -> Seq<EventView>;

/// The events that a reader gives from its present state through
/// `read_event`, up to and including the first end of input or error.
pub uninterp spec fn unread_events(reader: Reader<&[u8]>) -> Seq<EventView>;

/// `quick_xml::Reader::from_str`: a reader over `xml`, with nothing read
/// yet. Its events are those of the document, and on a finite input it
/// comes to the end of the input or to an error.
#[verifier::external_body]
pub(crate) fn xml_reader<'a>(xml: &'a str) -> (r: Reader<&'a [u8]>)
    ensures
        unread_events(r) == xml_events(xml@),
        ends_at_first_stop(unread_events(r)),
{
    Reader::from_str(xml)
}

/// `quick_xml::Reader::read_event`: the reader's next event, taken apart
/// into plain values (`BytesStart::name` and `BytesStart::attributes` of a
/// start tag, `BytesText::unescape` of a text). After an event that is not
/// the end or an error, the reader's further events are the rest of those
/// it had; after the end or an error nothing is stated of it.
#[verifier::external_body]
pub(crate) fn next_event(reader: &mut Reader<&[u8]>) -> (r: XmlEvent)
    ensures
        unread_events(*old(reader)).len() > 0 ==> r@ == unread_events(*old(reader))[0],
        unread_events(*old(reader)).len() > 0 && !r@.is_terminal() ==> unread_events(*final(reader))
            == unread_events(*old(reader)).drop_first(),
{
    match reader.read_event() {
        Ok(Event::Start(e)) => XmlEvent::Start {
            name: e.name().as_ref().to_vec(),
            attributes: e.attributes().map(|a| a.map(|a| (a.key.as_ref().to_vec(), a.value.into_owned()))).collect(),
        },
        Ok(Event::Text(t)) => XmlEvent::Text(t.unescape().map(|s| s.into_owned())),
        Ok(Event::Eof) => XmlEvent::Eof,
        Ok(_) => XmlEvent::Other,
        Err(e) => XmlEvent::Error(e),
    }
}

/// `std::str::from_utf8`: succeeds exactly on valid UTF-8, and then gives
/// the characters that the bytes encode.
#[verifier::external_body]
pub(crate) fn utf8_text(bytes: &Vec<u8>) -> (r: Result<String, core::str::Utf8Error>)
    ensures
        r is Ok <==> valid_utf8(bytes@),
        r matches Ok(s) ==> s@ == decode_utf8(bytes@),
{
    match std::str::from_utf8(bytes) {
        Ok(s) => Ok(s.to_string()),
        Err(e) => Err(e),
    }
}

/// All the events of `xml`, read until the end of the input or the first
/// error, which is the last of them.
pub fn read_events(xml: &str) -> (r: Vec<XmlEvent>)
    ensures
        events_view(r@) == xml_events(xml@),
{
    let mut reader = xml_reader(xml);
    let ghost all = xml_events(xml@);
    let mut events: Vec<XmlEvent> = Vec::new();
    loop
        invariant
            all == xml_events(xml@),
            all == events_view(events@) + unread_events(reader),
            ends_at_first_stop(unread_events(reader)),
        decreases unread_events(reader).len(),
    {
        let ghost before = unread_events(reader);
        let ghost done = events@;
        let event = next_event(&mut reader);
        let stop = event.is_terminal();
        events.push(event);
        assert(events_view(events@) =~= events_view(done).push(before[0]));
        if stop {
            assert(before.len() == 1) by {
                if before.len() > 1 {
                    assert(!before[0].is_terminal());
                }
            }
            assert(all =~= events_view(events@));
            return events;
        }
        assert(all =~= events_view(events@) + unread_events(reader));
        assert forall|i: int| 0 <= i < unread_events(reader).len() - 1 implies !(
        #[trigger] unread_events(reader)[i]).is_terminal() by {
            assert(unread_events(reader)[i] == before[i + 1]);
        }
    }
}

} // verus!
