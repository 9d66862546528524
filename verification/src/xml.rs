//! Owned lexical events, as the tag state machine consumes them.
//!
//! The generic XML tokenizer is an external collaborator: the trusted
//! wrappers at the bottom of this module drive `quick_xml` and convert each
//! of its borrowed events into the owned, plain-value form defined here.
//! Everything that happens to an event after that conversion is verified.

use quick_xml::events::attributes::AttrError;
use quick_xml::events::attributes::Attribute;
use quick_xml::events::Event;
use quick_xml::reader::Reader;
use std::io::Cursor;
use vstd::prelude::*;

verus! {

/// One attribute as the tokenizer handed it over: a key/value pair, or a
/// syntax error in the attribute list, kept in order.
pub enum XmlAttr {
    Pair { key: Vec<u8>, value: Vec<u8> },
    Bad { msg: String },
}

/// Specification twin of [`XmlAttr`].
pub enum XmlAttrV {
    Pair { key: Seq<u8>, value: Seq<u8> },
    Bad { msg: Seq<char> },
}

impl View for XmlAttr {
    type V = XmlAttrV;

    open spec fn view(&self) -> XmlAttrV {
        match self {
            XmlAttr::Pair { key, value } => XmlAttrV::Pair { key: key@, value: value@ },
            XmlAttr::Bad { msg } => XmlAttrV::Bad { msg: msg@ },
        }
    }
}

/// One lexical event of the document.
pub enum XmlEvent {
    /// An opening tag with its attributes.
    Open { name: Vec<u8>, attrs: Vec<XmlAttr> },
    /// A self-closing tag with its attributes.
    Empty { name: Vec<u8>, attrs: Vec<XmlAttr> },
    /// A closing tag.
    Close { name: Vec<u8> },
    /// Character data between tags.
    Text { text: Vec<u8> },
    /// A general reference (`&name;`) inside character data.
    Reference { name: Vec<u8> },
    /// A tokenizing failure; reading continues after it.
    TokError { msg: String },
    /// An event kind the engine has no use for (declarations, comments,
    /// processing instructions, CDATA, document type).
    Other,
    /// End of the document.
    Eof,
}

/// Specification twin of [`XmlEvent`].
pub enum XmlEventV {
    Open { name: Seq<u8>, attrs: Seq<XmlAttrV> },
    Empty { name: Seq<u8>, attrs: Seq<XmlAttrV> },
    Close { name: Seq<u8> },
    Text { text: Seq<u8> },
    Reference { name: Seq<u8> },
    TokError { msg: Seq<char> },
    Other,
    Eof,
}

impl View for XmlEvent {
    type V = XmlEventV;

    open spec fn view(&self) -> XmlEventV {
        match self {
            XmlEvent::Open { name, attrs } => XmlEventV::Open {
                name: name@,
                attrs: attrs@.map_values(|a: XmlAttr| a@),
            },
            XmlEvent::Empty { name, attrs } => XmlEventV::Empty {
                name: name@,
                attrs: attrs@.map_values(|a: XmlAttr| a@),
            },
            XmlEvent::Close { name } => XmlEventV::Close { name: name@ },
            XmlEvent::Text { text } => XmlEventV::Text { text: text@ },
            XmlEvent::Reference { name } => XmlEventV::Reference { name: name@ },
            XmlEvent::TokError { msg } => XmlEventV::TokError { msg: msg@ },
            XmlEvent::Other => XmlEventV::Other,
            XmlEvent::Eof => XmlEventV::Eof,
        }
    }
}

/// Declares quick_xml's `Reader`, the tokenizer this crate drives.
#[verifier::external_type_specification]
#[verifier::external_body]
#[verifier::reject_recursive_types(R)]
pub struct ExReader<R>(Reader<R>);

/// Declares the standard library's `Cursor`, the in-memory byte stream
/// the tokenizer reads from.
#[verifier::external_type_specification]
#[verifier::external_body]
#[verifier::reject_recursive_types(T)]
pub struct ExCursor<T>(Cursor<T>);

/// Declares quick_xml's borrowed `Event`, carried between the read and
/// the conversion to the owned form.
#[verifier::external_type_specification]
#[verifier::external_body]
pub struct ExEvent<'a>(Event<'a>);

/// Declares quick_xml's `BytesStart`, the payload of an opening or
/// self-closing tag.
#[verifier::external_type_specification]
#[verifier::external_body]
pub struct ExBytesStart<'a>(quick_xml::events::BytesStart<'a>);

/// Relies on quick_xml's `read_event_into`: it yields the document's next
/// lexical event (`Eof` from the end of input onwards), or a description
/// of a tokenizing failure after which reading may continue.
#[verifier::external_body]
fn read_raw(reader: &mut Reader<Cursor<Vec<u8>>>) -> Result<Event<'static>, String> {
    let mut buf: Vec<u8> = Vec::new();
    reader.read_event_into(&mut buf).map(Event::into_owned).map_err(|e| e.to_string())
}

/// Relies on quick_xml's `BytesStart`: its `name` and `attributes`
/// accessors give the tag's name and its attribute list in lexical order,
/// raw values and attribute syntax errors included; everything is
/// converted to owned bytes.
#[verifier::external_body]
fn open_event(e: quick_xml::events::BytesStart<'static>, is_empty: bool) -> XmlEvent {
    let name = e.name().as_ref().as_bytes().to_vec();
    let attrs = e.attributes().map(|a: Result<Attribute, AttrError>| match a {
        Ok(a) => XmlAttr::Pair {
            key: a.key.as_ref().as_bytes().to_vec(),
            value: a.value.into_owned().into_bytes(),
        },
        Err(er) => XmlAttr::Bad { msg: er.to_string() },
    }).collect();
    if is_empty {
        XmlEvent::Empty { name, attrs }
    } else {
        XmlEvent::Open { name, attrs }
    }
}

/// Relies on quick_xml's `Event`: tells its variants apart and converts
/// each payload (tag names, character data, reference names) to owned
/// bytes.
#[verifier::external_body]
fn convert_event(ev: Event<'static>) -> XmlEvent {
    match ev {
        Event::Start(e) => open_event(e, false),
        Event::Empty(e) => open_event(e, true),
        Event::End(e) => XmlEvent::Close { name: e.name().as_ref().as_bytes().to_vec() },
        Event::Text(t) => XmlEvent::Text { text: t.into_inner().into_owned().into_bytes() },
        Event::GeneralRef(r) => XmlEvent::Reference {
            name: r.into_inner().into_owned().into_bytes(),
        },
        Event::Eof => XmlEvent::Eof,
        _ => XmlEvent::Other,
    }
}

/// Pulls the next lexical event in owned form: a tokenizing failure
/// becomes a `TokError` event and reading continues after it.
pub(crate) fn read_next_event(reader: &mut Reader<Cursor<Vec<u8>>>) -> XmlEvent {
    match read_raw(reader) {
        Ok(ev) => convert_event(ev),
        Err(msg) => XmlEvent::TokError { msg },
    }
}

/// The lexical events quick_xml yields for a byte buffer, in document
/// order, up to and including the first end-of-input event.  Tokenizing
/// an in-memory buffer is a function of the bytes alone: no clock,
/// randomness, environment or iteration order enters it, so the same
/// buffer names the same event sequence in every process.
pub uninterp spec fn events_of(bytes: Seq<u8>) -> Seq<XmlEventV>;

/// What the `i`-th read over a buffer returns: the named stream's events
/// in order, then end-of-input forever.
pub open spec fn spec_event_at(bytes: Seq<u8>, i: int) -> XmlEventV {
    if 0 <= i < events_of(bytes).len() {
        events_of(bytes)[i]
    } else {
        XmlEventV::Eof
    }
}

/// Specification state of an event source: the bytes it tokenizes and
/// how many events it has already handed out.
pub struct EventSourceV {
    pub source: Seq<u8>,
    pub consumed: int,
}

/// An owned stream of lexical events over a byte buffer.
pub struct EventSource {
    reader: Reader<Cursor<Vec<u8>>>,
    source: Ghost<Seq<u8>>,
    consumed: Ghost<int>,
}

impl View for EventSource {
    type V = EventSourceV;

    closed spec fn view(&self) -> EventSourceV {
        EventSourceV { source: self.source@, consumed: self.consumed@ }
    }
}

/// Relies on quick_xml's `Reader::from_reader` and its configuration
/// methods, and on the reader reporting end of input exactly once the
/// buffer is exhausted: the source starts at the beginning of the stream
/// its bytes name, which is non-empty and ends with its single
/// end-of-input event.
#[verifier::external_body]
pub(crate) fn new_event_source(input: Vec<u8>) -> (s: EventSource)
    ensures
        s@ == (EventSourceV { source: input@, consumed: 0 }),
        events_of(s@.source).len() >= 1,
        events_of(s@.source).last() is Eof,
        forall|i: int|
            0 <= i < events_of(s@.source).len() - 1 ==> !((#[trigger] events_of(s@.source)[i])
                is Eof),
{
    let mut reader = Reader::from_reader(Cursor::new(input));
    reader.config_mut().trim_text(true);
    EventSource { reader, source: Ghost(Seq::empty()), consumed: Ghost(0int) }
}

/// Relies on quick_xml's `read_event_into`: each call yields the next
/// event of the stream `events_of` names (a tokenizing failure is itself
/// one event of that stream, after which reading continues), and
/// end-of-input forever once the stream is exhausted.
#[verifier::external_body]
pub(crate) fn next_event(s: &mut EventSource) -> (ev: XmlEvent)
    ensures
        final(s)@ == (EventSourceV {
            source: old(s)@.source,
            consumed: old(s)@.consumed + 1,
        }) && ev@ == spec_event_at(old(s)@.source, old(s)@.consumed),
{
    read_next_event(&mut s.reader)
}

} // verus!
