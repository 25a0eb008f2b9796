//! The quick-xml pull parser, as the timedtext reader uses it.
//!
//! An [`XmlStream`] reads one document with one quick-xml `Reader`. What
//! the reader reports depends on the document alone, so the `n`-th event of
//! a document is named ([`xml_event`]) by the values the timedtext reader
//! reads of it, and every function that reads the stream is stated over that
//! name. The stream's fields are private to this module: only the functions
//! below create and advance it, so the document it reads and the number of
//! events read so far are always those it reports.

use vstd::prelude::*;
use quick_xml::events::attributes::Attribute;
use quick_xml::events::Event;
use quick_xml::Reader;

verus! {

/// quick-xml's `Reader`, opaque here.
#[verifier::external_type_specification]
#[verifier::external_body]
#[verifier::reject_recursive_types(R)]
pub struct ExXmlReader<R>(Reader<R>);

/// quick-xml's `Event`, opaque here.
#[verifier::external_type_specification]
#[verifier::external_body]
pub struct ExXmlEvent<'a>(Event<'a>);

/// What the timedtext reader reads of one quick-xml event.
pub enum XmlEventView {
    /// A start tag: its name (`BytesStart::name`), its bytes between `<` and
    /// `>` (through `Deref`) and the length of its name.
    Start { name: Seq<u8>, tag: Seq<u8>, name_len: usize },
    /// An empty-element tag, read as a start tag.
    Empty { name: Seq<u8>, tag: Seq<u8>, name_len: usize },
    /// An end tag: its name (`BytesEnd::name`).
    End { name: Seq<u8> },
    /// Character data: `BytesText::xml_content`, or the error's message.
    Text { text: Result<Seq<char>, Seq<char>> },
    /// A CDATA section: `BytesCData::decode`, or the error's message.
    CData { text: Result<Seq<char>, Seq<char>> },
    /// A general reference: `BytesRef::decode` (its name) and
    /// `BytesRef::resolve_char_ref`, each or the error's message.
    Reference { reference: Result<Seq<char>, Seq<char>>, char_ref: Result<Option<char>, Seq<char>> },
    /// The end of the document.
    Eof,
    /// A comment, declaration, processing instruction or doctype.
    Other,
}

/// The kind of a quick-xml event.
#[derive(Clone, Copy, PartialEq, Eq, Structural, Debug)]
pub enum XmlKind {
    Start,
    Empty,
    End,
    Text,
    CData,
    Reference,
    Eof,
    Other,
}

pub open spec fn kind_of(event: XmlEventView) -> XmlKind {
    match event {
        XmlEventView::Start { .. } => XmlKind::Start,
        XmlEventView::Empty { .. } => XmlKind::Empty,
        XmlEventView::End { .. } => XmlKind::End,
        XmlEventView::Text { .. } => XmlKind::Text,
        XmlEventView::CData { .. } => XmlKind::CData,
        XmlEventView::Reference { .. } => XmlKind::Reference,
        XmlEventView::Eof => XmlKind::Eof,
        XmlEventView::Other => XmlKind::Other,
    }
}

/// The result of the `n + 1`-th `Reader::read_event` call of a quick-xml
/// reader made by `Reader::from_str(doc)` with `allow_dangling_amp` set and
/// `check_end_names` unset, with `allow_unmatched_ends` set: the event as
/// [`XmlEventView`] reads it, or the error's message. With the crate's
/// default features (no `encoding`) the reader and its events hold nothing
/// but the document's bytes and positions in them.
pub uninterp spec fn xml_event(doc: Seq<char>, n: nat) -> Result<XmlEventView, Seq<char>>;

/// What quick-xml's `BytesStart::try_get_attribute(name)` finds in a start
/// tag whose bytes (name and attributes, between `<` and `>`) are `content`
/// and whose name is the first `name_len` of them: the raw value of the
/// first attribute whose key is `name`, nothing when there is none, or the
/// message of the error met in a malformed attribute list before it. With
/// the crate's default features (no `encoding`) a tag holds nothing else
/// that the lookup reads.
pub uninterp spec fn tag_attribute(content: Seq<u8>, name_len: usize, name: Seq<char>) -> Result<
    Option<Seq<u8>>,
    Seq<char>,
>;

/// What quick-xml's `Attribute::unescape_value` makes of an attribute whose
/// raw value is `raw`: the value decoded as UTF-8 with its predefined
/// entities and character references resolved, or the error's message.
pub uninterp spec fn unescaped_attribute_value(raw: Seq<u8>) -> Result<Seq<char>, Seq<char>>;

/// A document read by one quick-xml reader, with the last event it read.
pub struct XmlStream<'a> {
    doc: &'a str,
    read: usize,
    reader: Reader<&'a [u8]>,
    current: Option<Event<'a>>,
}

impl<'a> XmlStream<'a> {
    /// The document the stream reads.
    pub closed spec fn doc(&self) -> Seq<char> {
        self.doc@
    }

    /// How many events the stream has read.
    pub closed spec fn read(&self) -> nat {
        self.read as nat
    }

    /// The last event read, when it was read without error.
    pub open spec fn last(&self) -> Result<XmlEventView, Seq<char>> {
        xml_event(self.doc(), (self.read() - 1) as nat)
    }
}

/// quick-xml `Reader::from_str(doc)`, configured through `Reader::config_mut`
/// as [`xml_event`] says.
#[verifier::external_body]
fn xml_reader<'a>(doc: &'a str) -> Reader<&'a [u8]> {
    let mut reader = Reader::from_str(doc);
    let config = reader.config_mut();
    config.allow_dangling_amp = true;
    config.check_end_names = false;
    config.allow_unmatched_ends = true;
    reader
}

/// A stream over `doc` that has read no event yet.
pub(crate) fn xml_stream<'a>(doc: &'a str) -> (s: XmlStream<'a>)
    ensures
        s.doc() == doc@,
        s.read() == 0,
{
    XmlStream { doc, read: 0, reader: xml_reader(doc), current: None }
}

/// quick-xml `Reader::read_event`: reads the event that the stream's count
/// already includes, keeps it as the last event, and gives its kind or the
/// error's message.
#[verifier::external_body]
fn xml_read_event(s: &mut XmlStream) -> (r: Result<XmlKind, String>)
    requires
        old(s).read() > 0,
    ensures
        final(s).doc() == old(s).doc(),
        final(s).read() == old(s).read(),
        match xml_event(final(s).doc(), (final(s).read() - 1) as nat) {
            Ok(event) => r == Ok::<XmlKind, String>(kind_of(event)),
            Err(m) => r matches Err(e) && e@ == m,
        },
{
    let event = s.reader.read_event();
    let r = match &event {
        Ok(Event::Start(_)) => Ok(XmlKind::Start),
        Ok(Event::Empty(_)) => Ok(XmlKind::Empty),
        Ok(Event::End(_)) => Ok(XmlKind::End),
        Ok(Event::Text(_)) => Ok(XmlKind::Text),
        Ok(Event::CData(_)) => Ok(XmlKind::CData),
        Ok(Event::GeneralRef(_)) => Ok(XmlKind::Reference),
        Ok(Event::Eof) => Ok(XmlKind::Eof),
        Ok(_) => Ok(XmlKind::Other),
        Err(e) => Err(e.to_string()),
    };
    s.current = event.ok();
    r
}

/// Reads the next event: its kind, or the error's message.
pub(crate) fn xml_next(s: &mut XmlStream) -> (r: Result<XmlKind, String>)
    requires
        old(s).read() < usize::MAX,
    ensures
        final(s).doc() == old(s).doc(),
        final(s).read() == old(s).read() + 1,
        match final(s).last() {
            Ok(event) => r == Ok::<XmlKind, String>(kind_of(event)),
            Err(m) => r matches Err(e) && e@ == m,
        },
{
    s.read = s.read + 1;
    xml_read_event(s)
}

/// The tag of the last event, a start or empty-element tag.
pub open spec fn last_tag(s: &XmlStream) -> (Seq<u8>, Seq<u8>, usize) {
    match s.last() {
        Ok(XmlEventView::Start { name, tag, name_len }) => (name, tag, name_len),
        Ok(XmlEventView::Empty { name, tag, name_len }) => (name, tag, name_len),
        _ => (Seq::empty(), Seq::empty(), 0),
    }
}

pub open spec fn last_is_tag(s: &XmlStream) -> bool {
    s.read() > 0 && (s.last() matches Ok(e) && (kind_of(e) == XmlKind::Start || kind_of(e)
        == XmlKind::Empty))
}

/// quick-xml `BytesStart::name` of the last event, a start or empty tag.
#[verifier::external_body]
pub(crate) fn xml_tag_name(s: &XmlStream) -> (r: Vec<u8>)
    requires
        last_is_tag(s),
    ensures
        r@ == last_tag(s).0,
{
    match &s.current {
        Some(Event::Start(e)) | Some(Event::Empty(e)) => e.name().as_ref().to_vec(),
        _ => Vec::new(),
    }
}

/// quick-xml `BytesStart::try_get_attribute` on the last event, a start or
/// empty tag: the raw value of the first attribute called `name`, or the
/// error's message.
#[verifier::external_body]
pub(crate) fn xml_tag_attribute(s: &XmlStream, name: &str) -> (r: Result<Option<Vec<u8>>, String>)
    requires
        last_is_tag(s),
    ensures
        match (r, tag_attribute(last_tag(s).1, last_tag(s).2, name@)) {
            (Ok(Some(v)), Ok(Some(w))) => v@ == w,
            (Ok(None), Ok(None)) => true,
            (Err(e), Err(m)) => e@ == m,
            _ => false,
        },
{
    match &s.current {
        Some(Event::Start(e)) | Some(Event::Empty(e)) => match e.try_get_attribute(name) {
            Ok(found) => Ok(found.map(|attribute| attribute.value.into_owned())),
            Err(e) => Err(e.to_string()),
        },
        _ => Ok(None),
    }
}

/// The name of the last event, an end tag.
pub open spec fn last_end_name(s: &XmlStream) -> Seq<u8> {
    match s.last() {
        Ok(XmlEventView::End { name }) => name,
        _ => Seq::empty(),
    }
}

/// quick-xml `BytesEnd::name` of the last event, an end tag.
#[verifier::external_body]
pub(crate) fn xml_end_name(s: &XmlStream) -> (r: Vec<u8>)
    requires
        s.read() > 0,
        s.last() matches Ok(XmlEventView::End { .. }),
    ensures
        r@ == last_end_name(s),
{
    match &s.current {
        Some(Event::End(e)) => e.name().as_ref().to_vec(),
        _ => Vec::new(),
    }
}

/// The content of the last event, character data or a CDATA section.
pub open spec fn last_content(s: &XmlStream) -> Result<Seq<char>, Seq<char>> {
    match s.last() {
        Ok(XmlEventView::Text { text }) => text,
        Ok(XmlEventView::CData { text }) => text,
        _ => Err(Seq::empty()),
    }
}

/// quick-xml `BytesText::xml_content` or `BytesCData::decode` of the last
/// event: its decoded text, or the error's message.
#[verifier::external_body]
pub(crate) fn xml_content(s: &XmlStream) -> (r: Result<String, String>)
    requires
        s.read() > 0,
        s.last() matches Ok(e) && (kind_of(e) == XmlKind::Text || kind_of(e) == XmlKind::CData),
    ensures
        match (r, last_content(s)) {
            (Ok(v), Ok(w)) => v@ == w,
            (Err(e), Err(m)) => e@ == m,
            _ => false,
        },
{
    let content = match &s.current {
        Some(Event::Text(e)) => e.xml_content(),
        Some(Event::CData(e)) => e.decode(),
        _ => Ok("".into()),
    };
    match content {
        Ok(c) => Ok(c.into_owned()),
        Err(e) => Err(e.to_string()),
    }
}

/// The name and character of the last event, a general reference.
pub open spec fn last_reference(s: &XmlStream) -> (
    Result<Seq<char>, Seq<char>>,
    Result<Option<char>, Seq<char>>,
) {
    match s.last() {
        Ok(XmlEventView::Reference { reference, char_ref }) => (reference, char_ref),
        _ => (Err(Seq::empty()), Err(Seq::empty())),
    }
}

/// quick-xml `BytesRef::decode` and `BytesRef::resolve_char_ref` of the last
/// event, a general reference: its name and the character it stands for,
/// each or the error's message.
#[verifier::external_body]
pub(crate) fn xml_reference(s: &XmlStream) -> (r: (Result<String, String>, Result<Option<char>, String>))
    requires
        s.read() > 0,
        s.last() matches Ok(XmlEventView::Reference { .. }),
    ensures
        match (r.0, last_reference(s).0) {
            (Ok(v), Ok(w)) => v@ == w,
            (Err(e), Err(m)) => e@ == m,
            _ => false,
        },
        match (r.1, last_reference(s).1) {
            (Ok(v), Ok(w)) => v == w,
            (Err(e), Err(m)) => e@ == m,
            _ => false,
        },
{
    match &s.current {
        Some(Event::GeneralRef(e)) => (
            e.decode().map(|n| n.into_owned()).map_err(|x| x.to_string()),
            e.resolve_char_ref().map_err(|x| x.to_string()),
        ),
        _ => (Ok(String::new()), Ok(None)),
    }
}

/// quick-xml `Attribute::unescape_value`, on an attribute whose raw value is
/// `raw`: the value with its entities resolved, or the error's message.
#[verifier::external_body]
pub(crate) fn xml_attribute_value(raw: &[u8]) -> (r: Result<String, String>)
    ensures
        match (r, unescaped_attribute_value(raw@)) {
            (Ok(v), Ok(w)) => v@ == w,
            (Err(e), Err(m)) => e@ == m,
            _ => false,
        },
{
    match Attribute::from((&b""[..], raw)).unescape_value() {
        Ok(value) => Ok(value.into_owned()),
        Err(e) => Err(e.to_string()),
    }
}

} // verus!
