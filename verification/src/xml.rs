//! The XML tokenizer's events, as plain values.

use vstd::prelude::*;
use xml::reader::{EventReader, XmlEvent};

verus! {

/// `Error` of `xml-rs`: why, and where, a document is not well-formed.
#[verifier::external_type_specification]
#[verifier::external_body]
pub struct ExXmlError(xml::reader::Error);

/// An attribute of an opening tag, by local name.
#[derive(Debug, PartialEq, Eq)]
pub struct Attribute {
    pub name: String,
    pub value: String,
}

impl View for Attribute {
    type V = (Seq<char>, Seq<char>);

    open spec fn view(&self) -> (Seq<char>, Seq<char>) {
        (self.name@, self.value@)
    }
}

/// One event of the token stream.
#[derive(Debug, PartialEq, Eq)]
pub enum XmlToken {
    /// An element opens.
    Open { name: String, attributes: Vec<Attribute> },
    /// An element closes.
    Close { name: String },
    /// Character data.
    Text(String),
    /// Anything else: declarations, comments, CDATA, white space, the end of
    /// the document.
    Other,
}

/// What an [`XmlToken`] stands for.
pub enum TokenView {
    Open { name: Seq<char>, attributes: Seq<(Seq<char>, Seq<char>)> },
    Close { name: Seq<char> },
    Text(Seq<char>),
    Other,
}

/// What a list of attributes stands for.
pub open spec fn attributes_view(attributes: Seq<Attribute>) -> Seq<(Seq<char>, Seq<char>)> {
    attributes.map_values(|a: Attribute| a@)
}

impl View for XmlToken {
    type V = TokenView;

    open spec fn view(&self) -> TokenView {
        match *self {
            XmlToken::Open { name, attributes } => TokenView::Open {
                name: name@,
                attributes: attributes_view(attributes@),
            },
            XmlToken::Close { name } => TokenView::Close { name: name@ },
            XmlToken::Text(text) => TokenView::Text(text@),
            XmlToken::Other => TokenView::Other,
        }
    }
}

/// The events that the tokenizer reads from a document, in order. Where the
/// document is malformed the sequence ends in `None`, at the place where the
/// tokenizer gave up.
pub uninterp spec fn xml_events(document: Seq<u8>) -> Seq<Option<TokenView>>;

/// What one answer of the tokenizer stands for.
pub open spec fn event_view(event: Result<XmlToken, xml::reader::Error>) -> Option<TokenView> {
    match event {
        Ok(token) => Some(token@),
        Err(_) => None,
    }
}

/// What a list of answers of the tokenizer stands for.
pub open spec fn events_view(events: Seq<Result<XmlToken, xml::reader::Error>>) -> Seq<
    Option<TokenView>,
> {
    events.map_values(|e: Result<XmlToken, xml::reader::Error>| event_view(e))
}

/// `EventReader::new` of `xml-rs` and the iterator over its events, run to
/// the end of the document. Each event is handed out as a plain value:
/// elements and attributes by their local names, character data as it is,
/// every other kind of event as [`XmlToken::Other`]. The events depend on the
/// document alone.
#[verifier::external_body]
pub(crate) fn read_events(document: &[u8]) -> (events: Vec<Result<XmlToken, xml::reader::Error>>)
    ensures
        events_view(events@) == xml_events(document@),
{
    let plain = |e| match e {
        XmlEvent::StartElement { name, attributes, .. } => XmlToken::Open {
            name: name.local_name,
            attributes: attributes.into_iter().map(|a| Attribute { name: a.name.local_name, value: a.value }).collect(),
        },
        XmlEvent::EndElement { name } => XmlToken::Close { name: name.local_name },
        XmlEvent::Characters(text) => XmlToken::Text(text),
        _ => XmlToken::Other,
    };
    EventReader::new(document).into_iter().map(|e| e.map(plain)).collect()
}

} // verus!
