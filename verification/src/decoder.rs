//! The streaming decoder.
//!
//! A [`Decoder`] takes the tokens of a document one at a time. It keeps the
//! tags of the open elements and the nodes under construction, and ends with
//! the metadata and the root group. What each token does is laid down in
//! [`crate::model`]; the functions here are proved to do exactly that.

use crate::cipher::Cipher;
use crate::db::{Child, ChildView, Group, GroupView, Icon, Metadata, MetadataView, Value};
use crate::error::{IntegrityError, Recovery};
use crate::model;
use crate::model::{DecoderView, Mode};
use crate::node::{Node, NodeView};
use crate::protect::decrypt_protected;
use crate::secret::{seal, secret_bytes};
use crate::tag::Tag;
use crate::text::{
    parse_bool_or_false, parse_flag_or_false, parse_u8, parse_u8_or_zero, spells_flag,
    spells_flag_in_any_case, str_eq,
};
use crate::time::parse_xml_timestamp;
use crate::xml::{attributes_view, events_view, read_events, xml_events, Attribute, XmlToken};
use secstr::SecVec;
use vstd::prelude::*;

verus! {

/// What a list of nodes stands for.
pub open spec fn nodes_view(nodes: Seq<Node>) -> Seq<NodeView> {
    nodes.map_values(|n: Node| n@)
}

/// What optional metadata stands for.
pub open spec fn metadata_view(metadata: Option<Metadata>) -> Option<MetadataView> {
    match metadata {
        Some(metadata) => Some(metadata@),
        None => None,
    }
}

/// What the result of a decode stands for.
pub open spec fn result_view(result: Result<(Option<Metadata>, Group), IntegrityError>) -> Result<
    (Option<MetadataView>, GroupView),
    IntegrityError,
> {
    match result {
        Ok((metadata, root)) => Ok((metadata_view(metadata), root@)),
        Err(e) => Err(e),
    }
}

/// Looks up the first attribute called `name`.
fn find_attribute<'a>(attributes: &'a [Attribute], name: &str) -> (found: Option<&'a String>)
    ensures
        text_of(found) == model::attribute_named(attributes_view(attributes@), name@),
{
    let ghost all = attributes_view(attributes@);
    let mut i: usize = 0;
    assert(all.skip(0) =~= all);
    while i < attributes.len()
        invariant
            i <= attributes.len(),
            all == attributes_view(attributes@),
            model::attribute_named(all, name@) == model::attribute_named(all.skip(i as int), name@),
        decreases attributes.len() - i,
    {
        assert(all.skip(i as int).drop_first() =~= all.skip(i + 1));
        if str_eq(attributes[i].name.as_str(), name) {
            return Some(&attributes[i].value);
        }
        i += 1;
    }
    None
}

/// The characters of an optional borrowed string.
pub open spec fn text_of(text: Option<&String>) -> Option<Seq<char>> {
    match text {
        Some(s) => Some(s@),
        None => None,
    }
}

/// Whether the attributes of a value element ask for protection.
pub fn asks_for_protection(attributes: &[Attribute]) -> (yes: bool)
    ensures
        yes == model::protection_requested(attributes_view(attributes@)),
{
    match find_attribute(attributes, "Protected") {
        Some(value) => parse_flag_or_false(value.as_str()),
        None => false,
    }
}

/// Turns the value of a field node into an empty protected one.
fn protect_field(node: Node) -> (protected: Node)
    ensures
        protected@ == model::protected_field(node@),
{
    match node {
        Node::KeyValue(key, _) => Node::KeyValue(key, Value::Protected(seal(Vec::new()))),
        other => other,
    }
}

/// Hands a finished node to its parent.
///
/// The parent takes the node where it has a place for nodes of that kind, and
/// is returned unchanged where it has none.
pub fn link_into(finished: Node, parent: Node) -> (linked: Node)
    ensures
        linked@ == model::link_into(finished@, parent@),
{
    match (finished, parent) {
        (Node::KeyValue(key, value), Node::Entry(mut entry)) => {
            entry.fields.insert(key, value);
            Node::Entry(entry)
        },
        (Node::Group(group), Node::Group(mut parent)) => {
            let ghost before = parent@.children;
            parent.children.push(Child::Group(group));
            assert(parent@.children =~= before.push(ChildView::Group(group@)));
            Node::Group(parent)
        },
        (Node::Entry(entry), Node::Group(mut parent)) => {
            let ghost before = parent@.children;
            parent.children.push(Child::Entry(entry));
            assert(parent@.children =~= before.push(ChildView::Entry(entry@)));
            Node::Group(parent)
        },
        (Node::AutoType(autotype), Node::Entry(mut entry)) => {
            entry.autotype = Some(autotype);
            Node::Entry(entry)
        },
        (Node::AutoTypeAssociation(association), Node::AutoType(mut autotype)) => {
            let ghost before = autotype@.associations;
            autotype.associations.push(association);
            assert(autotype@.associations =~= before.push(association@));
            Node::AutoType(autotype)
        },
        (Node::ExpiryTime(raw), Node::Entry(mut entry)) => {
            match parse_xml_timestamp(raw.as_str()) {
                Ok(instant) => {
                    entry.times.insert("ExpiryTime".to_owned(), instant);
                },
                Err(_) => {},
            }
            Node::Entry(entry)
        },
        (Node::ExpiryTime(raw), Node::Group(mut group)) => {
            match parse_xml_timestamp(raw.as_str()) {
                Ok(instant) => {
                    group.times.insert("ExpiryTime".to_owned(), instant);
                },
                Err(_) => {},
            }
            Node::Group(group)
        },
        (Node::Expires(flag), Node::Entry(mut entry)) => {
            entry.expires = flag;
            Node::Entry(entry)
        },
        (Node::Expires(flag), Node::Group(mut group)) => {
            group.expires = flag;
            Node::Group(group)
        },
        (Node::Icon(icon), Node::Entry(mut entry)) => {
            entry.icon = icon;
            Node::Entry(entry)
        },
        (Node::Icon(icon), Node::Group(mut group)) => {
            group.icon = icon;
            Node::Group(group)
        },
        (Node::CustomIcon(uuid, data), Node::Metadata(mut metadata)) => {
            metadata.custom_icons.insert(uuid, data);
            Node::Metadata(metadata)
        },
        (_, parent) => parent,
    }
}

/// Stores character data in the innermost node.
///
/// This covers every place for text but a protected value, which needs the
/// cipher. A node that has no place for the data is returned unchanged.
pub fn with_text(top: Node, tag: Tag, text: &str) -> (node: Node)
    ensures
        node@ == model::with_text(top@, tag, text@),
{
    match (tag, top) {
        (Tag::Name, Node::Group(mut group)) => {
            group.name = text.to_owned();
            Node::Group(group)
        },
        (Tag::ExpiryTime, Node::ExpiryTime(_)) => Node::ExpiryTime(text.to_owned()),
        (Tag::Expires, Node::Expires(_)) => Node::Expires(str_eq(text, "True")),
        (Tag::Key, Node::KeyValue(_, value)) => Node::KeyValue(text.to_owned(), value),
        (Tag::Value, Node::KeyValue(key, Value::Unprotected(_))) => Node::KeyValue(
            key,
            Value::Unprotected(text.to_owned()),
        ),
        (Tag::Enabled, Node::AutoType(mut autotype)) => {
            autotype.enabled = parse_bool_or_false(text);
            Node::AutoType(autotype)
        },
        (Tag::DefaultSequence, Node::AutoType(mut autotype)) => {
            autotype.sequence = Some(text.to_owned());
            Node::AutoType(autotype)
        },
        (Tag::Window, Node::AutoTypeAssociation(mut association)) => {
            association.window = Some(text.to_owned());
            Node::AutoTypeAssociation(association)
        },
        (Tag::KeystrokeSequence, Node::AutoTypeAssociation(mut association)) => {
            association.sequence = Some(text.to_owned());
            Node::AutoTypeAssociation(association)
        },
        (Tag::IconID, Node::Icon(Icon::IconID(_))) => Node::Icon(
            Icon::IconID(parse_u8_or_zero(text)),
        ),
        (Tag::CustomIconUUID, Node::Icon(Icon::CustomIcon(_))) => Node::Icon(
            Icon::CustomIcon(text.to_owned()),
        ),
        (Tag::Generator, Node::Metadata(mut metadata)) => {
            metadata.generator = text.to_owned();
            Node::Metadata(metadata)
        },
        (Tag::DatabaseName, Node::Metadata(mut metadata)) => {
            metadata.name = text.to_owned();
            Node::Metadata(metadata)
        },
        (Tag::DatabaseDescription, Node::Metadata(mut metadata)) => {
            metadata.description = text.to_owned();
            Node::Metadata(metadata)
        },
        (Tag::UUID, Node::CustomIcon(_, data)) => Node::CustomIcon(text.to_owned(), data),
        (Tag::Data, Node::CustomIcon(uuid, _)) => Node::CustomIcon(uuid, text.to_owned()),
        (_, top) => top,
    }
}

/// Puts a decrypted value into a field node.
fn with_secret(top: Node, secret: SecVec<u8>) -> (node: Node)
    ensures
        node@ == model::with_secret(top@, secret_bytes(secret)),
{
    match top {
        Node::KeyValue(key, _) => Node::KeyValue(key, Value::Protected(secret)),
        other => other,
    }
}

/// Whether character data inside an element with tag `tag` is the text of a
/// protected value.
fn at_protected_site(tag: Tag, top: &Node) -> (yes: bool)
    ensures
        yes == model::is_protected_site(tag, top@),
{
    match tag {
        Tag::Value => match top {
            Node::KeyValue(_, Value::Protected(_)) => true,
            _ => false,
        },
        _ => false,
    }
}

/// Whether a parent has a place for a finished node of this kind.
pub fn takes(parent: &Node, node: &Node) -> (yes: bool)
    ensures
        yes == model::takes(parent@, node@),
{
    match node {
        Node::KeyValue(_, _) | Node::AutoType(_) => match parent {
            Node::Entry(_) => true,
            _ => false,
        },
        Node::Group(_) | Node::Entry(_) => match parent {
            Node::Group(_) => true,
            _ => false,
        },
        Node::AutoTypeAssociation(_) => match parent {
            Node::AutoType(_) => true,
            _ => false,
        },
        Node::ExpiryTime(_) | Node::Expires(_) | Node::Icon(_) => match parent {
            Node::Entry(_) | Node::Group(_) => true,
            _ => false,
        },
        Node::CustomIcon(_, _) => match parent {
            Node::Metadata(_) => true,
            _ => false,
        },
        Node::Metadata(_) => false,
    }
}

/// What a lenient decode passes over when an element opens.
fn opening_recovery(name: &str, attributes: &[Attribute]) -> (found: Option<Recovery>)
    ensures
        found == model::opening_recovery(name@, attributes_view(attributes@)),
{
    match Tag::of(name) {
        Tag::Value => match find_attribute(attributes, "Protected") {
            Some(value) => if spells_flag_in_any_case(value.as_str()) {
                None
            } else {
                Some(Recovery::Flag)
            },
            None => None,
        },
        _ => None,
    }
}

/// A decode in progress.
pub struct Decoder {
    names: Vec<Tag>,
    nodes: Vec<Node>,
    root: Group,
    metadata: Option<Metadata>,
}

impl View for Decoder {
    type V = DecoderView;

    closed spec fn view(&self) -> DecoderView {
        DecoderView {
            names: self.names@,
            nodes: nodes_view(self.nodes@),
            root: self.root@,
            metadata: metadata_view(self.metadata),
        }
    }
}

impl Decoder {
    /// A decoder that has seen no token yet.
    pub fn new() -> (decoder: Decoder)
        ensures
            decoder@ == model::initial(),
    {
        let decoder = Decoder {
            names: Vec::new(),
            nodes: Vec::new(),
            root: Group::default(),
            metadata: None,
        };
        assert(decoder@.nodes =~= Seq::empty());
        decoder
    }

    /// Takes note that an element has opened.
    pub fn open_element(&mut self, name: &str, attributes: &[Attribute])
        ensures
            final(self)@ == model::opened(old(self)@, name@, attributes_view(attributes@)),
    {
        let tag = Tag::of(name);
        self.names.push(tag);
        match tag {
            Tag::Value => {
                if asks_for_protection(attributes) {
                    match self.nodes.pop() {
                        Some(top) => {
                            self.nodes.push(protect_field(top));
                            assert(nodes_view(self.nodes@) =~= model::with_top(
                                nodes_view(old(self).nodes@),
                                model::protected_field(top@),
                            ));
                        },
                        None => {},
                    }
                }
            },
            _ => {
                match Node::fresh(tag) {
                    Some(node) => {
                        self.nodes.push(node);
                        assert(nodes_view(self.nodes@) =~= nodes_view(old(self).nodes@).push(node@));
                    },
                    None => {},
                }
            },
        }
    }

    /// Takes note that an element has closed.
    pub fn close_element(&mut self, name: &str)
        ensures
            final(self)@ == model::closed(old(self)@, name@),
    {
        let tag = Tag::of(name);
        self.names.pop();
        if !tag.structural() {
            return;
        }
        match self.nodes.pop() {
            Some(Node::Metadata(metadata)) => {
                assert(nodes_view(self.nodes@) =~= nodes_view(old(self).nodes@).drop_last());
                self.metadata = Some(metadata);
            },
            Some(finished) => {
                let ghost rest = nodes_view(old(self).nodes@).drop_last();
                assert(nodes_view(self.nodes@) =~= rest);
                match self.nodes.pop() {
                    Some(parent) => {
                        self.nodes.push(link_into(finished, parent));
                        assert(nodes_view(self.nodes@) =~= model::with_top(
                            rest,
                            model::link_into(finished@, parent@),
                        ));
                    },
                    None => {
                        match finished {
                            Node::Group(group) => {
                                self.root = group;
                            },
                            _ => {},
                        }
                    },
                }
            },
            None => {},
        }
    }

    /// Takes character data.
    ///
    /// The data goes to the innermost node, in the place that the innermost
    /// open element names. The text of a protected value is decrypted first,
    /// which is the only use that is made of the cipher, and the only way to
    /// fail. A failure leaves the decoder as it was.
    pub fn characters<C: Cipher>(&mut self, text: &str, cipher: &mut C) -> (done: Result<
        (),
        IntegrityError,
    >)
        ensures
            model::texted(old(self)@, text@, *old(cipher)) == (
                match done {
                    Ok(_) => Ok(final(self)@),
                    Err(e) => Err(e),
                },
                *final(cipher),
            ),
            done is Err ==> final(self)@ == old(self)@,
    {
        if self.names.len() == 0 {
            return Ok(());
        }
        let tag = self.names[self.names.len() - 1];
        match self.nodes.pop() {
            Some(top) => {
                if at_protected_site(tag, &top) {
                    match decrypt_protected(text, cipher) {
                        Ok(secret) => {
                            self.nodes.push(with_secret(top, secret));
                            assert(nodes_view(self.nodes@) =~= model::with_top(
                                nodes_view(old(self).nodes@),
                                model::with_secret(top@, secret_bytes(secret)),
                            ));
                        },
                        Err(e) => {
                            self.nodes.push(top);
                            assert(self.nodes@ =~= old(self).nodes@);
                            return Err(e);
                        },
                    }
                } else {
                    self.nodes.push(with_text(top, tag, text));
                    assert(nodes_view(self.nodes@) =~= model::with_top(
                        nodes_view(old(self).nodes@),
                        model::with_text(top@, tag, text@),
                    ));
                }
                Ok(())
            },
            None => Ok(()),
        }
    }

    /// Whether the innermost node is an orphan.
    fn top_is_orphan(&self) -> (yes: bool)
        ensures
            yes == model::top_is_orphan(self@),
    {
        let count = self.nodes.len();
        if count == 0 {
            return false;
        }
        let top = &self.nodes[count - 1];
        match top {
            Node::Metadata(_) => false,
            Node::Group(_) => count > 1 && !takes(&self.nodes[count - 2], top),
            _ => count == 1 || !takes(&self.nodes[count - 2], top),
        }
    }

    /// What a lenient decode would pass over in silence if it took `token`
    /// now, if anything.
    pub fn recovery(&self, token: &XmlToken) -> (found: Option<Recovery>)
        ensures
            found == model::recovery_at(self@, token@),
    {
        match token {
            XmlToken::Open { name, attributes } => opening_recovery(
                name.as_str(),
                attributes.as_slice(),
            ),
            XmlToken::Close { name } => {
                if !Tag::of(name.as_str()).structural() || self.nodes.len() == 0 {
                    return None;
                }
                if self.top_is_orphan() {
                    return Some(Recovery::Orphan);
                }
                let top = &self.nodes[self.nodes.len() - 1];
                match top {
                    Node::ExpiryTime(raw) => if parse_xml_timestamp(raw.as_str()).is_err() {
                        Some(Recovery::Timestamp)
                    } else {
                        None
                    },
                    _ => None,
                }
            },
            XmlToken::Text(text) => {
                if self.names.len() == 0 || self.nodes.len() == 0 {
                    return None;
                }
                let tag = self.names[self.names.len() - 1];
                let top = &self.nodes[self.nodes.len() - 1];
                match (tag, top) {
                    (Tag::Enabled, Node::AutoType(_)) => if spells_flag(text.as_str()) {
                        None
                    } else {
                        Some(Recovery::Flag)
                    },
                    (Tag::IconID, Node::Icon(Icon::IconID(_))) => if parse_u8(
                        text.as_str(),
                    ).is_none() {
                        Some(Recovery::Number)
                    } else {
                        None
                    },
                    _ => None,
                }
            },
            XmlToken::Other => None,
        }
    }

    /// Takes one token. A failure leaves the decoder as it was.
    pub fn feed<C: Cipher>(&mut self, token: &XmlToken, cipher: &mut C) -> (done: Result<
        (),
        IntegrityError,
    >)
        ensures
            model::stepped(old(self)@, token@, *old(cipher)) == (
                match done {
                    Ok(_) => Ok(final(self)@),
                    Err(e) => Err(e),
                },
                *final(cipher),
            ),
            done is Err ==> final(self)@ == old(self)@,
    {
        match token {
            XmlToken::Open { name, attributes } => {
                self.open_element(name.as_str(), attributes.as_slice());
                Ok(())
            },
            XmlToken::Close { name } => {
                self.close_element(name.as_str());
                Ok(())
            },
            XmlToken::Text(text) => self.characters(text.as_str(), cipher),
            XmlToken::Other => Ok(()),
        }
    }

    /// Ends the decode and hands out the metadata, if any was read, and the
    /// root group.
    pub fn finish(self) -> (result: (Option<Metadata>, Group))
        ensures
            (metadata_view(result.0), result.1@) == model::harvest(self@),
    {
        (self.metadata, self.root)
    }
}

/// Decodes the events of a document, as the tokenizer gave them, in the
/// given mode.
///
/// The events are taken in order. The decode ends with the first one that
/// fails: character data of a protected value that cannot be decrypted, the
/// tokenizer's own error or, in the strict mode, anything that the lenient
/// mode passes over in silence.
pub fn decode_events_in<C: Cipher>(
    mode: Mode,
    events: &[Result<XmlToken, xml::reader::Error>],
    cipher: &mut C,
) -> (result: Result<(Option<Metadata>, Group), IntegrityError>)
    ensures
        (result_view(result), *final(cipher)) == model::decoded_in(
            mode,
            events_view(events@),
            *old(cipher),
        ),
{
    let ghost all = events_view(events@);
    let mut decoder = Decoder::new();
    let mut i: usize = 0;
    assert(all.skip(0) =~= all);
    while i < events.len()
        invariant
            i <= events.len(),
            all == events_view(events@),
            model::ran_in(mode, model::initial(), all, *old(cipher)) == model::ran_in(
                mode,
                decoder@,
                all.skip(i as int),
                *cipher,
            ),
        decreases events.len() - i,
    {
        assert(all.skip(i as int).drop_first() =~= all.skip(i + 1));
        match &events[i] {
            Ok(token) => {
                match mode {
                    Mode::Strict => match decoder.recovery(token) {
                        Some(recovery) => {
                            return Err(IntegrityError::Recovery(recovery));
                        },
                        None => {},
                    },
                    Mode::Lenient => {},
                }
                decoder.feed(token, cipher)?;
            },
            Err(_) => {
                return Err(IntegrityError::Tokenizer);
            },
        }
        i += 1;
    }
    Ok(decoder.finish())
}

/// Decodes the events of a document, as the tokenizer gave them, leniently.
pub fn decode_events<C: Cipher>(
    events: &[Result<XmlToken, xml::reader::Error>],
    cipher: &mut C,
) -> (result: Result<(Option<Metadata>, Group), IntegrityError>)
    ensures
        (result_view(result), *final(cipher)) == model::decoded(events_view(events@), *old(cipher)),
{
    decode_events_in(Mode::Lenient, events, cipher)
}

/// Decodes the XML payload of a database in the given mode.
///
/// The document is tokenized, and its events are decoded in order. Protected
/// values are decrypted with `cipher`, one call for each, in the order in
/// which they stand in the document. The result is the metadata, if the
/// document has any, and the root group.
pub fn parse_xml_block_in<C: Cipher>(mode: Mode, xml: &[u8], cipher: &mut C) -> (result: Result<
    (Option<Metadata>, Group),
    IntegrityError,
>)
    ensures
        (result_view(result), *final(cipher)) == model::decoded_in(
            mode,
            xml_events(xml@),
            *old(cipher),
        ),
{
    let events = read_events(xml);
    decode_events_in(mode, events.as_slice(), cipher)
}

/// Decodes the XML payload of a database, leniently: what cannot be used is
/// passed over in silence.
pub fn parse_xml_block<C: Cipher>(xml: &[u8], cipher: &mut C) -> (result: Result<
    (Option<Metadata>, Group),
    IntegrityError,
>)
    ensures
        (result_view(result), *final(cipher)) == model::decoded(xml_events(xml@), *old(cipher)),
{
    parse_xml_block_in(Mode::Lenient, xml, cipher)
}

} // verus!
