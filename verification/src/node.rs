//! Nodes under construction.
//!
//! While an element is open, what has been read of it so far is held in a
//! node. A node is made when its element opens, filled by character data, and
//! handed to its parent when the element closes.

use crate::db::{
    empty_entry, empty_group, empty_metadata, AutoType, AutoTypeAssociation,
    AutoTypeAssociationView, AutoTypeView, Entry, EntryView, Group, GroupView, Icon, IconView,
    Metadata, MetadataView, Value, ValueView,
};
use crate::tag::Tag;
use vstd::prelude::*;

verus! {

/// A node under construction, one case for each element with a node of its own.
#[derive(Debug)]
pub enum Node {
    Metadata(Metadata),
    Entry(Entry),
    Group(Group),
    /// A field of an entry: its name and its value.
    KeyValue(String, Value),
    AutoType(AutoType),
    AutoTypeAssociation(AutoTypeAssociation),
    /// An expiry time, as the text that was read.
    ExpiryTime(String),
    Expires(bool),
    Icon(Icon),
    /// A custom icon of the database: its UUID and its content.
    CustomIcon(String, String),
}

/// What a [`Node`] stands for.
pub enum NodeView {
    Metadata(MetadataView),
    Entry(EntryView),
    Group(GroupView),
    KeyValue(Seq<char>, ValueView),
    AutoType(AutoTypeView),
    AutoTypeAssociation(AutoTypeAssociationView),
    ExpiryTime(Seq<char>),
    Expires(bool),
    Icon(IconView),
    CustomIcon(Seq<char>, Seq<char>),
}

impl View for Node {
    type V = NodeView;

    open spec fn view(&self) -> NodeView {
        match *self {
            Node::Metadata(metadata) => NodeView::Metadata(metadata@),
            Node::Entry(entry) => NodeView::Entry(entry@),
            Node::Group(group) => NodeView::Group(group@),
            Node::KeyValue(key, value) => NodeView::KeyValue(key@, value@),
            Node::AutoType(autotype) => NodeView::AutoType(autotype@),
            Node::AutoTypeAssociation(association) => NodeView::AutoTypeAssociation(association@),
            Node::ExpiryTime(raw) => NodeView::ExpiryTime(raw@),
            Node::Expires(flag) => NodeView::Expires(flag),
            Node::Icon(icon) => NodeView::Icon(icon@),
            Node::CustomIcon(uuid, data) => NodeView::CustomIcon(uuid@, data@),
        }
    }
}

/// The node that an element starts out with when it opens, for the tags that
/// have a node of their own.
pub open spec fn fresh_node(tag: Tag) -> Option<NodeView> {
    match tag {
        Tag::Meta => Some(NodeView::Metadata(empty_metadata())),
        Tag::Group => Some(NodeView::Group(empty_group())),
        Tag::Entry => Some(NodeView::Entry(empty_entry())),
        Tag::Field => Some(NodeView::KeyValue(Seq::empty(), ValueView::Unprotected(Seq::empty()))),
        Tag::AutoType => Some(
            NodeView::AutoType(
                AutoTypeView { enabled: false, sequence: None, associations: Seq::empty() },
            ),
        ),
        Tag::Association => Some(
            NodeView::AutoTypeAssociation(AutoTypeAssociationView { window: None, sequence: None }),
        ),
        Tag::ExpiryTime => Some(NodeView::ExpiryTime(Seq::empty())),
        Tag::Expires => Some(NodeView::Expires(false)),
        Tag::IconID => Some(NodeView::Icon(IconView::IconID(0))),
        Tag::CustomIconUUID => Some(NodeView::Icon(IconView::CustomIcon(Seq::empty()))),
        Tag::Icon => Some(NodeView::CustomIcon(Seq::empty(), Seq::empty())),
        _ => None,
    }
}

impl Node {
    /// Makes the node of an element that opens.
    pub fn fresh(tag: Tag) -> (node: Option<Node>)
        ensures
            match node {
                Some(node) => fresh_node(tag) == Some(node@),
                None => fresh_node(tag) is None,
            },
    {
        match tag {
            Tag::Meta => Some(Node::Metadata(Metadata::default())),
            Tag::Group => Some(Node::Group(Group::default())),
            Tag::Entry => Some(Node::Entry(Entry::default())),
            Tag::Field => Some(Node::KeyValue(String::new(), Value::Unprotected(String::new()))),
            Tag::AutoType => Some(Node::AutoType(AutoType::default())),
            Tag::Association => Some(Node::AutoTypeAssociation(AutoTypeAssociation::default())),
            Tag::ExpiryTime => Some(Node::ExpiryTime(String::new())),
            Tag::Expires => Some(Node::Expires(false)),
            Tag::IconID => Some(Node::Icon(Icon::IconID(0))),
            Tag::CustomIconUUID => Some(Node::Icon(Icon::CustomIcon(String::new()))),
            Tag::Icon => Some(Node::CustomIcon(String::new(), String::new())),
            _ => None,
        }
    }
}

} // verus!
