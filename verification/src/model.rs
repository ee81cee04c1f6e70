//! The decoder as a mathematical state machine.
//!
//! A state holds the tags of the open elements, the nodes under
//! construction, and what has been captured for the result so far. Each token
//! takes a state to the next one; only character data inside a protected
//! value consults, and advances, the cipher.

use crate::cipher::Cipher;
use crate::db::{
    empty_group, AutoTypeAssociationView, AutoTypeView, ChildView, EntryView, GroupView, IconView,
    MetadataView, ValueView,
};
use crate::error::{IntegrityError, Recovery};
use crate::node::{fresh_node, NodeView};
use crate::protect::unsealed;
use crate::tag::{is_structural, tag_of_name, Tag};
use crate::text::{ascii_lowered, bool_or_false, flag_or_false, is_flag, parsed_u8, u8_or_zero};
use crate::time::{timestamp_of, Timestamp};
use crate::xml::TokenView;
use vstd::prelude::*;

verus! {

/// A state of the decoder.
pub struct DecoderView {
    /// The tags of the open elements, outermost first.
    pub names: Seq<Tag>,
    /// The nodes under construction, outermost first.
    pub nodes: Seq<NodeView>,
    /// The root group, once it has closed.
    pub root: GroupView,
    /// The metadata, once it has closed.
    pub metadata: Option<MetadataView>,
}

/// The state before the first token.
pub open spec fn initial() -> DecoderView {
    DecoderView { names: Seq::empty(), nodes: Seq::empty(), root: empty_group(), metadata: None }
}

/// The value of the first attribute called `name`.
pub open spec fn attribute_named(
    attributes: Seq<(Seq<char>, Seq<char>)>,
    name: Seq<char>,
) -> Option<Seq<char>>
    decreases attributes.len(),
{
    if attributes.len() == 0 {
        None
    } else if attributes[0].0 == name {
        Some(attributes[0].1)
    } else {
        attribute_named(attributes.drop_first(), name)
    }
}

/// Whether the attributes of a value element ask for protection: the first
/// attribute called `Protected`, where there is one, spells `true` in some case.
pub open spec fn protection_requested(attributes: Seq<(Seq<char>, Seq<char>)>) -> bool {
    match attribute_named(attributes, "Protected"@) {
        Some(value) => flag_or_false(value),
        None => false,
    }
}

/// `nodes` with the innermost one replaced.
pub open spec fn with_top(nodes: Seq<NodeView>, top: NodeView) -> Seq<NodeView>
    recommends
        nodes.len() > 0,
{
    nodes.drop_last().push(top)
}

/// The field node once its value element has opened with a request for
/// protection: the value is from then on a protected one, and starts empty.
/// Any other node is left as it is.
pub open spec fn protected_field(node: NodeView) -> NodeView {
    match node {
        NodeView::KeyValue(key, _) => NodeView::KeyValue(key, ValueView::Protected(Seq::empty())),
        other => other,
    }
}

/// The state after an element has opened.
pub open spec fn opened(
    state: DecoderView,
    name: Seq<char>,
    attributes: Seq<(Seq<char>, Seq<char>)>,
) -> DecoderView {
    let tag = tag_of_name(name);
    let nodes = if tag == Tag::Value {
        if protection_requested(attributes) && state.nodes.len() > 0 {
            with_top(state.nodes, protected_field(state.nodes.last()))
        } else {
            state.nodes
        }
    } else {
        match fresh_node(tag) {
            Some(node) => state.nodes.push(node),
            None => state.nodes,
        }
    };
    DecoderView { names: state.names.push(tag), nodes, ..state }
}

/// The named times of a group or an entry after an expiry time has closed
/// inside it: where the text decodes, the time is recorded under
/// `ExpiryTime`, and where it does not, nothing changes.
pub open spec fn with_expiry(times: Map<Seq<char>, Timestamp>, raw: Seq<char>) -> Map<
    Seq<char>,
    Timestamp,
> {
    match timestamp_of(raw) {
        Ok(instant) => times.insert("ExpiryTime"@, instant),
        Err(_) => times,
    }
}

/// The parent after a finished node has been handed to it. A parent that
/// does not take nodes of that kind stays as it is, and the node is dropped.
pub open spec fn link_into(finished: NodeView, parent: NodeView) -> NodeView {
    match (finished, parent) {
        (NodeView::KeyValue(key, value), NodeView::Entry(entry)) => NodeView::Entry(
            EntryView { fields: entry.fields.insert(key, value), ..entry },
        ),
        (NodeView::Group(group), NodeView::Group(parent)) => NodeView::Group(
            GroupView { children: parent.children.push(ChildView::Group(group)), ..parent },
        ),
        (NodeView::Entry(entry), NodeView::Group(parent)) => NodeView::Group(
            GroupView { children: parent.children.push(ChildView::Entry(entry)), ..parent },
        ),
        (NodeView::AutoType(autotype), NodeView::Entry(entry)) => NodeView::Entry(
            EntryView { autotype: Some(autotype), ..entry },
        ),
        (NodeView::AutoTypeAssociation(association), NodeView::AutoType(autotype)) => {
            NodeView::AutoType(
                AutoTypeView { associations: autotype.associations.push(association), ..autotype },
            )
        },
        (NodeView::ExpiryTime(raw), NodeView::Entry(entry)) => NodeView::Entry(
            EntryView { times: with_expiry(entry.times, raw), ..entry },
        ),
        (NodeView::ExpiryTime(raw), NodeView::Group(group)) => NodeView::Group(
            GroupView { times: with_expiry(group.times, raw), ..group },
        ),
        (NodeView::Expires(flag), NodeView::Entry(entry)) => NodeView::Entry(
            EntryView { expires: flag, ..entry },
        ),
        (NodeView::Expires(flag), NodeView::Group(group)) => NodeView::Group(
            GroupView { expires: flag, ..group },
        ),
        (NodeView::Icon(icon), NodeView::Entry(entry)) => NodeView::Entry(
            EntryView { icon, ..entry },
        ),
        (NodeView::Icon(icon), NodeView::Group(group)) => NodeView::Group(
            GroupView { icon, ..group },
        ),
        (NodeView::CustomIcon(uuid, data), NodeView::Metadata(metadata)) => NodeView::Metadata(
            MetadataView { custom_icons: metadata.custom_icons.insert(uuid, data), ..metadata },
        ),
        (_, parent) => parent,
    }
}

/// The state after the innermost node has been finished: metadata is
/// captured for the result, a group without a parent becomes the root, and
/// any other node goes to its parent, or nowhere.
pub open spec fn finished(state: DecoderView) -> DecoderView
    recommends
        state.nodes.len() > 0,
{
    let node = state.nodes.last();
    let rest = state.nodes.drop_last();
    match node {
        NodeView::Metadata(metadata) => DecoderView {
            nodes: rest,
            metadata: Some(metadata),
            ..state
        },
        _ => if rest.len() == 0 {
            match node {
                NodeView::Group(group) => DecoderView { nodes: rest, root: group, ..state },
                _ => DecoderView { nodes: rest, ..state },
            }
        } else {
            DecoderView { nodes: with_top(rest, link_into(node, rest.last())), ..state }
        },
    }
}

/// `names` without the innermost one.
pub open spec fn without_last(names: Seq<Tag>) -> Seq<Tag> {
    if names.len() > 0 {
        names.drop_last()
    } else {
        names
    }
}

/// The state after an element has closed.
pub open spec fn closed(state: DecoderView, name: Seq<char>) -> DecoderView {
    let popped = DecoderView { names: without_last(state.names), ..state };
    if is_structural(tag_of_name(name)) && state.nodes.len() > 0 {
        finished(popped)
    } else {
        popped
    }
}

/// Whether character data inside an element with tag `tag` is the text of a
/// protected value, given the innermost node.
pub open spec fn is_protected_site(tag: Tag, top: NodeView) -> bool {
    tag == Tag::Value && top matches NodeView::KeyValue(_, ValueView::Protected(_))
}

/// The innermost node after character data has been read inside an element
/// with tag `tag`, for everything but protected values. Data that the node
/// has no place for leaves it as it is.
pub open spec fn with_text(top: NodeView, tag: Tag, text: Seq<char>) -> NodeView {
    match (tag, top) {
        (Tag::Name, NodeView::Group(group)) => NodeView::Group(GroupView { name: text, ..group }),
        (Tag::ExpiryTime, NodeView::ExpiryTime(_)) => NodeView::ExpiryTime(text),
        (Tag::Expires, NodeView::Expires(_)) => NodeView::Expires(text == "True"@),
        (Tag::Key, NodeView::KeyValue(_, value)) => NodeView::KeyValue(text, value),
        (Tag::Value, NodeView::KeyValue(key, ValueView::Unprotected(_))) => NodeView::KeyValue(
            key,
            ValueView::Unprotected(text),
        ),
        (Tag::Enabled, NodeView::AutoType(autotype)) => NodeView::AutoType(
            AutoTypeView { enabled: bool_or_false(text), ..autotype },
        ),
        (Tag::DefaultSequence, NodeView::AutoType(autotype)) => NodeView::AutoType(
            AutoTypeView { sequence: Some(text), ..autotype },
        ),
        (Tag::Window, NodeView::AutoTypeAssociation(association)) => NodeView::AutoTypeAssociation(
            AutoTypeAssociationView { window: Some(text), ..association },
        ),
        (
            Tag::KeystrokeSequence,
            NodeView::AutoTypeAssociation(association),
        ) => NodeView::AutoTypeAssociation(
            AutoTypeAssociationView { sequence: Some(text), ..association },
        ),
        (Tag::IconID, NodeView::Icon(IconView::IconID(_))) => NodeView::Icon(
            IconView::IconID(u8_or_zero(text)),
        ),
        (Tag::CustomIconUUID, NodeView::Icon(IconView::CustomIcon(_))) => NodeView::Icon(
            IconView::CustomIcon(text),
        ),
        (Tag::Generator, NodeView::Metadata(metadata)) => NodeView::Metadata(
            MetadataView { generator: text, ..metadata },
        ),
        (Tag::DatabaseName, NodeView::Metadata(metadata)) => NodeView::Metadata(
            MetadataView { name: text, ..metadata },
        ),
        (Tag::DatabaseDescription, NodeView::Metadata(metadata)) => NodeView::Metadata(
            MetadataView { description: text, ..metadata },
        ),
        (Tag::UUID, NodeView::CustomIcon(_, data)) => NodeView::CustomIcon(text, data),
        (Tag::Data, NodeView::CustomIcon(uuid, _)) => NodeView::CustomIcon(uuid, text),
        (_, top) => top,
    }
}

/// The field node once its protected value has been decrypted.
pub open spec fn with_secret(top: NodeView, plain: Seq<u8>) -> NodeView {
    match top {
        NodeView::KeyValue(key, _) => NodeView::KeyValue(key, ValueView::Protected(plain)),
        other => other,
    }
}

/// The outcome of reading character data, and the cipher afterwards.
///
/// Data outside any element, or while no node is under construction, is
/// skipped. The text of a protected value is decrypted, and a failure there
/// ends the decode. All other data is stored as [`with_text`] says, and
/// leaves the cipher alone.
pub open spec fn texted<C: Cipher>(state: DecoderView, text: Seq<char>, cipher: C) -> (
    Result<DecoderView, IntegrityError>,
    C,
) {
    if state.names.len() == 0 || state.nodes.len() == 0 {
        (Ok(state), cipher)
    } else {
        let tag = state.names.last();
        let top = state.nodes.last();
        if is_protected_site(tag, top) {
            let (plain, cipher) = unsealed(text, cipher);
            match plain {
                Ok(plain) => (
                    Ok(DecoderView { nodes: with_top(state.nodes, with_secret(top, plain)), ..state }),
                    cipher,
                ),
                Err(e) => (Err(e), cipher),
            }
        } else {
            (Ok(DecoderView { nodes: with_top(state.nodes, with_text(top, tag, text)), ..state }), cipher)
        }
    }
}

/// The outcome of one token, and the cipher afterwards.
pub open spec fn stepped<C: Cipher>(state: DecoderView, token: TokenView, cipher: C) -> (
    Result<DecoderView, IntegrityError>,
    C,
) {
    match token {
        TokenView::Open { name, attributes } => (Ok(opened(state, name, attributes)), cipher),
        TokenView::Close { name } => (Ok(closed(state, name)), cipher),
        TokenView::Text(text) => texted(state, text, cipher),
        TokenView::Other => (Ok(state), cipher),
    }
}

/// The outcome of a run of events, taken in order, and the cipher afterwards.
/// The first failure ends the run: a token that fails, or a `None`, which
/// marks the place where the tokenizer gave up.
pub open spec fn ran<C: Cipher>(
    state: DecoderView,
    events: Seq<Option<TokenView>>,
    cipher: C,
) -> (Result<DecoderView, IntegrityError>, C)
    decreases events.len(),
{
    if events.len() == 0 {
        (Ok(state), cipher)
    } else {
        match events[0] {
            Some(token) => {
                let (next, cipher) = stepped(state, token, cipher);
                match next {
                    Ok(next) => ran(next, events.drop_first(), cipher),
                    Err(e) => (Err(e), cipher),
                }
            },
            None => (Err(IntegrityError::Tokenizer), cipher),
        }
    }
}

/// Whether a parent has a place for a finished node of this kind.
pub open spec fn takes(parent: NodeView, node: NodeView) -> bool {
    match node {
        NodeView::KeyValue(_, _) => parent is Entry,
        NodeView::Group(_) => parent is Group,
        NodeView::Entry(_) => parent is Group,
        NodeView::AutoType(_) => parent is Entry,
        NodeView::AutoTypeAssociation(_) => parent is AutoType,
        NodeView::ExpiryTime(_) => parent is Entry || parent is Group,
        NodeView::Expires(_) => parent is Entry || parent is Group,
        NodeView::Icon(_) => parent is Entry || parent is Group,
        NodeView::CustomIcon(_, _) => parent is Metadata,
        NodeView::Metadata(_) => false,
    }
}

/// Whether the innermost node of a state is an orphan: it is not metadata,
/// which needs no parent, nor a group that would become the root, and the
/// node below it, where there is one, has no place for it.
pub open spec fn top_is_orphan(state: DecoderView) -> bool {
    &&& state.nodes.len() > 0
    &&& state.nodes.last() !is Metadata
    &&& if state.nodes.len() == 1 {
        state.nodes.last() !is Group
    } else {
        !takes(state.nodes[state.nodes.len() - 2], state.nodes.last())
    }
}

/// What a lenient decode passes over when an element opens: a `Protected`
/// attribute of a value element that spells no flag in any case.
pub open spec fn opening_recovery(
    name: Seq<char>,
    attributes: Seq<(Seq<char>, Seq<char>)>,
) -> Option<Recovery> {
    if tag_of_name(name) == Tag::Value {
        match attribute_named(attributes, "Protected"@) {
            Some(value) => if is_flag(ascii_lowered(value)) {
                None
            } else {
                Some(Recovery::Flag)
            },
            None => None,
        }
    } else {
        None
    }
}

/// What a lenient decode passes over when an element closes: an orphan, or
/// an expiry time that its parent would take but that cannot be decoded.
pub open spec fn closing_recovery(state: DecoderView, name: Seq<char>) -> Option<Recovery> {
    if is_structural(tag_of_name(name)) && state.nodes.len() > 0 {
        if top_is_orphan(state) {
            Some(Recovery::Orphan)
        } else {
            match state.nodes.last() {
                NodeView::ExpiryTime(raw) => if timestamp_of(raw) is Err {
                    Some(Recovery::Timestamp)
                } else {
                    None
                },
                _ => None,
            }
        }
    } else {
        None
    }
}

/// What a lenient decode passes over when it reads character data: the text
/// of an auto-type switch that spells no flag, or of an icon number that
/// spells no byte.
pub open spec fn text_recovery(state: DecoderView, text: Seq<char>) -> Option<Recovery> {
    if state.names.len() == 0 || state.nodes.len() == 0 {
        None
    } else {
        match (state.names.last(), state.nodes.last()) {
            (Tag::Enabled, NodeView::AutoType(_)) => if is_flag(text) {
                None
            } else {
                Some(Recovery::Flag)
            },
            (Tag::IconID, NodeView::Icon(IconView::IconID(_))) => if parsed_u8(text) is None {
                Some(Recovery::Number)
            } else {
                None
            },
            _ => None,
        }
    }
}

/// What a lenient decode passes over in silence when it takes `token` in
/// `state`, if anything.
pub open spec fn recovery_at(state: DecoderView, token: TokenView) -> Option<Recovery> {
    match token {
        TokenView::Open { name, attributes } => opening_recovery(name, attributes),
        TokenView::Close { name } => closing_recovery(state, name),
        TokenView::Text(text) => text_recovery(state, text),
        TokenView::Other => None,
    }
}

/// The outcome of a run of events under the strict rule, and the cipher
/// afterwards. The run goes as [`ran`] says, but ends with an error at the
/// first token that a lenient run would recover from, before that token has
/// any effect.
pub open spec fn ran_strictly<C: Cipher>(
    state: DecoderView,
    events: Seq<Option<TokenView>>,
    cipher: C,
) -> (Result<DecoderView, IntegrityError>, C)
    decreases events.len(),
{
    if events.len() == 0 {
        (Ok(state), cipher)
    } else {
        match events[0] {
            Some(token) => match recovery_at(state, token) {
                Some(recovery) => (Err(IntegrityError::Recovery(recovery)), cipher),
                None => {
                    let (next, cipher) = stepped(state, token, cipher);
                    match next {
                        Ok(next) => ran_strictly(next, events.drop_first(), cipher),
                        Err(e) => (Err(e), cipher),
                    }
                },
            },
            None => (Err(IntegrityError::Tokenizer), cipher),
        }
    }
}

/// How a decode treats what it cannot use.
#[derive(Clone, Copy, Debug, PartialEq, Eq, Structural)]
pub enum Mode {
    /// Pass over it in silence.
    Lenient,
    /// End the decode with an error.
    Strict,
}

impl Default for Mode {
    /// The lenient mode.
    fn default() -> (mode: Mode)
        ensures
            mode == Mode::Lenient,
    {
        Mode::Lenient
    }
}

/// The outcome of a run of events in the given mode.
pub open spec fn ran_in<C: Cipher>(
    mode: Mode,
    state: DecoderView,
    events: Seq<Option<TokenView>>,
    cipher: C,
) -> (Result<DecoderView, IntegrityError>, C) {
    match mode {
        Mode::Lenient => ran(state, events, cipher),
        Mode::Strict => ran_strictly(state, events, cipher),
    }
}

/// What a decode hands out at the end: the metadata, if any was read, and
/// the root group.
pub open spec fn harvest(state: DecoderView) -> (Option<MetadataView>, GroupView) {
    (state.metadata, state.root)
}

/// The result of decoding a whole run of events from the start in the given
/// mode, and the cipher afterwards.
pub open spec fn decoded_in<C: Cipher>(
    mode: Mode,
    events: Seq<Option<TokenView>>,
    cipher: C,
) -> (Result<(Option<MetadataView>, GroupView), IntegrityError>, C) {
    let (end, cipher) = ran_in(mode, initial(), events, cipher);
    match end {
        Ok(state) => (Ok(harvest(state)), cipher),
        Err(e) => (Err(e), cipher),
    }
}

/// The result of decoding a whole run of events from the start, leniently,
/// and the cipher afterwards.
pub open spec fn decoded<C: Cipher>(events: Seq<Option<TokenView>>, cipher: C) -> (
    Result<(Option<MetadataView>, GroupView), IntegrityError>,
    C,
) {
    decoded_in(Mode::Lenient, events, cipher)
}

} // verus!
