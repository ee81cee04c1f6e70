//! The credential tree that a decode produces: groups, entries and what
//! hangs off them, each with the mathematical value it stands for.

use crate::secret::secret_bytes;
use crate::strmap::StrMap;
use crate::time::Timestamp;
use secstr::SecVec;
use vstd::prelude::*;

verus! {

/// The characters of an optional string.
pub open spec fn text_view(text: Option<String>) -> Option<Seq<char>> {
    match text {
        Some(s) => Some(s@),
        None => None,
    }
}

/// The value of an entry's field.
#[derive(Debug, PartialEq, Eq)]
pub enum Value {
    /// Binary content. No decode produces it; it is there for callers.
    Bytes(Vec<u8>),
    /// Text stored in the clear.
    Unprotected(String),
    /// Decrypted text, held in a buffer that is wiped when released.
    Protected(SecVec<u8>),
}

/// What a [`Value`] stands for.
pub enum ValueView {
    Bytes(Seq<u8>),
    Unprotected(Seq<char>),
    Protected(Seq<u8>),
}

impl View for Value {
    type V = ValueView;

    open spec fn view(&self) -> ValueView {
        match *self {
            Value::Bytes(bytes) => ValueView::Bytes(bytes@),
            Value::Unprotected(text) => ValueView::Unprotected(text@),
            Value::Protected(secret) => ValueView::Protected(secret_bytes(secret)),
        }
    }
}

/// The icon of a group or an entry.
#[derive(Debug, PartialEq, Eq)]
pub enum Icon {
    /// One of the built-in icons, by number.
    IconID(u8),
    /// A custom icon of the database, by its UUID.
    CustomIcon(String),
}

/// What an [`Icon`] stands for.
pub enum IconView {
    IconID(u8),
    CustomIcon(Seq<char>),
}

impl View for Icon {
    type V = IconView;

    open spec fn view(&self) -> IconView {
        match *self {
            Icon::IconID(id) => IconView::IconID(id),
            Icon::CustomIcon(uuid) => IconView::CustomIcon(uuid@),
        }
    }
}

impl Default for Icon {
    /// The built-in icon number 0.
    fn default() -> (icon: Icon)
        ensures
            icon@ == IconView::IconID(0),
    {
        Icon::IconID(0)
    }
}

/// A keystroke sequence for windows that match a pattern.
#[derive(Debug, PartialEq, Eq)]
pub struct AutoTypeAssociation {
    pub window: Option<String>,
    pub sequence: Option<String>,
}

/// What an [`AutoTypeAssociation`] stands for.
pub struct AutoTypeAssociationView {
    pub window: Option<Seq<char>>,
    pub sequence: Option<Seq<char>>,
}

impl View for AutoTypeAssociation {
    type V = AutoTypeAssociationView;

    open spec fn view(&self) -> AutoTypeAssociationView {
        AutoTypeAssociationView {
            window: text_view(self.window),
            sequence: text_view(self.sequence),
        }
    }
}

impl Default for AutoTypeAssociation {
    fn default() -> (association: AutoTypeAssociation)
        ensures
            association@ == (AutoTypeAssociationView { window: None, sequence: None }),
    {
        AutoTypeAssociation { window: None, sequence: None }
    }
}

/// The auto-type settings of an entry.
#[derive(Debug, PartialEq, Eq)]
pub struct AutoType {
    pub enabled: bool,
    pub sequence: Option<String>,
    pub associations: Vec<AutoTypeAssociation>,
}

/// What an [`AutoType`] stands for.
pub struct AutoTypeView {
    pub enabled: bool,
    pub sequence: Option<Seq<char>>,
    pub associations: Seq<AutoTypeAssociationView>,
}

impl View for AutoType {
    type V = AutoTypeView;

    open spec fn view(&self) -> AutoTypeView {
        AutoTypeView {
            enabled: self.enabled,
            sequence: text_view(self.sequence),
            associations: self.associations@.map_values(|a: AutoTypeAssociation| a@),
        }
    }
}

impl Default for AutoType {
    fn default() -> (autotype: AutoType)
        ensures
            autotype@ == (AutoTypeView {
                enabled: false,
                sequence: None,
                associations: Seq::empty(),
            }),
    {
        let autotype = AutoType { enabled: false, sequence: None, associations: Vec::new() };
        assert(autotype@.associations =~= Seq::empty());
        autotype
    }
}

/// A credential record.
#[derive(Debug)]
pub struct Entry {
    pub fields: StrMap<Value>,
    pub times: StrMap<Timestamp>,
    pub autotype: Option<AutoType>,
    pub expires: bool,
    pub icon: Icon,
}

/// What an [`Entry`] stands for.
pub struct EntryView {
    pub fields: Map<Seq<char>, ValueView>,
    pub times: Map<Seq<char>, Timestamp>,
    pub autotype: Option<AutoTypeView>,
    pub expires: bool,
    pub icon: IconView,
}

/// The entry in which nothing has been set.
pub open spec fn empty_entry() -> EntryView {
    EntryView {
        fields: Map::empty(),
        times: Map::empty(),
        autotype: None,
        expires: false,
        icon: IconView::IconID(0),
    }
}

impl View for Entry {
    type V = EntryView;

    open spec fn view(&self) -> EntryView {
        EntryView {
            fields: self.fields@,
            times: self.times@,
            autotype: match self.autotype {
                Some(autotype) => Some(autotype@),
                None => None,
            },
            expires: self.expires,
            icon: self.icon@,
        }
    }
}

impl Default for Entry {
    fn default() -> (entry: Entry)
        ensures
            entry@ == empty_entry(),
    {
        Entry {
            fields: StrMap::new(),
            times: StrMap::new(),
            autotype: None,
            expires: false,
            icon: Icon::default(),
        }
    }
}

/// A folder of groups and entries.
#[derive(Debug)]
pub struct Group {
    pub name: String,
    pub children: Vec<Child>,
    pub times: StrMap<Timestamp>,
    pub expires: bool,
    pub icon: Icon,
}

/// A member of a group.
#[derive(Debug)]
pub enum Child {
    Group(Group),
    Entry(Entry),
}

/// What a [`Group`] stands for.
pub struct GroupView {
    pub name: Seq<char>,
    pub children: Seq<ChildView>,
    pub times: Map<Seq<char>, Timestamp>,
    pub expires: bool,
    pub icon: IconView,
}

/// What a [`Child`] stands for.
pub enum ChildView {
    Group(GroupView),
    Entry(EntryView),
}

/// The group in which nothing has been set.
pub open spec fn empty_group() -> GroupView {
    GroupView {
        name: Seq::empty(),
        children: Seq::empty(),
        times: Map::empty(),
        expires: false,
        icon: IconView::IconID(0),
    }
}

/// What a group stands for: its own settings, and what each of its children
/// stands for, in the same order.
pub open spec fn group_view(group: Group) -> GroupView
    decreases group,
{
    GroupView {
        name: group.name@,
        children: Seq::new(
            group.children@.len(),
            |i: int|
                if 0 <= i < group.children@.len() {
                    child_view(group.children@[i])
                } else {
                    arbitrary()
                },
        ),
        times: group.times@,
        expires: group.expires,
        icon: group.icon@,
    }
}

/// What a member of a group stands for.
pub open spec fn child_view(child: Child) -> ChildView
    decreases child,
{
    match child {
        Child::Group(group) => ChildView::Group(group_view(group)),
        Child::Entry(entry) => ChildView::Entry(entry@),
    }
}

impl View for Group {
    type V = GroupView;

    open spec fn view(&self) -> GroupView {
        group_view(*self)
    }
}

impl View for Child {
    type V = ChildView;

    open spec fn view(&self) -> ChildView {
        child_view(*self)
    }
}

impl Default for Group {
    fn default() -> (group: Group)
        ensures
            group@ == empty_group(),
    {
        let group = Group {
            name: String::new(),
            children: Vec::new(),
            times: StrMap::new(),
            expires: false,
            icon: Icon::default(),
        };
        assert(group@.children =~= Seq::empty());
        group
    }
}

/// What the database says about itself.
#[derive(Debug)]
pub struct Metadata {
    pub generator: String,
    pub name: String,
    pub description: String,
    pub custom_icons: StrMap<String>,
}

/// What a [`Metadata`] stands for.
pub struct MetadataView {
    pub generator: Seq<char>,
    pub name: Seq<char>,
    pub description: Seq<char>,
    pub custom_icons: Map<Seq<char>, Seq<char>>,
}

/// The metadata in which nothing has been set.
pub open spec fn empty_metadata() -> MetadataView {
    MetadataView {
        generator: Seq::empty(),
        name: Seq::empty(),
        description: Seq::empty(),
        custom_icons: Map::empty(),
    }
}

impl View for Metadata {
    type V = MetadataView;

    open spec fn view(&self) -> MetadataView {
        MetadataView {
            generator: self.generator@,
            name: self.name@,
            description: self.description@,
            custom_icons: self.custom_icons@,
        }
    }
}

impl Default for Metadata {
    fn default() -> (metadata: Metadata)
        ensures
            metadata@ == empty_metadata(),
    {
        Metadata {
            generator: String::new(),
            name: String::new(),
            description: String::new(),
            custom_icons: StrMap::new(),
        }
    }
}

} // verus!
