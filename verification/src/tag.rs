//! The element names that the decoder knows.

use crate::text::str_eq;
use vstd::prelude::*;

verus! {

/// What an element's local name means to the decoder.
#[derive(Clone, Copy, Debug, PartialEq, Eq, Structural)]
pub enum Tag {
    /// `Meta`: the database's description of itself.
    Meta,
    /// `Group`: a folder.
    Group,
    /// `Entry`: a credential record.
    Entry,
    /// `String`: a named field of an entry.
    Field,
    /// `Value`: the value of a field.
    Value,
    /// `AutoType`: auto-type settings.
    AutoType,
    /// `Association`: an auto-type rule for matching windows.
    Association,
    /// `ExpiryTime`: the time at which a group or an entry expires.
    ExpiryTime,
    /// `Expires`: whether a group or an entry expires.
    Expires,
    /// `IconID`: the number of a built-in icon.
    IconID,
    /// `CustomIconUUID`: the UUID of a custom icon in use.
    CustomIconUUID,
    /// `Icon`: a custom icon of the database.
    Icon,
    /// `Name`: the name of a group.
    Name,
    /// `Key`: the name of a field.
    Key,
    /// `Enabled`: whether auto-type is on.
    Enabled,
    /// `DefaultSequence`: the default keystroke sequence.
    DefaultSequence,
    /// `Window`: a window pattern.
    Window,
    /// `KeystrokeSequence`: the keystroke sequence of a rule.
    KeystrokeSequence,
    /// `Generator`: the program that wrote the database.
    Generator,
    /// `DatabaseName`: the name of the database.
    DatabaseName,
    /// `DatabaseDescription`: the description of the database.
    DatabaseDescription,
    /// `UUID`: the UUID of a custom icon.
    UUID,
    /// `Data`: the content of a custom icon.
    Data,
    /// Any other name.
    Other,
}

/// The tag that a local name stands for.
pub open spec fn tag_of_name(name: Seq<char>) -> Tag {
    if name == "Meta"@ {
        Tag::Meta
    } else if name == "Group"@ {
        Tag::Group
    } else if name == "Entry"@ {
        Tag::Entry
    } else if name == "String"@ {
        Tag::Field
    } else if name == "Value"@ {
        Tag::Value
    } else if name == "AutoType"@ {
        Tag::AutoType
    } else if name == "Association"@ {
        Tag::Association
    } else if name == "ExpiryTime"@ {
        Tag::ExpiryTime
    } else if name == "Expires"@ {
        Tag::Expires
    } else if name == "IconID"@ {
        Tag::IconID
    } else if name == "CustomIconUUID"@ {
        Tag::CustomIconUUID
    } else if name == "Icon"@ {
        Tag::Icon
    } else if name == "Name"@ {
        Tag::Name
    } else if name == "Key"@ {
        Tag::Key
    } else if name == "Enabled"@ {
        Tag::Enabled
    } else if name == "DefaultSequence"@ {
        Tag::DefaultSequence
    } else if name == "Window"@ {
        Tag::Window
    } else if name == "KeystrokeSequence"@ {
        Tag::KeystrokeSequence
    } else if name == "Generator"@ {
        Tag::Generator
    } else if name == "DatabaseName"@ {
        Tag::DatabaseName
    } else if name == "DatabaseDescription"@ {
        Tag::DatabaseDescription
    } else if name == "UUID"@ {
        Tag::UUID
    } else if name == "Data"@ {
        Tag::Data
    } else {
        Tag::Other
    }
}

/// Whether elements with this tag have a node of their own on the builder
/// stack, pushed when they open and taken off when they close.
pub open spec fn is_structural(tag: Tag) -> bool {
    tag == Tag::Meta || tag == Tag::Group || tag == Tag::Entry || tag == Tag::Field || tag
        == Tag::AutoType || tag == Tag::Association || tag == Tag::ExpiryTime || tag
        == Tag::Expires || tag == Tag::IconID || tag == Tag::CustomIconUUID || tag == Tag::Icon
}

/// Each known name stands for its own tag.
pub proof fn lemma_known_names()
    ensures
        tag_of_name("Meta"@) == Tag::Meta,
        tag_of_name("Group"@) == Tag::Group,
        tag_of_name("Entry"@) == Tag::Entry,
        tag_of_name("String"@) == Tag::Field,
        tag_of_name("Value"@) == Tag::Value,
        tag_of_name("AutoType"@) == Tag::AutoType,
        tag_of_name("Association"@) == Tag::Association,
        tag_of_name("ExpiryTime"@) == Tag::ExpiryTime,
        tag_of_name("Expires"@) == Tag::Expires,
        tag_of_name("IconID"@) == Tag::IconID,
        tag_of_name("CustomIconUUID"@) == Tag::CustomIconUUID,
        tag_of_name("Icon"@) == Tag::Icon,
        tag_of_name("Name"@) == Tag::Name,
        tag_of_name("Key"@) == Tag::Key,
        tag_of_name("Enabled"@) == Tag::Enabled,
        tag_of_name("DefaultSequence"@) == Tag::DefaultSequence,
        tag_of_name("Window"@) == Tag::Window,
        tag_of_name("KeystrokeSequence"@) == Tag::KeystrokeSequence,
        tag_of_name("Generator"@) == Tag::Generator,
        tag_of_name("DatabaseName"@) == Tag::DatabaseName,
        tag_of_name("DatabaseDescription"@) == Tag::DatabaseDescription,
        tag_of_name("UUID"@) == Tag::UUID,
        tag_of_name("Data"@) == Tag::Data,
{
    reveal_strlit("Meta");
    reveal_strlit("Group");
    reveal_strlit("Entry");
    reveal_strlit("String");
    reveal_strlit("Value");
    reveal_strlit("AutoType");
    reveal_strlit("Association");
    reveal_strlit("ExpiryTime");
    reveal_strlit("Expires");
    reveal_strlit("IconID");
    reveal_strlit("CustomIconUUID");
    reveal_strlit("Icon");
    reveal_strlit("Name");
    reveal_strlit("Key");
    reveal_strlit("Enabled");
    reveal_strlit("DefaultSequence");
    reveal_strlit("Window");
    reveal_strlit("KeystrokeSequence");
    reveal_strlit("Generator");
    reveal_strlit("DatabaseName");
    reveal_strlit("DatabaseDescription");
    reveal_strlit("UUID");
    reveal_strlit("Data");
    // Names of different lengths are different names.
    assert("Meta"@.len() == 4);
    assert("Group"@.len() == 5);
    assert("Entry"@.len() == 5);
    assert("String"@.len() == 6);
    assert("Value"@.len() == 5);
    assert("AutoType"@.len() == 8);
    assert("Association"@.len() == 11);
    assert("ExpiryTime"@.len() == 10);
    assert("Expires"@.len() == 7);
    assert("IconID"@.len() == 6);
    assert("CustomIconUUID"@.len() == 14);
    assert("Icon"@.len() == 4);
    assert("Name"@.len() == 4);
    assert("Key"@.len() == 3);
    assert("Enabled"@.len() == 7);
    assert("DefaultSequence"@.len() == 15);
    assert("Window"@.len() == 6);
    assert("KeystrokeSequence"@.len() == 17);
    assert("Generator"@.len() == 9);
    assert("DatabaseName"@.len() == 12);
    assert("DatabaseDescription"@.len() == 19);
    assert("UUID"@.len() == 4);
    assert("Data"@.len() == 4);
    // Names of the same length differ in some character.
    assert("Entry"@[0] != "Group"@[0]);
    assert("Value"@[0] != "Group"@[0]);
    assert("Value"@[0] != "Entry"@[0]);
    assert("IconID"@[0] != "String"@[0]);
    assert("Icon"@[0] != "Meta"@[0]);
    assert("Name"@[0] != "Meta"@[0]);
    assert("Name"@[0] != "Icon"@[0]);
    assert("Enabled"@[1] != "Expires"@[1]);
    assert("Window"@[0] != "String"@[0]);
    assert("Window"@[0] != "IconID"@[0]);
    assert("UUID"@[0] != "Meta"@[0]);
    assert("UUID"@[0] != "Icon"@[0]);
    assert("UUID"@[0] != "Name"@[0]);
    assert("Data"@[0] != "Meta"@[0]);
    assert("Data"@[0] != "Icon"@[0]);
    assert("Data"@[0] != "Name"@[0]);
    assert("Data"@[0] != "UUID"@[0]);
}

impl Tag {
    /// Reads the tag of a local name.
    pub fn of(name: &str) -> (tag: Tag)
        ensures
            tag == tag_of_name(name@),
    {
        if str_eq(name, "Meta") {
            Tag::Meta
        } else if str_eq(name, "Group") {
            Tag::Group
        } else if str_eq(name, "Entry") {
            Tag::Entry
        } else if str_eq(name, "String") {
            Tag::Field
        } else if str_eq(name, "Value") {
            Tag::Value
        } else if str_eq(name, "AutoType") {
            Tag::AutoType
        } else if str_eq(name, "Association") {
            Tag::Association
        } else if str_eq(name, "ExpiryTime") {
            Tag::ExpiryTime
        } else if str_eq(name, "Expires") {
            Tag::Expires
        } else if str_eq(name, "IconID") {
            Tag::IconID
        } else if str_eq(name, "CustomIconUUID") {
            Tag::CustomIconUUID
        } else if str_eq(name, "Icon") {
            Tag::Icon
        } else if str_eq(name, "Name") {
            Tag::Name
        } else if str_eq(name, "Key") {
            Tag::Key
        } else if str_eq(name, "Enabled") {
            Tag::Enabled
        } else if str_eq(name, "DefaultSequence") {
            Tag::DefaultSequence
        } else if str_eq(name, "Window") {
            Tag::Window
        } else if str_eq(name, "KeystrokeSequence") {
            Tag::KeystrokeSequence
        } else if str_eq(name, "Generator") {
            Tag::Generator
        } else if str_eq(name, "DatabaseName") {
            Tag::DatabaseName
        } else if str_eq(name, "DatabaseDescription") {
            Tag::DatabaseDescription
        } else if str_eq(name, "UUID") {
            Tag::UUID
        } else if str_eq(name, "Data") {
            Tag::Data
        } else {
            Tag::Other
        }
    }

    /// Whether elements with this tag have a node of their own.
    pub fn structural(self) -> (yes: bool)
        ensures
            yes == is_structural(self),
    {
        match self {
            Tag::Meta | Tag::Group | Tag::Entry | Tag::Field | Tag::AutoType | Tag::Association
            | Tag::ExpiryTime | Tag::Expires | Tag::IconID | Tag::CustomIconUUID | Tag::Icon => true,
            _ => false,
        }
    }
}

} // verus!
