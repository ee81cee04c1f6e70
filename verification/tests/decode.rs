use kdbx_xml::cipher::{Cipher, PlainCipher};
use kdbx_xml::db::{AutoTypeAssociation, Child, Entry, Group, Icon, Value};
use kdbx_xml::decoder::parse_xml_block;
use kdbx_xml::error::{CipherError, IntegrityError};
use kdbx_xml::time::Timestamp;
use secstr::SecStr;

/// A toy stream cipher: each byte is XORed with the next byte of a keystream
/// that depends on how many bytes went through before.
struct Keystream {
    seed: u8,
    position: usize,
}

impl Keystream {
    fn new(seed: u8) -> Self {
        Keystream { seed, position: 0 }
    }

    fn apply(&mut self, input: &[u8]) -> Vec<u8> {
        let mut out = Vec::new();
        for b in input {
            let k = self.seed.wrapping_add((self.position as u8).wrapping_mul(31)).wrapping_add(7);
            out.push(b ^ k);
            self.position += 1;
        }
        out
    }
}

impl Cipher for Keystream {
    fn decrypt(&mut self, ciphertext: &[u8]) -> Result<Vec<u8>, CipherError> {
        Ok(self.apply(ciphertext))
    }
}

/// A cipher that hands its input back and keeps a record of every call.
struct Recorder {
    calls: Vec<Vec<u8>>,
}

impl Cipher for Recorder {
    fn decrypt(&mut self, ciphertext: &[u8]) -> Result<Vec<u8>, CipherError> {
        self.calls.push(ciphertext.to_vec());
        Ok(ciphertext.to_vec())
    }
}

/// A cipher that refuses everything.
struct Refuser;

impl Cipher for Refuser {
    fn decrypt(&mut self, _ciphertext: &[u8]) -> Result<Vec<u8>, CipherError> {
        Err(CipherError)
    }
}

fn decode_plain(xml: &str) -> (Option<kdbx_xml::db::Metadata>, Group) {
    let mut cipher = Recorder { calls: Vec::new() };
    let decoded = parse_xml_block(xml.as_bytes(), &mut cipher).unwrap();
    assert!(cipher.calls.is_empty());
    decoded
}

fn entry_at(group: &Group, i: usize) -> &Entry {
    match &group.children[i] {
        Child::Entry(entry) => entry,
        Child::Group(_) => panic!("expected an entry"),
    }
}

fn group_at(group: &Group, i: usize) -> &Group {
    match &group.children[i] {
        Child::Group(inner) => inner,
        Child::Entry(_) => panic!("expected a group"),
    }
}

fn clear(text: &str) -> Value {
    Value::Unprotected(text.to_string())
}

fn secret(text: &str) -> Value {
    Value::Protected(SecStr::from(text))
}

#[test]
fn entry_with_clear_and_protected_fields() {
    let mut writer = Keystream::new(42);
    let password = base64::encode(writer.apply(b"secret"));
    let xml = format!(
        "<KeePassFile><Root><Group><Name>top</Name><Entry>\
         <String><Key>Title</Key><Value>foo</Value></String>\
         <String><Key>Password</Key><Value Protected=\"True\">{}</Value></String>\
         <Times><ExpiryTime>2023-09-01T00:00:00Z</ExpiryTime><Expires>True</Expires></Times>\
         </Entry></Group></Root></KeePassFile>",
        password
    );
    let mut cipher = Keystream::new(42);
    let (metadata, root) = parse_xml_block(xml.as_bytes(), &mut cipher).unwrap();
    assert!(metadata.is_none());
    assert_eq!(root.name, "top");
    assert_eq!(root.children.len(), 1);
    let entry = entry_at(&root, 0);
    assert_eq!(entry.fields.len(), 2);
    assert_eq!(entry.fields.get("Title"), Some(&clear("foo")));
    assert_eq!(entry.fields.get("Password"), Some(&secret("secret")));
    assert_eq!(entry.times.len(), 1);
    assert_eq!(
        entry.times.get("ExpiryTime"),
        Some(&Timestamp { year: 2023, month: 9, day: 1, hour: 0, minute: 0, second: 0, nanosecond: 0 })
    );
    assert!(entry.expires);
    assert_eq!(entry.icon, Icon::IconID(0));
    assert!(entry.autotype.is_none());
}

#[test]
fn duplicate_custom_icon_keeps_the_last_data() {
    let xml = "<KeePassFile><Meta><Generator>g</Generator><CustomIcons>\
               <Icon><UUID>a</UUID><Data>d1</Data></Icon>\
               <Icon><UUID>a</UUID><Data>d2</Data></Icon>\
               </CustomIcons></Meta><Root><Group/></Root></KeePassFile>";
    let (metadata, _root) = decode_plain(xml);
    let metadata = metadata.unwrap();
    assert_eq!(metadata.generator, "g");
    assert_eq!(metadata.custom_icons.len(), 1);
    assert_eq!(metadata.custom_icons.get("a"), Some(&"d2".to_string()));
}

#[test]
fn metadata_fields_are_read() {
    let xml = "<KeePassFile><Meta><Generator>KeePass</Generator>\
               <DatabaseName>home</DatabaseName>\
               <DatabaseDescription>all of it</DatabaseDescription>\
               <CustomIcons><Icon><UUID>u1</UUID><Data>AAAA</Data></Icon>\
               <Icon><UUID>u2</UUID><Data>BBBB</Data></Icon></CustomIcons>\
               </Meta><Root><Group><Name>r</Name></Group></Root></KeePassFile>";
    let (metadata, root) = decode_plain(xml);
    let metadata = metadata.unwrap();
    assert_eq!(metadata.generator, "KeePass");
    assert_eq!(metadata.name, "home");
    assert_eq!(metadata.description, "all of it");
    assert_eq!(metadata.custom_icons.len(), 2);
    assert_eq!(metadata.custom_icons.get("u1"), Some(&"AAAA".to_string()));
    assert_eq!(metadata.custom_icons.get("u2"), Some(&"BBBB".to_string()));
    assert_eq!(root.name, "r");
}

#[test]
fn last_metadata_element_wins() {
    let xml = "<KeePassFile><Meta><Generator>one</Generator></Meta>\
               <Meta><DatabaseName>two</DatabaseName></Meta></KeePassFile>";
    let (metadata, root) = decode_plain(xml);
    let metadata = metadata.unwrap();
    assert_eq!(metadata.generator, "");
    assert_eq!(metadata.name, "two");
    assert_eq!(root.name, "");
    assert!(root.children.is_empty());
}

#[test]
fn document_without_groups_gives_an_empty_root() {
    let (metadata, root) = decode_plain("<KeePassFile></KeePassFile>");
    assert!(metadata.is_none());
    assert_eq!(root.name, "");
    assert!(root.children.is_empty());
    assert!(root.times.is_empty());
    assert!(!root.expires);
    assert_eq!(root.icon, Icon::IconID(0));
}

#[test]
fn children_keep_document_order_at_every_level() {
    let xml = "<Root><Group><Name>root</Name>\
               <Group><Name>a</Name>\
                 <Entry><String><Key>Title</Key><Value>a1</Value></String></Entry>\
                 <Group><Name>aa</Name>\
                   <Group><Name>aaa</Name></Group>\
                   <Entry><String><Key>Title</Key><Value>aa1</Value></String></Entry>\
                 </Group>\
                 <Entry><String><Key>Title</Key><Value>a2</Value></String></Entry>\
               </Group>\
               <Entry><String><Key>Title</Key><Value>r1</Value></String></Entry>\
               <Group><Name>b</Name></Group>\
               <Entry><String><Key>Title</Key><Value>r2</Value></String></Entry>\
               </Group></Root>";
    let (_, root) = decode_plain(xml);
    assert_eq!(root.name, "root");
    assert_eq!(root.children.len(), 4);
    let a = group_at(&root, 0);
    assert_eq!(a.name, "a");
    assert_eq!(entry_at(&root, 1).fields.get("Title"), Some(&clear("r1")));
    let b = group_at(&root, 2);
    assert_eq!(b.name, "b");
    assert!(b.children.is_empty());
    assert_eq!(entry_at(&root, 3).fields.get("Title"), Some(&clear("r2")));
    assert_eq!(a.children.len(), 3);
    assert_eq!(entry_at(a, 0).fields.get("Title"), Some(&clear("a1")));
    let aa = group_at(a, 1);
    assert_eq!(aa.name, "aa");
    assert_eq!(entry_at(a, 2).fields.get("Title"), Some(&clear("a2")));
    assert_eq!(aa.children.len(), 2);
    let aaa = group_at(aa, 0);
    assert_eq!(aaa.name, "aaa");
    assert!(aaa.children.is_empty());
    assert_eq!(entry_at(aa, 1).fields.get("Title"), Some(&clear("aa1")));
}

#[test]
fn nesting_depth_matches_the_document() {
    let depth = 40;
    let mut xml = String::new();
    for i in 0..depth {
        xml.push_str(&format!("<Group><Name>{}</Name>", i));
    }
    for _ in 0..depth {
        xml.push_str("</Group>");
    }
    let (_, root) = decode_plain(&xml);
    let mut group = &root;
    for i in 0..depth {
        assert_eq!(group.name, i.to_string());
        if i + 1 < depth {
            assert_eq!(group.children.len(), 1);
            group = group_at(group, 0);
        } else {
            assert!(group.children.is_empty());
        }
    }
}

fn document_of_secrets(seed: u8, plaintexts: &[&str]) -> String {
    let mut writer = Keystream::new(seed);
    let mut xml = String::from("<Group><Entry>");
    for (i, plain) in plaintexts.iter().enumerate() {
        let text = base64::encode(writer.apply(plain.as_bytes()));
        xml.push_str(&format!(
            "<String><Key>k{}</Key><Value Protected=\"True\">{}</Value></String>",
            i, text
        ));
    }
    xml.push_str("</Entry></Group>");
    xml
}

#[test]
fn protected_values_are_recovered_in_order() {
    let plaintexts = ["alpha", "beta", "", "gamma delta", "\u{3b5}psilon", "zeta"];
    let xml = document_of_secrets(9, &plaintexts);
    let mut cipher = Keystream::new(9);
    let (_, root) = parse_xml_block(xml.as_bytes(), &mut cipher).unwrap();
    let entry = entry_at(&root, 0);
    assert_eq!(entry.fields.len(), plaintexts.len());
    for (i, plain) in plaintexts.iter().enumerate() {
        assert_eq!(entry.fields.get(&format!("k{}", i)), Some(&secret(plain)));
    }
    let total: usize = plaintexts.iter().map(|p| p.len()).sum();
    assert_eq!(cipher.position, total);
}

#[test]
fn perturbed_cipher_does_not_recover_the_plaintexts() {
    let plaintexts = ["alpha", "beta", "gamma"];
    let xml = document_of_secrets(9, &plaintexts);

    let mut ahead = Keystream::new(9);
    ahead.apply(b"x");
    match parse_xml_block(xml.as_bytes(), &mut ahead) {
        Ok((_, root)) => {
            let entry = entry_at(&root, 0);
            for (i, plain) in plaintexts.iter().enumerate() {
                assert_ne!(entry.fields.get(&format!("k{}", i)), Some(&secret(plain)));
            }
        }
        Err(e) => assert_eq!(e, IntegrityError::Encoding),
    }

    let mut other = Keystream::new(10);
    match parse_xml_block(xml.as_bytes(), &mut other) {
        Ok((_, root)) => {
            let entry = entry_at(&root, 0);
            for (i, plain) in plaintexts.iter().enumerate() {
                assert_ne!(entry.fields.get(&format!("k{}", i)), Some(&secret(plain)));
            }
        }
        Err(e) => assert_eq!(e, IntegrityError::Encoding),
    }
}

#[test]
fn cipher_sees_each_protected_value_once_and_in_order() {
    let xml = format!(
        "<Group><Entry>\
         <String><Key>a</Key><Value Protected=\"True\">{}</Value></String>\
         <String><Key>b</Key><Value>{}</Value></String>\
         <String><Key>c</Key><Value Protected=\"true\">{}</Value></String>\
         </Entry><Group><Entry>\
         <String><Key>d</Key><Value Protected=\"TRUE\">{}</Value></String>\
         <String><Key>e</Key><Value Protected=\"False\">{}</Value></String>\
         </Entry></Group></Group>",
        base64::encode("one"),
        base64::encode("clear"),
        base64::encode("two"),
        base64::encode("three"),
        base64::encode("also clear"),
    );
    let mut cipher = Recorder { calls: Vec::new() };
    let (_, root) = parse_xml_block(xml.as_bytes(), &mut cipher).unwrap();
    assert_eq!(cipher.calls, vec![b"one".to_vec(), b"two".to_vec(), b"three".to_vec()]);
    let first = entry_at(&root, 0);
    assert_eq!(first.fields.get("a"), Some(&secret("one")));
    assert_eq!(first.fields.get("b"), Some(&clear(&base64::encode("clear"))));
    assert_eq!(first.fields.get("c"), Some(&secret("two")));
    let second = entry_at(group_at(&root, 1), 0);
    assert_eq!(second.fields.get("d"), Some(&secret("three")));
    assert_eq!(second.fields.get("e"), Some(&clear(&base64::encode("also clear"))));
}

#[test]
fn protected_value_without_text_stays_empty() {
    let xml = "<Group><Entry><String><Key>k</Key><Value Protected=\"True\"/></String>\
               </Entry></Group>";
    let mut cipher = Recorder { calls: Vec::new() };
    let (_, root) = parse_xml_block(xml.as_bytes(), &mut cipher).unwrap();
    assert!(cipher.calls.is_empty());
    assert_eq!(entry_at(&root, 0).fields.get("k"), Some(&secret("")));
}

#[test]
fn duplicate_field_names_keep_the_last_value() {
    let xml = format!(
        "<Group><Entry>\
         <String><Key>Title</Key><Value>first</Value></String>\
         <String><Key>Other</Key><Value>o</Value></String>\
         <String><Key>Title</Key><Value Protected=\"True\">{}</Value></String>\
         <String><Key>Title</Key><Value>last</Value></String>\
         </Entry></Group>",
        base64::encode("middle")
    );
    let mut cipher = Recorder { calls: Vec::new() };
    let (_, root) = parse_xml_block(xml.as_bytes(), &mut cipher).unwrap();
    let entry = entry_at(&root, 0);
    assert_eq!(entry.fields.len(), 2);
    assert_eq!(entry.fields.get("Title"), Some(&clear("last")));
    assert_eq!(entry.fields.get("Other"), Some(&clear("o")));
    assert_eq!(cipher.calls.len(), 1);
}

#[test]
fn field_outside_any_entry_is_dropped() {
    let xml = "<Group><Name>g</Name>\
               <String><Key>Stray</Key><Value>v</Value></String>\
               <Entry><String><Key>Title</Key><Value>t</Value></String></Entry>\
               </Group>";
    let (metadata, root) = decode_plain(xml);
    assert!(metadata.is_none());
    assert_eq!(root.name, "g");
    assert_eq!(root.children.len(), 1);
    let entry = entry_at(&root, 0);
    assert_eq!(entry.fields.len(), 1);
    assert_eq!(entry.fields.get("Title"), Some(&clear("t")));
    assert!(!entry.fields.contains_key("Stray"));
    assert!(root.times.is_empty());
}

#[test]
fn misplaced_nodes_are_dropped_without_an_error() {
    let xml = "<Group>\
               <AutoType><Enabled>true</Enabled></AutoType>\
               <Association><Window>w</Window></Association>\
               <Icon><UUID>u</UUID><Data>d</Data></Icon>\
               <Entry>\
                 <Entry><String><Key>Inner</Key><Value>i</Value></String></Entry>\
                 <Group><Name>inner</Name></Group>\
                 <Association><Window>w</Window></Association>\
                 <Icon><UUID>u</UUID><Data>d</Data></Icon>\
                 <String><Key>Title</Key><Value>t</Value></String>\
               </Entry>\
               </Group>";
    let (metadata, root) = decode_plain(xml);
    assert!(metadata.is_none());
    assert_eq!(root.children.len(), 1);
    let entry = entry_at(&root, 0);
    assert_eq!(entry.fields.len(), 1);
    assert_eq!(entry.fields.get("Title"), Some(&clear("t")));
    assert!(entry.autotype.is_none());
}

#[test]
fn stray_nodes_at_the_top_are_dropped() {
    let xml = "<KeePassFile><ExpiryTime>2023-09-01T00:00:00Z</ExpiryTime><Expires>True</Expires>\
               <IconID>3</IconID><Entry><String><Key>a</Key><Value>b</Value></String></Entry>\
               <Group><Name>g</Name></Group></KeePassFile>";
    let (metadata, root) = decode_plain(xml);
    assert!(metadata.is_none());
    assert_eq!(root.name, "g");
    assert!(root.children.is_empty());
    assert!(root.times.is_empty());
    assert!(!root.expires);
    assert_eq!(root.icon, Icon::IconID(0));
}

#[test]
fn last_top_level_group_is_the_root() {
    let (_, root) = decode_plain("<R><Group><Name>one</Name></Group><Group><Name>two</Name></Group></R>");
    assert_eq!(root.name, "two");
}

#[test]
fn expiry_time_and_flag_of_a_group() {
    let seconds = base64::encode(63_829_123_200i64.to_le_bytes());
    let xml = format!(
        "<Group><Times><ExpiryTime>{}</ExpiryTime><Expires>True</Expires></Times>\
         <Entry><Times><Expires>False</Expires><ExpiryTime>1999-12-31T23:59:59Z</ExpiryTime></Times></Entry>\
         </Group>",
        seconds
    );
    let (_, root) = decode_plain(&xml);
    assert!(root.expires);
    assert_eq!(
        root.times.get("ExpiryTime"),
        Some(&Timestamp { year: 2023, month: 9, day: 1, hour: 0, minute: 0, second: 0, nanosecond: 0 })
    );
    let entry = entry_at(&root, 0);
    assert!(!entry.expires);
    assert_eq!(
        entry.times.get("ExpiryTime"),
        Some(&Timestamp { year: 1999, month: 12, day: 31, hour: 23, minute: 59, second: 59, nanosecond: 0 })
    );
}

#[test]
fn unreadable_expiry_time_is_passed_over() {
    let xml = "<Group><ExpiryTime>soon</ExpiryTime>\
               <Entry><ExpiryTime>AAAA</ExpiryTime><Expires>True</Expires></Entry>\
               <Entry><ExpiryTime>2023-02-30T00:00:00Z</ExpiryTime></Entry>\
               <Entry><ExpiryTime/></Entry></Group>";
    let (_, root) = decode_plain(xml);
    assert!(root.times.is_empty());
    assert_eq!(root.children.len(), 3);
    assert!(entry_at(&root, 0).times.is_empty());
    assert!(entry_at(&root, 0).expires);
    assert!(entry_at(&root, 1).times.is_empty());
    assert!(entry_at(&root, 2).times.is_empty());
}

#[test]
fn expires_is_set_by_the_exact_word_only() {
    let xml = "<Group><Entry><Expires>true</Expires></Entry><Entry><Expires>True</Expires></Entry>\
               <Entry><Expires>TRUE</Expires></Entry><Entry><Expires>1</Expires></Entry>\
               <Entry><Expires>True</Expires><Expires>False</Expires></Entry></Group>";
    let (_, root) = decode_plain(xml);
    assert!(!entry_at(&root, 0).expires);
    assert!(entry_at(&root, 1).expires);
    assert!(!entry_at(&root, 2).expires);
    assert!(!entry_at(&root, 3).expires);
    assert!(!entry_at(&root, 4).expires);
}

#[test]
fn icons_of_groups_and_entries() {
    let xml = "<Group><IconID>48</IconID>\
               <Entry><IconID>7</IconID></Entry>\
               <Entry><IconID>7</IconID><CustomIconUUID>abc</CustomIconUUID></Entry>\
               <Entry><IconID>many</IconID></Entry>\
               <Entry><IconID>256</IconID></Entry>\
               <Entry><CustomIconUUID/></Entry>\
               <Entry/></Group>";
    let (_, root) = decode_plain(xml);
    assert_eq!(root.icon, Icon::IconID(48));
    assert_eq!(entry_at(&root, 0).icon, Icon::IconID(7));
    assert_eq!(entry_at(&root, 1).icon, Icon::CustomIcon("abc".to_string()));
    assert_eq!(entry_at(&root, 2).icon, Icon::IconID(0));
    assert_eq!(entry_at(&root, 3).icon, Icon::IconID(0));
    assert_eq!(entry_at(&root, 4).icon, Icon::CustomIcon(String::new()));
    assert_eq!(entry_at(&root, 5).icon, Icon::IconID(0));
}

#[test]
fn autotype_with_associations() {
    let xml = "<Group><Entry><AutoType><Enabled>true</Enabled>\
               <DefaultSequence>{USERNAME}{TAB}{PASSWORD}</DefaultSequence>\
               <Association><Window>Browser</Window><KeystrokeSequence>{PASSWORD}</KeystrokeSequence></Association>\
               <Association><Window>Terminal</Window></Association>\
               <Association/>\
               </AutoType></Entry>\
               <Entry><AutoType><Enabled>True</Enabled></AutoType></Entry>\
               <Entry><AutoType><Enabled>true</Enabled></AutoType><AutoType/></Entry></Group>";
    let (_, root) = decode_plain(xml);
    let autotype = entry_at(&root, 0).autotype.as_ref().unwrap();
    assert!(autotype.enabled);
    assert_eq!(autotype.sequence, Some("{USERNAME}{TAB}{PASSWORD}".to_string()));
    assert_eq!(
        autotype.associations,
        vec![
            AutoTypeAssociation {
                window: Some("Browser".to_string()),
                sequence: Some("{PASSWORD}".to_string())
            },
            AutoTypeAssociation { window: Some("Terminal".to_string()), sequence: None },
            AutoTypeAssociation { window: None, sequence: None },
        ]
    );
    let capitalised = entry_at(&root, 1).autotype.as_ref().unwrap();
    assert!(!capitalised.enabled);
    assert_eq!(capitalised.sequence, None);
    assert!(capitalised.associations.is_empty());
    let replaced = entry_at(&root, 2).autotype.as_ref().unwrap();
    assert!(!replaced.enabled);
}

#[test]
fn unknown_elements_are_transparent() {
    let xml = "<?xml version=\"1.0\" encoding=\"utf-8\"?><!-- note --><KeePassFile><Root>\
               <Group><Wrapper><Name>g</Name></Wrapper><UUID>ignored</UUID>\
               <Entry><History><Extra>x</Extra></History>\
               <String><Key>Title</Key><Value>t</Value><Note>n</Note></String></Entry>\
               </Group></Root></KeePassFile>";
    let (_, root) = decode_plain(xml);
    assert_eq!(root.name, "g");
    assert_eq!(entry_at(&root, 0).fields.get("Title"), Some(&clear("t")));
    assert_eq!(entry_at(&root, 0).fields.len(), 1);
}

#[test]
fn entities_are_resolved_and_cdata_is_skipped() {
    let xml = "<Group><Name>a &amp; b &lt;c&gt;</Name>\
               <Entry><String><Key>k</Key><Value><![CDATA[raw]]></Value></String></Entry></Group>";
    let (_, root) = decode_plain(xml);
    assert_eq!(root.name, "a & b <c>");
    assert_eq!(entry_at(&root, 0).fields.get("k"), Some(&clear("")));
}

#[test]
fn namespace_prefixes_are_set_aside() {
    let xml = "<k:Group xmlns:k=\"urn:k\"><k:Name>g</k:Name><k:Entry>\
               <k:String><k:Key>a</k:Key><k:Value k:Protected=\"True\">Yg==</k:Value></k:String>\
               </k:Entry></k:Group>";
    let mut cipher = Recorder { calls: Vec::new() };
    let (_, root) = parse_xml_block(xml.as_bytes(), &mut cipher).unwrap();
    assert_eq!(root.name, "g");
    assert_eq!(entry_at(&root, 0).fields.get("a"), Some(&secret("b")));
    assert_eq!(cipher.calls, vec![b"b".to_vec()]);
}

#[test]
fn first_protected_attribute_decides() {
    let xml = "<Group><Entry>\
               <String><Key>a</Key><Value a:Protected=\"no\" b:Protected=\"True\" xmlns:a=\"urn:a\" xmlns:b=\"urn:b\">Yg==</Value></String>\
               <String><Key>b</Key><Value Other=\"True\">Yg==</Value></String>\
               <String><Key>c</Key><Value Protected=\"\">Yg==</Value></String>\
               </Entry></Group>";
    let (_, root) = decode_plain(xml);
    let entry = entry_at(&root, 0);
    assert_eq!(entry.fields.get("a"), Some(&clear("Yg==")));
    assert_eq!(entry.fields.get("b"), Some(&clear("Yg==")));
    assert_eq!(entry.fields.get("c"), Some(&clear("Yg==")));
}

#[test]
fn protected_text_that_is_not_base64_is_a_decode_error() {
    let xml = "<Group><Entry><String><Key>k</Key><Value Protected=\"True\">not base64!</Value>\
               </String></Entry></Group>";
    let mut cipher = Recorder { calls: Vec::new() };
    let result = parse_xml_block(xml.as_bytes(), &mut cipher);
    assert_eq!(result.err(), Some(IntegrityError::Decode));
    assert!(cipher.calls.is_empty());
}

#[test]
fn refusal_of_the_cipher_is_a_cipher_error() {
    let xml = "<Group><Entry><String><Key>k</Key><Value Protected=\"True\">Yg==</Value>\
               </String></Entry></Group>";
    let result = parse_xml_block(xml.as_bytes(), &mut Refuser);
    assert_eq!(result.err(), Some(IntegrityError::Cipher));
}

#[test]
fn plaintext_that_is_not_utf8_is_an_encoding_error() {
    let xml = format!(
        "<Group><Entry><String><Key>k</Key><Value Protected=\"True\">{}</Value>\
         </String></Entry></Group>",
        base64::encode([0x66u8, 0xff, 0x6f])
    );
    let mut cipher = Recorder { calls: Vec::new() };
    let result = parse_xml_block(xml.as_bytes(), &mut cipher);
    assert_eq!(result.err(), Some(IntegrityError::Encoding));
    assert_eq!(cipher.calls.len(), 1);
}

#[test]
fn malformed_document_is_a_tokenizer_error() {
    let mut cipher = Recorder { calls: Vec::new() };
    let result = parse_xml_block(b"<KeePassFile><Root></KeePassFile>", &mut cipher);
    assert_eq!(result.err(), Some(IntegrityError::Tokenizer));
    let result = parse_xml_block(b"", &mut cipher);
    assert_eq!(result.err(), Some(IntegrityError::Tokenizer));
    let result = parse_xml_block(b"<Group><Name>g</Name>", &mut cipher);
    assert_eq!(result.err(), Some(IntegrityError::Tokenizer));
}

#[test]
fn first_failure_in_document_order_is_reported() {
    let before = "<Group><Entry><String><Key>k</Key><Value Protected=\"True\">?</Value></String>\
                  </Entry></Group></Oops>";
    let mut cipher = Recorder { calls: Vec::new() };
    assert_eq!(
        parse_xml_block(before.as_bytes(), &mut cipher).err(),
        Some(IntegrityError::Decode)
    );
    let after = "<Group></Oops><Entry><String><Key>k</Key><Value Protected=\"True\">?</Value>\
                 </String></Entry></Group>";
    assert_eq!(
        parse_xml_block(after.as_bytes(), &mut cipher).err(),
        Some(IntegrityError::Tokenizer)
    );
}

#[test]
fn plain_cipher_hands_protected_values_through() {
    let xml = format!(
        "<Group><Entry>\
         <String><Key>a</Key><Value Protected=\"True\">{}</Value></String>\
         <String><Key>b</Key><Value Protected=\"True\">{}</Value></String>\
         </Entry></Group>",
        base64::encode("one"),
        base64::encode("two"),
    );
    let mut cipher = PlainCipher;
    let (_, root) = parse_xml_block(xml.as_bytes(), &mut cipher).unwrap();
    let entry = entry_at(&root, 0);
    assert_eq!(entry.fields.get("a"), Some(&secret("one")));
    assert_eq!(entry.fields.get("b"), Some(&secret("two")));
    assert_eq!(cipher.decrypt(&[1, 2, 3]), Ok(vec![1, 2, 3]));
    assert_eq!(cipher.decrypt(&[]), Ok(Vec::new()));
}

#[test]
fn protected_values_in_dropped_nodes_still_take_their_turn() {
    let mut writer = Keystream::new(3);
    let stray = base64::encode(writer.apply(b"stray"));
    let kept = base64::encode(writer.apply(b"kept"));
    let xml = format!(
        "<Group><String><Key>lost</Key><Value Protected=\"True\">{}</Value></String>\
         <Entry><String><Key>k</Key><Value Protected=\"True\">{}</Value></String></Entry></Group>",
        stray, kept
    );
    let mut cipher = Keystream::new(3);
    let (_, root) = parse_xml_block(xml.as_bytes(), &mut cipher).unwrap();
    assert_eq!(root.children.len(), 1);
    let entry = entry_at(&root, 0);
    assert_eq!(entry.fields.len(), 1);
    assert_eq!(entry.fields.get("k"), Some(&secret("kept")));
    assert_eq!(cipher.position, 9);
}
