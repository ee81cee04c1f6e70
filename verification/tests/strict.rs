use kdbx_xml::cipher::Cipher;
use kdbx_xml::db::{Child, Group, Icon, Metadata};
use kdbx_xml::decoder::{decode_events_in, parse_xml_block, parse_xml_block_in, Decoder};
use kdbx_xml::error::{CipherError, IntegrityError, Recovery};
use kdbx_xml::model::Mode;
use kdbx_xml::text::{spells_flag, spells_flag_in_any_case};
use kdbx_xml::xml::{Attribute, XmlToken};

/// A cipher that hands its input back and counts its calls.
struct Echo {
    calls: usize,
}

impl Cipher for Echo {
    fn decrypt(&mut self, ciphertext: &[u8]) -> Result<Vec<u8>, CipherError> {
        self.calls += 1;
        Ok(ciphertext.to_vec())
    }
}

fn strictly(xml: &str) -> Result<(Option<Metadata>, Group), IntegrityError> {
    parse_xml_block_in(Mode::Strict, xml.as_bytes(), &mut Echo { calls: 0 })
}

fn leniently(xml: &str) -> Result<(Option<Metadata>, Group), IntegrityError> {
    parse_xml_block_in(Mode::Lenient, xml.as_bytes(), &mut Echo { calls: 0 })
}

fn reported(xml: &str) -> Option<Recovery> {
    assert!(leniently(xml).is_ok());
    match strictly(xml) {
        Err(IntegrityError::Recovery(recovery)) => Some(recovery),
        Err(other) => panic!("unexpected failure: {:?}", other),
        Ok(_) => None,
    }
}

#[test]
fn lenient_is_the_default() {
    assert_eq!(Mode::default(), Mode::Lenient);
    let xml = "<Group><String><Key>k</Key><Value>v</Value></String></Group>";
    let (_, by_default) = parse_xml_block(xml.as_bytes(), &mut Echo { calls: 0 }).unwrap();
    let (_, lenient) = leniently(xml).unwrap();
    assert_eq!(by_default.children.len(), lenient.children.len());
    assert_eq!(by_default.name, lenient.name);
}

#[test]
fn clean_document_decodes_the_same_in_both_modes() {
    let xml = "<KeePassFile><Meta><Generator>g</Generator>\
               <CustomIcons><Icon><UUID>u</UUID><Data>d</Data></Icon></CustomIcons></Meta>\
               <Root><Group><Name>root</Name><IconID>48</IconID>\
               <Times><ExpiryTime>2023-09-01T00:00:00Z</ExpiryTime><Expires>False</Expires></Times>\
               <Entry><String><Key>a</Key><Value Protected=\"True\">Yg==</Value></String>\
               <String><Key>c</Key><Value Protected=\"False\">d</Value></String>\
               <AutoType><Enabled>true</Enabled><Association><Window>w</Window></Association></AutoType>\
               <CustomIconUUID>u</CustomIconUUID></Entry>\
               <Group><Name>inner</Name></Group></Group></Root></KeePassFile>";
    let mut strict_cipher = Echo { calls: 0 };
    let (strict_meta, strict_root) =
        parse_xml_block_in(Mode::Strict, xml.as_bytes(), &mut strict_cipher).unwrap();
    let mut lenient_cipher = Echo { calls: 0 };
    let (lenient_meta, lenient_root) =
        parse_xml_block_in(Mode::Lenient, xml.as_bytes(), &mut lenient_cipher).unwrap();
    assert_eq!(strict_cipher.calls, 1);
    assert_eq!(lenient_cipher.calls, 1);
    assert_eq!(strict_meta.unwrap().generator, lenient_meta.unwrap().generator);
    assert_eq!(strict_root.name, "root");
    assert_eq!(lenient_root.name, "root");
    assert_eq!(strict_root.icon, Icon::IconID(48));
    assert_eq!(strict_root.children.len(), 2);
    assert_eq!(lenient_root.children.len(), 2);
    match (&strict_root.children[0], &lenient_root.children[0]) {
        (Child::Entry(a), Child::Entry(b)) => {
            assert_eq!(a.fields.get("a"), b.fields.get("a"));
            assert_eq!(a.fields.get("c"), b.fields.get("c"));
            assert_eq!(a.autotype, b.autotype);
            assert_eq!(a.icon, b.icon);
        }
        _ => panic!("expected entries"),
    }
}

#[test]
fn strict_mode_reports_orphans() {
    assert_eq!(
        reported("<Group><String><Key>k</Key><Value>v</Value></String></Group>"),
        Some(Recovery::Orphan)
    );
    assert_eq!(reported("<Group><Entry><Group/></Entry></Group>"), Some(Recovery::Orphan));
    assert_eq!(reported("<Group><Entry><Entry/></Entry></Group>"), Some(Recovery::Orphan));
    assert_eq!(reported("<R><Entry/></R>"), Some(Recovery::Orphan));
    assert_eq!(reported("<R><Expires>True</Expires></R>"), Some(Recovery::Orphan));
    assert_eq!(reported("<Group><Icon><UUID>u</UUID></Icon></Group>"), Some(Recovery::Orphan));
    assert_eq!(reported("<Meta><Expires>True</Expires></Meta>"), Some(Recovery::Orphan));
    assert_eq!(reported("<Group><Association/></Group>"), Some(Recovery::Orphan));
    assert_eq!(
        reported("<Group><ExpiryTime><ExpiryTime>2023-09-01T00:00:00Z</ExpiryTime></ExpiryTime></Group>"),
        Some(Recovery::Orphan)
    );
}

#[test]
fn strict_mode_reports_unreadable_expiry_times() {
    assert_eq!(reported("<Group><ExpiryTime>soon</ExpiryTime></Group>"), Some(Recovery::Timestamp));
    assert_eq!(
        reported("<Group><Entry><ExpiryTime>AAAA</ExpiryTime></Entry></Group>"),
        Some(Recovery::Timestamp)
    );
    assert_eq!(reported("<Group><ExpiryTime/></Group>"), Some(Recovery::Timestamp));
    assert_eq!(reported("<Group><ExpiryTime>2023-09-01T00:00:00Z</ExpiryTime></Group>"), None);
    assert_eq!(reported("<Group><ExpiryTime>AAAAAAAAAAA=</ExpiryTime></Group>"), None);
}

#[test]
fn strict_mode_reports_unreadable_flags_and_numbers() {
    assert_eq!(
        reported("<Group><Entry><AutoType><Enabled>True</Enabled></AutoType></Entry></Group>"),
        Some(Recovery::Flag)
    );
    assert_eq!(
        reported("<Group><Entry><AutoType><Enabled>false</Enabled></AutoType></Entry></Group>"),
        None
    );
    assert_eq!(
        reported("<Group><Entry><String><Value Protected=\"yes\">v</Value></String></Entry></Group>"),
        Some(Recovery::Flag)
    );
    assert_eq!(
        reported("<Group><Entry><String><Value Protected=\"FALSE\">v</Value></String></Entry></Group>"),
        None
    );
    assert_eq!(reported("<Group><IconID>256</IconID></Group>"), Some(Recovery::Number));
    assert_eq!(reported("<Group><IconID>x</IconID></Group>"), Some(Recovery::Number));
    assert_eq!(reported("<Group><IconID>255</IconID></Group>"), None);
    assert_eq!(reported("<Group><Entry><Expires>maybe</Expires></Entry></Group>"), None);
    assert_eq!(reported("<Group><Unknown>text</Unknown></Group>"), None);
}

#[test]
fn strict_mode_stops_before_the_token_has_any_effect() {
    let xml = "<Group><Entry>\
               <String><Key>a</Key><Value Protected=\"True\">Yg==</Value></String>\
               <IconID>300</IconID>\
               <String><Key>b</Key><Value Protected=\"True\">Yw==</Value></String>\
               </Entry></Group>";
    let mut cipher = Echo { calls: 0 };
    assert_eq!(
        parse_xml_block_in(Mode::Strict, xml.as_bytes(), &mut cipher).err(),
        Some(IntegrityError::Recovery(Recovery::Number))
    );
    assert_eq!(cipher.calls, 1);
    let mut cipher = Echo { calls: 0 };
    assert!(parse_xml_block_in(Mode::Lenient, xml.as_bytes(), &mut cipher).is_ok());
    assert_eq!(cipher.calls, 2);
}

#[test]
fn fatal_errors_are_the_same_in_both_modes() {
    let bad_base64 = "<Group><Entry><String><Value Protected=\"True\">?</Value></String></Entry></Group>";
    assert_eq!(strictly(bad_base64).err(), Some(IntegrityError::Decode));
    assert_eq!(leniently(bad_base64).err(), Some(IntegrityError::Decode));
    assert_eq!(strictly("<Group>").err(), Some(IntegrityError::Tokenizer));
    assert_eq!(leniently("<Group>").err(), Some(IntegrityError::Tokenizer));
}

#[test]
fn a_decoder_tells_what_it_would_pass_over() {
    let open = |name: &str| XmlToken::Open { name: name.to_string(), attributes: Vec::new() };
    let close = |name: &str| XmlToken::Close { name: name.to_string() };
    let text = |content: &str| XmlToken::Text(content.to_string());
    let mut cipher = Echo { calls: 0 };
    let mut decoder = Decoder::new();
    assert_eq!(decoder.recovery(&close("Group")), None);
    assert_eq!(decoder.recovery(&text("x")), None);
    decoder.feed(&open("Group"), &mut cipher).unwrap();
    assert_eq!(decoder.recovery(&close("Group")), None);
    assert_eq!(decoder.recovery(&close("Name")), None);
    decoder.feed(&open("String"), &mut cipher).unwrap();
    assert_eq!(decoder.recovery(&close("String")), Some(Recovery::Orphan));
    assert_eq!(decoder.recovery(&close("Key")), None);
    assert_eq!(decoder.recovery(&XmlToken::Other), None);
    decoder.feed(&close("String"), &mut cipher).unwrap();
    decoder.feed(&open("IconID"), &mut cipher).unwrap();
    assert_eq!(decoder.recovery(&text("7")), None);
    assert_eq!(decoder.recovery(&text("-7")), Some(Recovery::Number));
    decoder.feed(&text("-7"), &mut cipher).unwrap();
    assert_eq!(decoder.recovery(&close("IconID")), None);
    decoder.feed(&close("IconID"), &mut cipher).unwrap();
    decoder.feed(&open("ExpiryTime"), &mut cipher).unwrap();
    assert_eq!(decoder.recovery(&close("ExpiryTime")), Some(Recovery::Timestamp));
    decoder.feed(&text("2000-01-01T00:00:00Z"), &mut cipher).unwrap();
    assert_eq!(decoder.recovery(&close("ExpiryTime")), None);
    let protected = XmlToken::Open {
        name: "Value".to_string(),
        attributes: vec![Attribute { name: "Protected".to_string(), value: "1".to_string() }],
    };
    assert_eq!(decoder.recovery(&protected), Some(Recovery::Flag));
    let (_, root) = decoder.finish();
    assert_eq!(root.name, "");
}

#[test]
fn strict_decode_of_events_reports_the_first_recovery() {
    let open = |name: &str| Ok(XmlToken::Open { name: name.to_string(), attributes: Vec::new() });
    let close = |name: &str| Ok(XmlToken::Close { name: name.to_string() });
    let events = vec![
        open("Group"),
        open("Expires"),
        close("Expires"),
        open("ExpiryTime"),
        close("ExpiryTime"),
        open("String"),
        close("String"),
        close("Group"),
    ];
    let mut cipher = Echo { calls: 0 };
    assert_eq!(
        decode_events_in(Mode::Strict, &events, &mut cipher).err(),
        Some(IntegrityError::Recovery(Recovery::Timestamp))
    );
    assert!(decode_events_in(Mode::Lenient, &events, &mut cipher).is_ok());
    assert!(decode_events_in(Mode::Strict, &events[..3], &mut cipher).is_ok());
}

#[test]
fn flags_are_the_two_words() {
    assert!(spells_flag("true"));
    assert!(spells_flag("false"));
    assert!(!spells_flag("True"));
    assert!(!spells_flag(""));
    assert!(!spells_flag("truefalse"));
    assert!(spells_flag_in_any_case("true"));
    assert!(spells_flag_in_any_case("FALSE"));
    assert!(spells_flag_in_any_case("False"));
    assert!(spells_flag_in_any_case("tRUE"));
    assert!(!spells_flag_in_any_case("yes"));
    assert!(!spells_flag_in_any_case(""));
    assert!(!spells_flag_in_any_case("fals\u{e9}"));
    for text in ["true", "FALSE", "False", "tRUE", "yes", "", "0", "\u{212a}", "falsE "] {
        assert_eq!(spells_flag_in_any_case(text), text.to_lowercase().parse::<bool>().is_ok());
        assert_eq!(spells_flag(text), text.parse::<bool>().is_ok());
    }
}
