use icc_tlv::decode_with_registry;
use icc_tlv::get_tag_data;
use icc_tlv::parse_icc;
use icc_tlv::unhexify_length;
use icc_tlv::upper_string;
use icc_tlv::IccError;
use icc_tlv::Registry;
use icc_tlv::TagData;

fn two_tag_registry() -> Registry {
    let mut reg = Registry::new();
    assert!(reg.insert(TagData::new("terminalcapabilities", "9F33", 6, 6)));
    assert!(reg.insert(TagData::new("somefield", "80", 4, 1)));
    reg
}

#[test]
fn test_parse_correct_icc() {
    let tests = vec![("9F3303E0A8B1", vec![("terminalcapabilities", "E0A8B1")])];
    for (icc_string, expected) in tests {
        let result = parse_icc(icc_string).unwrap();
        assert_eq!(result.len(), expected.len());
        for (name, value) in expected {
            assert_eq!(result.get(name).map(|v| v.as_str()), Some(value));
        }
    }
}

#[test]
fn test_parse_incorrect_icc() {
    let tests = vec![("9FXX03E0A8B1", IccError::BadTag("9FXX".to_owned()))];
    for (icc_string, expected) in tests {
        match parse_icc(icc_string) {
            Ok(_) => panic!("decode of {} unexpectedly succeeded", icc_string),
            Err(e) => assert_eq!(e, expected),
        }
    }
}

#[test]
fn empty_input_decodes_to_empty_mapping() {
    let result = parse_icc("").unwrap();
    assert_eq!(result.len(), 0);
    assert!(result.get("terminalcapabilities").is_none());
}

#[test]
fn lowercase_input_is_normalized() {
    let result = parse_icc("9f3303e0a8b1").unwrap();
    assert_eq!(result.len(), 1);
    assert_eq!(
        result.get("terminalcapabilities").map(|v| v.as_str()),
        Some("E0A8B1")
    );
}

#[test]
fn single_byte_tag_without_length_data_is_bad_length() {
    let reg = two_tag_registry();
    match decode_with_registry("80", &reg) {
        Err(IccError::BadLength(_)) => {}
        other => panic!("expected BadLength, got {:?}", other),
    }
}

#[test]
fn declared_length_above_maximum_is_generic_error() {
    match parse_icc("9F330700AABBCCDDEE") {
        Err(IccError::GenericError) => {}
        other => panic!("expected GenericError, got {:?}", other),
    }
}

#[test]
fn long_form_length_prefix_81_consumes_one_length_byte() {
    let result = parse_icc("9F338106AABBCCDDEEFF").unwrap();
    assert_eq!(result.len(), 1);
    assert_eq!(
        result.get("terminalcapabilities").map(|v| v.as_str()),
        Some("AABBCCDDEEFF")
    );
}

#[test]
fn decoding_twice_gives_equal_mappings() {
    let input = "9F3303E0A8B1";
    let first = parse_icc(input).unwrap();
    let second = parse_icc(input).unwrap();
    assert_eq!(first.len(), second.len());
    assert_eq!(
        first.get("terminalcapabilities").map(|v| v.as_str()),
        second.get("terminalcapabilities").map(|v| v.as_str())
    );
}

#[test]
fn missing_length_field_is_bad_length() {
    match parse_icc("9F33") {
        Err(IccError::BadLength(m)) => assert_eq!(m, "length is missing for this tag!"),
        other => panic!("expected BadLength, got {:?}", other),
    }
}

#[test]
fn zero_length_is_too_short() {
    match parse_icc("9F3300") {
        Err(IccError::BadLength(m)) => assert_eq!(m, "too short"),
        other => panic!("expected BadLength, got {:?}", other),
    }
}

#[test]
fn non_hex_first_tag_byte_is_invalid_hex() {
    match parse_icc("ZZ") {
        Err(IccError::InvalidHex(h)) => assert_eq!(h, "ZZ"),
        other => panic!("expected InvalidHex, got {:?}", other),
    }
}

#[test]
fn non_hex_length_byte_is_invalid_hex() {
    match parse_icc("9F33GG") {
        Err(IccError::InvalidHex(h)) => assert_eq!(h, "GG"),
        other => panic!("expected InvalidHex, got {:?}", other),
    }
}

#[test]
fn truncated_long_form_length_is_bad_length() {
    match parse_icc("9F3382AA") {
        Err(IccError::BadLength(m)) => assert_eq!(m, "length is missing for this tag!"),
        other => panic!("expected BadLength, got {:?}", other),
    }
}

#[test]
fn long_form_count_of_zero_is_bad_length() {
    match parse_icc("9F3380") {
        Err(IccError::BadLength(m)) => assert_eq!(m, "length is missing for this tag!"),
        other => panic!("expected BadLength, got {:?}", other),
    }
}

#[test]
fn long_form_length_overflowing_usize_is_invalid_hex() {
    match parse_icc("9F3389FFFFFFFFFFFFFFFFFF") {
        Err(IccError::InvalidHex(h)) => assert_eq!(h, "FFFFFFFFFFFFFFFFFF"),
        other => panic!("expected InvalidHex, got {:?}", other),
    }
}

#[test]
fn two_elements_give_two_entries() {
    let reg = two_tag_registry();
    let result = decode_with_registry("8002ABCD9F3303E0A8B1", &reg).unwrap();
    assert_eq!(result.len(), 2);
    assert_eq!(result.get("somefield").map(|v| v.as_str()), Some("ABCD"));
    assert_eq!(
        result.get("terminalcapabilities").map(|v| v.as_str()),
        Some("E0A8B1")
    );
}

#[test]
fn repeated_tag_keeps_the_last_value() {
    let result = parse_icc("9F3301AA9F3301BB").unwrap();
    assert_eq!(result.len(), 1);
    assert_eq!(
        result.get("terminalcapabilities").map(|v| v.as_str()),
        Some("BB")
    );
}

#[test]
fn value_text_is_not_rechecked_as_hex() {
    let result = parse_icc("9F3302zzzz").unwrap();
    assert_eq!(result.len(), 1);
    assert_eq!(
        result.get("terminalcapabilities").map(|v| v.as_str()),
        Some("ZZZZ")
    );
}

#[test]
fn whitespace_is_not_stripped() {
    match parse_icc("9F33 03E0A8B1") {
        Err(IccError::InvalidHex(h)) => assert_eq!(h, " 0"),
        other => panic!("expected InvalidHex, got {:?}", other),
    }
}

#[test]
fn unhexify_length_short_form() {
    assert_eq!(unhexify_length("03"), Ok((3, 2)));
    assert_eq!(unhexify_length("7F"), Ok((127, 2)));
}

#[test]
fn unhexify_length_long_form() {
    assert_eq!(unhexify_length("810A"), Ok((10, 4)));
    assert_eq!(unhexify_length("820100FFFF"), Ok((256, 6)));
}

#[test]
fn registry_refuses_duplicate_and_malformed_tags() {
    let mut reg = Registry::new();
    assert!(reg.insert(TagData::new("terminalcapabilities", "9F33", 6, 6)));
    assert!(!reg.insert(TagData::new("again", "9F33", 6, 6)));
    assert!(!reg.insert(TagData::new("lowercase", "9f33", 6, 6)));
    assert!(!reg.insert(TagData::new("", "80", 4, 1)));
    assert!(!reg.insert(TagData::new("oddlength", "9F3", 6, 6)));
    assert_eq!(reg.len(), 1);
}

#[test]
fn default_registry_has_the_stock_entry() {
    let reg = get_tag_data();
    assert_eq!(reg.len(), 1);
    let d = reg.lookup(&"9F33".to_owned()).unwrap();
    assert_eq!(d.name().as_str(), "terminalcapabilities");
    assert_eq!(d.tag().as_str(), "9F33");
    assert_eq!(d.max_length(), 6);
    assert_eq!(d.min_length(), 6);
}

#[test]
fn error_messages_name_the_kind() {
    assert_eq!(
        IccError::BadTag("9FXX".to_owned()).message(),
        "BadTag: 9FXX"
    );
    assert_eq!(IccError::GenericError.message(), "something was wrong");
}

#[test]
fn upper_string_uppercases_ascii_only() {
    assert_eq!(upper_string("a1b2c3"), "A1B2C3");
    assert_eq!(upper_string("E0A8B1"), "E0A8B1");
    assert_eq!(upper_string(""), "");
}
