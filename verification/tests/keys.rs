use evdev::KeyCode;
use hyperkeyd::{config_key_name, parse_key_code, KeyParseError};

#[test]
fn key_parser_accepts_canonical_names_and_aliases() {
    assert_eq!(parse_key_code("KEY_F24").unwrap(), KeyCode::KEY_F24.code());
    assert_eq!(parse_key_code("F24").unwrap(), KeyCode::KEY_F24.code());
    assert_eq!(parse_key_code("capslock").unwrap(), KeyCode::KEY_CAPSLOCK.code());
}

#[test]
fn config_key_name_preserves_kernel_macro_names() {
    assert_eq!(config_key_name(KeyCode::new(0x290).code()), "KEY_MACRO1");
    assert_eq!(config_key_name(KeyCode::new(0x29a).code()), "KEY_MACRO11");
    assert_eq!(config_key_name(KeyCode::new(0x2ad).code()), "KEY_MACRO30");
}

#[test]
fn config_key_name_uses_evdev_names_when_available() {
    assert_eq!(config_key_name(KeyCode::KEY_A.code()), "KEY_A");
    assert_eq!(config_key_name(KeyCode::KEY_F24.code()), "KEY_F24");
}

#[test]
fn key_parser_accepts_documented_examples() {
    assert_eq!(parse_key_code("KEY_LEFTMETA").unwrap(), KeyCode::KEY_LEFTMETA.code());
    assert_eq!(parse_key_code("LEFTMETA").unwrap(), KeyCode::KEY_LEFTMETA.code());
    assert_eq!(parse_key_code("CAPSLOCK").unwrap(), KeyCode::KEY_CAPSLOCK.code());
    assert_eq!(parse_key_code("KEY_MACRO11").unwrap(), 0x29a);
    assert_eq!(parse_key_code("194").unwrap(), 194);
    assert_eq!(parse_key_code("666").unwrap(), 666);
}

#[test]
fn key_parser_handles_spacing_case_and_prefixes() {
    assert_eq!(parse_key_code("  f24\t").unwrap(), KeyCode::KEY_F24.code());
    assert_eq!(parse_key_code("Key_F24").unwrap(), KeyCode::KEY_F24.code());
    assert_eq!(parse_key_code("btn_0").unwrap(), KeyCode::BTN_0.code());
    assert_eq!(parse_key_code("macro1").unwrap(), 0x290);
    assert_eq!(parse_key_code("key_macro30").unwrap(), 0x2ad);
    assert_eq!(parse_key_code("+5").unwrap(), 5);
    assert_eq!(parse_key_code("\u{3000}65535\u{a0}").unwrap(), 65535);
}

#[test]
fn key_parser_rejects_what_it_cannot_read() {
    assert!(matches!(parse_key_code(""), Err(KeyParseError::Empty)));
    assert!(matches!(parse_key_code(" \t\n"), Err(KeyParseError::Empty)));
    for (input, canonical) in [
        ("KEY_FOOBAR", "KEY_FOOBAR"),
        (" foo ", "KEY_FOO"),
        ("65536", "KEY_65536"),
        ("-1", "KEY_-1"),
        ("+", "KEY_+"),
        ("KEY_MACRO0", "KEY_MACRO0"),
        ("KEY_MACRO31", "KEY_MACRO31"),
        ("KEY_MACRO011", "KEY_MACRO011"),
        ("KEY_MACRO+1", "KEY_MACRO+1"),
    ] {
        match parse_key_code(input) {
            Err(KeyParseError::Unknown { input: given, canonical: name, .. }) => {
                assert_eq!(given, input);
                assert_eq!(name, canonical);
            }
            other => panic!("{input:?} gave {other:?}"),
        }
    }
}

#[test]
fn config_key_names_fall_back_to_numbers() {
    assert_eq!(config_key_name(0x2ff), "767");
    assert_eq!(config_key_name(0x28f), "655");
    assert_eq!(config_key_name(0x2ae), "686");
    assert_eq!(config_key_name(KeyCode::BTN_0.code()), "BTN_0");
}

#[test]
fn config_key_names_read_back_as_the_same_key() {
    for code in 0..=0x300u16 {
        let name = config_key_name(code);
        assert_eq!(parse_key_code(&name).unwrap(), code, "name {name}");
    }
}
