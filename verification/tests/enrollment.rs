use hyperkeyd::{
    device_display_name, device_listing_line, enrollment_devices, is_requested_press,
    keyboard_marker, render_config, select_stable_alias, sorted_order, ChordProgress, ChordStage,
    HyperAVerification, StableAliasError, KEY_A,
};

const HYPER: u16 = 0x29a;

#[test]
fn requested_presses_are_presses_of_the_expected_key() {
    assert!(is_requested_press(None, 194, 1));
    assert!(!is_requested_press(None, 194, 0));
    assert!(!is_requested_press(None, 194, 2));
    assert!(is_requested_press(Some(KEY_A), KEY_A, 1));
    assert!(!is_requested_press(Some(KEY_A), 48, 1));
}

#[test]
fn enrollment_records_each_stream_once() {
    let same = enrollment_devices("/dev/input/by-id/kbd".to_string(), "/dev/input/by-id/kbd".to_string());
    assert_eq!(same, vec!["/dev/input/by-id/kbd".to_string()]);
    let split = enrollment_devices("/dev/input/by-id/if01".to_string(), "/dev/input/by-id/kbd".to_string());
    assert_eq!(split, vec!["/dev/input/by-id/if01".to_string(), "/dev/input/by-id/kbd".to_string()]);
}

#[test]
fn hyper_a_verification_follows_the_guided_chord() {
    let hyper_dev = "/dev/input/by-id/if01".to_string();
    let kbd = "/dev/input/by-id/kbd".to_string();
    let mut v = HyperAVerification::new(HYPER);
    assert_eq!(v.stage(), ChordStage::Waiting);
    // A without Hyper does nothing.
    assert_eq!(v.observe(&kbd, KEY_A, 1), ChordProgress::Unchanged);
    assert_eq!(v.observe(&kbd, KEY_A, 0), ChordProgress::Unchanged);
    assert_eq!(v.observe(&hyper_dev, HYPER, 1), ChordProgress::HyperHeld);
    assert_eq!(v.observe(&hyper_dev, HYPER, 2), ChordProgress::Unchanged);
    assert_eq!(v.observe(&kbd, 48, 1), ChordProgress::Unchanged);
    assert_eq!(v.observe(&kbd, KEY_A, 1), ChordProgress::APressed);
    assert_eq!(v.observe(&kbd, KEY_A, 2), ChordProgress::Unchanged);
    assert_eq!(v.observe(&kbd, KEY_A, 0), ChordProgress::AReleased);
    assert_eq!(v.stage(), ChordStage::AReleased);
    assert_eq!(v.observe(&hyper_dev, HYPER, 0), ChordProgress::Verified);
    assert_eq!(v.stage(), ChordStage::Waiting);
}

#[test]
fn releasing_hyper_early_restarts_verification() {
    let hyper_dev = "/dev/input/by-id/if01".to_string();
    let kbd = "/dev/input/by-id/kbd".to_string();
    let mut v = HyperAVerification::new(HYPER);
    // Released before A.
    assert_eq!(v.observe(&hyper_dev, HYPER, 1), ChordProgress::HyperHeld);
    assert_eq!(v.observe(&hyper_dev, HYPER, 0), ChordProgress::ReleasedEarly);
    assert_eq!(v.stage(), ChordStage::Waiting);
    // Released while A is still down.
    assert_eq!(v.observe(&hyper_dev, HYPER, 1), ChordProgress::HyperHeld);
    assert_eq!(v.observe(&kbd, KEY_A, 1), ChordProgress::APressed);
    assert_eq!(v.observe(&hyper_dev, HYPER, 0), ChordProgress::ReleasedEarly);
    assert_eq!(v.observe(&kbd, KEY_A, 0), ChordProgress::Unchanged);
    // A release on its own does not finish anything.
    assert_eq!(v.observe(&hyper_dev, HYPER, 0), ChordProgress::Unchanged);
    // Hyper held on two devices: releasing one keeps the chord going.
    assert_eq!(v.observe(&hyper_dev, HYPER, 1), ChordProgress::HyperHeld);
    assert_eq!(v.observe(&kbd, HYPER, 1), ChordProgress::Unchanged);
    assert_eq!(v.observe(&kbd, KEY_A, 1), ChordProgress::APressed);
    assert_eq!(v.observe(&kbd, KEY_A, 0), ChordProgress::AReleased);
    assert_eq!(v.observe(&hyper_dev, HYPER, 0), ChordProgress::Unchanged);
    assert_eq!(v.observe(&kbd, HYPER, 0), ChordProgress::Verified);
}

#[test]
fn configuration_text_lists_key_and_devices() {
    let devices = vec![
        "/dev/input/by-id/usb-Keychron_Lemokey_X2-event-if01".to_string(),
        "/dev/input/by-id/usb-Keychron_Lemokey_X2-if01-event-kbd".to_string(),
    ];
    assert_eq!(
        render_config(0x29a, &devices),
        "hyper_key = \"KEY_MACRO11\"\ndevices = [\n    \"/dev/input/by-id/usb-Keychron_Lemokey_X2-event-if01\",\n    \"/dev/input/by-id/usb-Keychron_Lemokey_X2-if01-event-kbd\",\n]\n"
    );
    assert_eq!(render_config(194, &Vec::new()), "hyper_key = \"KEY_F24\"\ndevices = [\n]\n");
    let odd = vec!["/dev/a\"b\\c\td\u{1}e\u{7f}é".to_string()];
    assert_eq!(
        render_config(30, &odd),
        "hyper_key = \"KEY_A\"\ndevices = [\n    \"/dev/a\\\"b\\\\c\\td\\u0001e\\u007Fé\",\n]\n"
    );
}

fn entry(alias: &str, target: Option<&str>) -> (String, Option<String>) {
    (alias.to_string(), target.map(|t| t.to_string()))
}

#[test]
fn stable_alias_must_be_unique() {
    let target = "/dev/input/event7".to_string();
    let entries = vec![
        entry("/dev/input/by-id/usb-kbd-event-kbd", Some("/dev/input/event7")),
        entry("/dev/input/by-id/usb-kbd-if01-event", Some("/dev/input/event8")),
        entry("/dev/input/by-id/broken", None),
    ];
    assert_eq!(select_stable_alias(&target, &entries).unwrap(), "/dev/input/by-id/usb-kbd-event-kbd");

    let none = select_stable_alias(&"/dev/input/event9".to_string(), &entries);
    assert!(matches!(none, Err(StableAliasError::NoAlias)));

    let repeated = vec![
        entry("/dev/input/by-id/b", Some("/dev/input/event7")),
        entry("/dev/input/by-id/b", Some("/dev/input/event7")),
    ];
    assert_eq!(select_stable_alias(&target, &repeated).unwrap(), "/dev/input/by-id/b");

    let many = vec![
        entry("/dev/input/by-id/c", Some("/dev/input/event7")),
        entry("/dev/input/by-id/a", Some("/dev/input/event7")),
        entry("/dev/input/by-id/x", Some("/dev/input/event1")),
        entry("/dev/input/by-id/b", Some("/dev/input/event7")),
        entry("/dev/input/by-id/a", Some("/dev/input/event7")),
    ];
    match select_stable_alias(&target, &many) {
        Err(StableAliasError::MultipleAliases(list)) => assert_eq!(
            list,
            vec![
                "/dev/input/by-id/a".to_string(),
                "/dev/input/by-id/b".to_string(),
                "/dev/input/by-id/c".to_string(),
            ]
        ),
        other => panic!("unexpected {other:?}"),
    }
}

#[test]
fn device_paths_sort_stably() {
    let paths: Vec<String> = ["/dev/input/event10", "/dev/input/event2", "/dev/input/event1", "/dev/input/event2"]
        .iter()
        .map(|p| p.to_string())
        .collect();
    assert_eq!(sorted_order(&paths), vec![2, 0, 1, 3]);
    let mut expected = paths.clone();
    expected.sort();
    let by_order: Vec<String> = sorted_order(&paths).iter().map(|&i| paths[i].clone()).collect();
    assert_eq!(by_order, expected);
    assert_eq!(sorted_order(&Vec::new()), Vec::<usize>::new());
    let unicode: Vec<String> = ["é", "z", "a", ""].iter().map(|p| p.to_string()).collect();
    assert_eq!(sorted_order(&unicode), vec![3, 2, 1, 0]);
}

#[test]
fn device_listing_lines() {
    assert_eq!(keyboard_marker(Some((true, true))), "keyboard-ish");
    assert_eq!(keyboard_marker(Some((true, false))), "input");
    assert_eq!(keyboard_marker(None), "input");
    assert_eq!(device_display_name(Some("Example Keyboard")), "Example Keyboard");
    assert_eq!(device_display_name(None), "unnamed device");
    assert_eq!(
        device_listing_line("/dev/input/event7", "keyboard-ish", "Example Keyboard"),
        "/dev/input/event7\tkeyboard-ish\tExample Keyboard"
    );
}
