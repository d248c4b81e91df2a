use evdev::KeyCode;
use hyperkeyd::{
    command_char_for_key, executable_status, launch_environment, normalize_extension,
    script_path_for, default_script_dir, Config, DispatchPlan, Dispatcher, EventOutcome,
    ExecutableStatus, HyperChange, KeyEvent, KeyValue, MetadataProbe,
};
use std::path::PathBuf;

#[test]
fn command_keys_are_lowercase_letters_and_digits() {
    assert_eq!(command_char_for_key(KeyCode::KEY_A.code()), Some('a'));
    assert_eq!(command_char_for_key(KeyCode::KEY_Z.code()), Some('z'));
    assert_eq!(command_char_for_key(KeyCode::KEY_0.code()), Some('0'));
    assert_eq!(command_char_for_key(KeyCode::KEY_9.code()), Some('9'));
    assert_eq!(command_char_for_key(KeyCode::KEY_SPACE.code()), None);
}

#[test]
fn script_paths_use_configured_extension() {
    let dir = PathBuf::from("/home/nova/.hyper");
    assert_eq!(PathBuf::from(script_path_for("/home/nova/.hyper", 'a', "sh")), dir.join("a.sh"));
    assert_eq!(PathBuf::from(script_path_for("/home/nova/.hyper", '1', "")), dir.join("1"));
}

#[test]
fn extension_normalization_accepts_optional_dot() {
    assert_eq!(normalize_extension("sh"), "sh");
    assert_eq!(normalize_extension(".sh"), "sh");
    assert_eq!(normalize_extension(""), "");
}

#[test]
fn every_alphanumeric_key_has_its_own_command_char() {
    let letters = [
        KeyCode::KEY_A, KeyCode::KEY_B, KeyCode::KEY_C, KeyCode::KEY_D, KeyCode::KEY_E,
        KeyCode::KEY_F, KeyCode::KEY_G, KeyCode::KEY_H, KeyCode::KEY_I, KeyCode::KEY_J,
        KeyCode::KEY_K, KeyCode::KEY_L, KeyCode::KEY_M, KeyCode::KEY_N, KeyCode::KEY_O,
        KeyCode::KEY_P, KeyCode::KEY_Q, KeyCode::KEY_R, KeyCode::KEY_S, KeyCode::KEY_T,
        KeyCode::KEY_U, KeyCode::KEY_V, KeyCode::KEY_W, KeyCode::KEY_X, KeyCode::KEY_Y,
        KeyCode::KEY_Z,
    ];
    for (i, key) in letters.iter().enumerate() {
        let expected = (b'a' + i as u8) as char;
        assert_eq!(command_char_for_key(key.code()), Some(expected));
    }
    let digits = [
        KeyCode::KEY_0, KeyCode::KEY_1, KeyCode::KEY_2, KeyCode::KEY_3, KeyCode::KEY_4,
        KeyCode::KEY_5, KeyCode::KEY_6, KeyCode::KEY_7, KeyCode::KEY_8, KeyCode::KEY_9,
    ];
    for (i, key) in digits.iter().enumerate() {
        let expected = (b'0' + i as u8) as char;
        assert_eq!(command_char_for_key(key.code()), Some(expected));
    }
    let mut count = 0;
    for code in 0..=u16::MAX {
        if command_char_for_key(code).is_some() {
            count += 1;
        }
    }
    assert_eq!(count, 36);
    assert_eq!(command_char_for_key(KeyCode::KEY_F24.code()), None);
    assert_eq!(command_char_for_key(KeyCode::KEY_KP1.code()), None);
}

fn config(dry_run: bool, log_missing: bool) -> Config {
    Config::new(KeyCode::KEY_F24.code(), "/home/nova/.hyper".to_string(), ".sh", log_missing, dry_run)
}

fn event(device: &str, key: KeyCode, value: i32) -> KeyEvent {
    KeyEvent {
        device_path: device.to_string(),
        key: key.code(),
        value: KeyValue::from_evdev_value(value),
    }
}

#[test]
fn hyper_arms_and_disarms() {
    let mut d = Dispatcher::new(config(false, false));
    assert!(!d.is_armed());
    assert_eq!(d.handle_event(event("/dev/input/event7", KeyCode::KEY_A, 1)), EventOutcome::IgnoredWhileIdle);
    assert_eq!(
        d.handle_event(event("/dev/input/event7", KeyCode::KEY_F24, 1)),
        EventOutcome::Hyper(HyperChange::Armed)
    );
    assert!(d.is_armed());
    assert_eq!(
        d.handle_event(event("/dev/input/event7", KeyCode::KEY_F24, 2)),
        EventOutcome::Hyper(HyperChange::RepeatIgnored)
    );
    assert_eq!(
        d.handle_event(event("/dev/input/event7", KeyCode::KEY_F24, 1)),
        EventOutcome::Hyper(HyperChange::AlreadyArmed)
    );
    assert_eq!(
        d.handle_event(event("/dev/input/event7", KeyCode::KEY_F24, 5)),
        EventOutcome::Hyper(HyperChange::Unrecognized(5))
    );
    assert!(d.is_armed());
    assert_eq!(
        d.handle_event(event("/dev/input/event7", KeyCode::KEY_F24, 0)),
        EventOutcome::Hyper(HyperChange::Disarmed)
    );
    assert!(!d.is_armed());
    assert_eq!(
        d.handle_event(event("/dev/input/event7", KeyCode::KEY_F24, 0)),
        EventOutcome::Hyper(HyperChange::AlreadyIdle)
    );
}

#[test]
fn each_press_while_armed_is_one_command() {
    let mut d = Dispatcher::new(config(false, false));
    d.handle_event(event("/dev/input/event7", KeyCode::KEY_F24, 1));
    assert_eq!(d.handle_event(event("/dev/input/event7", KeyCode::KEY_A, 1)), EventOutcome::Command('a'));
    // Holding the key launches it once.
    assert_eq!(d.handle_event(event("/dev/input/event7", KeyCode::KEY_A, 2)), EventOutcome::IgnoredValue);
    assert_eq!(d.handle_event(event("/dev/input/event7", KeyCode::KEY_A, 2)), EventOutcome::IgnoredValue);
    assert_eq!(d.handle_event(event("/dev/input/event7", KeyCode::KEY_A, 0)), EventOutcome::IgnoredValue);
    // Pressing again, with Hyper still held, launches again.
    assert_eq!(d.handle_event(event("/dev/input/event7", KeyCode::KEY_A, 1)), EventOutcome::Command('a'));
    assert_eq!(d.handle_event(event("/dev/input/event7", KeyCode::KEY_1, 1)), EventOutcome::Command('1'));
    assert_eq!(d.handle_event(event("/dev/input/event7", KeyCode::KEY_SPACE, 1)), EventOutcome::NotCommandKey);
    assert_eq!(d.handle_event(event("/dev/input/event7", KeyCode::KEY_B, 7)), EventOutcome::IgnoredValue);
    d.handle_event(event("/dev/input/event7", KeyCode::KEY_F24, 0));
    assert_eq!(d.handle_event(event("/dev/input/event7", KeyCode::KEY_A, 1)), EventOutcome::IgnoredWhileIdle);
}

#[test]
fn hyper_state_is_shared_across_devices() {
    let mut d = Dispatcher::new(config(false, false));
    d.handle_event(event("/dev/input/event3", KeyCode::KEY_F24, 1));
    assert_eq!(d.handle_event(event("/dev/input/event7", KeyCode::KEY_A, 1)), EventOutcome::Command('a'));
    d.handle_event(event("/dev/input/event7", KeyCode::KEY_F24, 0));
    assert_eq!(d.handle_event(event("/dev/input/event3", KeyCode::KEY_A, 1)), EventOutcome::IgnoredWhileIdle);
}

#[test]
fn key_values_classify_evdev_values() {
    assert_eq!(KeyValue::from_evdev_value(0), KeyValue::Release);
    assert_eq!(KeyValue::from_evdev_value(1), KeyValue::Press);
    assert_eq!(KeyValue::from_evdev_value(2), KeyValue::Repeat);
    assert_eq!(KeyValue::from_evdev_value(-3), KeyValue::Other(-3));
    assert_eq!(KeyValue::Release.as_env_value(), "release");
    assert_eq!(KeyValue::Press.as_env_value(), "press");
    assert_eq!(KeyValue::Repeat.as_env_value(), "repeat");
    assert_eq!(KeyValue::Other(9).as_env_value(), "other");
}

#[test]
fn script_paths_follow_unix_join() {
    assert_eq!(script_path_for("/home/nova/.hyper/", 'b', "py"), "/home/nova/.hyper/b.py");
    assert_eq!(script_path_for("", 'c', "sh"), "c.sh");
    assert_eq!(script_path_for("scripts", '9', ""), "scripts/9");
    assert_eq!(PathBuf::from(script_path_for("/", 'x', "sh")), PathBuf::from("/").join("x.sh"));
    assert_eq!(default_script_dir("/home/nova"), "/home/nova/.hyper");
    assert_eq!(default_script_dir("/"), "/.hyper");
    assert_eq!(PathBuf::from(default_script_dir("/home/nova")), PathBuf::from("/home/nova").join(".hyper"));
}

#[test]
fn extension_normalization_strips_every_leading_dot() {
    assert_eq!(normalize_extension("..sh"), "sh");
    assert_eq!(normalize_extension("..."), "");
    assert_eq!(normalize_extension("tar.gz"), "tar.gz");
    assert_eq!(normalize_extension(normalize_extension("..sh").as_str()), "sh");
    let d = Dispatcher::new(config(false, false));
    assert_eq!(d.config().extension, "sh");
    assert_eq!(d.script_path('a'), "/home/nova/.hyper/a.sh");
}

#[test]
fn executable_status_classifies_metadata() {
    let path = "/home/nova/.hyper/a.sh";
    assert_eq!(executable_status(path, MetadataProbe::NotFound), Ok(ExecutableStatus::Missing));
    assert_eq!(
        executable_status(path, MetadataProbe::Found { is_file: false, mode: 0o755 }),
        Ok(ExecutableStatus::NotAFile)
    );
    assert_eq!(
        executable_status(path, MetadataProbe::Found { is_file: true, mode: 0o644 }),
        Ok(ExecutableStatus::NotExecutable)
    );
    assert_eq!(
        executable_status(path, MetadataProbe::Found { is_file: true, mode: 0o100 }),
        Ok(ExecutableStatus::Executable)
    );
    assert_eq!(
        executable_status(path, MetadataProbe::Found { is_file: true, mode: 0o100001 }),
        Ok(ExecutableStatus::Executable)
    );
    assert_eq!(
        executable_status(path, MetadataProbe::Unreadable),
        Err("metadata failed for /home/nova/.hyper/a.sh".to_string())
    );
}

#[test]
fn dispatch_plans_follow_configuration() {
    let live = Dispatcher::new(config(false, false));
    let dry = Dispatcher::new(config(true, true));
    assert!(matches!(live.plan_dispatch(Ok(ExecutableStatus::Executable)), DispatchPlan::Launch));
    assert!(matches!(dry.plan_dispatch(Ok(ExecutableStatus::Executable)), DispatchPlan::DryRun));
    assert!(matches!(live.plan_dispatch(Ok(ExecutableStatus::Missing)), DispatchPlan::IgnoreMissing));
    assert!(matches!(dry.plan_dispatch(Ok(ExecutableStatus::Missing)), DispatchPlan::ReportMissing));
    assert!(matches!(live.plan_dispatch(Ok(ExecutableStatus::NotAFile)), DispatchPlan::WarnNotAFile));
    assert!(matches!(live.plan_dispatch(Ok(ExecutableStatus::NotExecutable)), DispatchPlan::WarnNotExecutable));
    match live.plan_dispatch(Err("metadata failed for x".to_string())) {
        DispatchPlan::WarnUninspectable(m) => assert_eq!(m, "metadata failed for x"),
        other => panic!("unexpected plan {other:?}"),
    }
}

#[test]
fn launched_scripts_receive_their_context() {
    let env = launch_environment('a', KeyValue::Press, "/dev/input/event7");
    assert_eq!(
        env,
        vec![
            ("HYPERKEYD_KEY".to_string(), "a".to_string()),
            ("HYPERKEYD_EVENT".to_string(), "press".to_string()),
            ("HYPERKEYD_DEVICE".to_string(), "/dev/input/event7".to_string()),
        ]
    );
}
