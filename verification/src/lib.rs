//! Verified core of `hyperkeyd`, a Hyper-key command dispatcher for Linux.
//!
//! While the configured Hyper key is held, every press of an alphanumeric key
//! is one command: it launches the matching executable script, such as
//! `~/.hyper/a.sh`. This crate holds the dispatcher's state machine, the
//! command-key and key-name logic, script paths, and the decisions made
//! while enrolling a keyboard; reading devices, inspecting files and
//! launching processes are left to the caller.

pub mod config_file;
pub mod devices;
pub mod dispatch;
pub mod enroll;
pub mod keys;
pub mod laws;
pub mod numeral;
pub mod order;
pub mod paths;
pub mod text;

pub use config_file::render_config;
pub use devices::{device_display_name, device_listing_line, keyboard_marker};
pub use dispatch::{
    executable_status, launch_environment, Config, DispatchPlan, Dispatcher, EventOutcome,
    ExecutableStatus, HyperChange, KeyEvent, KeyValue, MetadataProbe,
};
pub use enroll::{
    enrollment_devices, is_requested_press, select_stable_alias, ChordProgress, ChordStage,
    HyperAVerification, StableAliasError,
};
pub use keys::{command_char_for_key, config_key_name, parse_key_code, KeyParseError, KEY_A};
pub use order::sorted_order;
pub use paths::{default_script_dir, normalize_extension, script_path_for};
