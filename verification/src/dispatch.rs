//! The dispatcher's state machine.
//!
//! There are two states: idle (Hyper is up) and armed (Hyper is down).
//! Pressing Hyper arms, releasing it disarms. While armed, every physical
//! press of an alphanumeric key is one complete command event; there is no
//! command buffer, no prefix grammar and no timeout. Key-repeat events never
//! dispatch, so holding a command key launches it once.

use vstd::prelude::*;
use vstd::string::*;
use crate::text::push_char;
use crate::keys::{command_char_for_key, command_char_of};
use crate::paths::{normalize_extension, normalized_extension, path_join, script_file_name, script_path_for};

verus! {

/// The value of an evdev key event: 0 release, 1 press, 2 repeat. Other
/// values are kept for diagnostics.
#[derive(Clone, Copy, Debug, PartialEq, Eq, Structural)]
pub enum KeyValue {
    Release,
    Press,
    Repeat,
    Other(i32),
}

/// The key value that an evdev event value stands for.
pub open spec fn key_value_of(value: i32) -> KeyValue {
    if value == 0 {
        KeyValue::Release
    } else if value == 1 {
        KeyValue::Press
    } else if value == 2 {
        KeyValue::Repeat
    } else {
        KeyValue::Other(value)
    }
}

/// The text a key value is reported as to scripts.
pub open spec fn env_text(value: KeyValue) -> Seq<char> {
    match value {
        KeyValue::Release => "release"@,
        KeyValue::Press => "press"@,
        KeyValue::Repeat => "repeat"@,
        KeyValue::Other(_) => "other"@,
    }
}

impl KeyValue {
    /// Classifies a raw evdev key-event value.
    pub fn from_evdev_value(value: i32) -> (r: Self)
        ensures
            r == key_value_of(value),
    {
        match value {
            0 => KeyValue::Release,
            1 => KeyValue::Press,
            2 => KeyValue::Repeat,
            other => KeyValue::Other(other),
        }
    }

    /// The value reported to scripts in `HYPERKEYD_EVENT`.
    pub fn as_env_value(self) -> (s: &'static str)
        ensures
            s@ == env_text(self),
    {
        match self {
            KeyValue::Release => "release",
            KeyValue::Press => "press",
            KeyValue::Repeat => "repeat",
            KeyValue::Other(_) => "other",
        }
    }
}

/// Runtime configuration after the command line has been normalized.
pub struct Config {
    /// Key code of the Hyper trigger.
    pub hyper_key: u16,
    /// Directory that holds the command scripts.
    pub script_dir: String,
    /// Script extension, stored without a leading dot.
    pub extension: String,
    /// Whether a missing script is reported.
    pub log_missing: bool,
    /// Whether scripts are only reported instead of launched.
    pub dry_run: bool,
}

impl Config {
    /// Builds the configuration, normalizing the extension setting.
    pub fn new(hyper_key: u16, script_dir: String, extension: &str, log_missing: bool, dry_run: bool) -> (c: Self)
        ensures
            c.hyper_key == hyper_key,
            c.script_dir@ == script_dir@,
            c.extension@ == normalized_extension(extension@),
            c.log_missing == log_missing,
            c.dry_run == dry_run,
    {
        Config { hyper_key, script_dir, extension: normalize_extension(extension), log_missing, dry_run }
    }
}

/// A key event from one of the watched devices.
pub struct KeyEvent {
    /// The device that produced the event.
    pub device_path: String,
    /// Kernel key code.
    pub key: u16,
    /// Press, release, repeat or another value.
    pub value: KeyValue,
}

/// What a Hyper-key event did to the state.
#[derive(Clone, Copy, Debug, PartialEq, Eq, Structural)]
pub enum HyperChange {
    /// Hyper went down while idle: now armed.
    Armed,
    /// Hyper went down while already armed.
    AlreadyArmed,
    /// Hyper went up while armed: now idle.
    Disarmed,
    /// Hyper went up while already idle.
    AlreadyIdle,
    /// A repeat of Hyper; the state is unchanged.
    RepeatIgnored,
    /// Hyper produced an unrecognized value; the state is unchanged.
    Unrecognized(i32),
}

/// What one key event amounts to.
#[derive(Clone, Copy, Debug, PartialEq, Eq, Structural)]
pub enum EventOutcome {
    /// The event was the Hyper key.
    Hyper(HyperChange),
    /// Another key while idle: outside the dispatcher's domain.
    IgnoredWhileIdle,
    /// Another key while armed, but not a press.
    IgnoredValue,
    /// A press while armed of a key that is not alphanumeric.
    NotCommandKey,
    /// A press while armed of an alphanumeric key: launch its script.
    Command(char),
}

/// The next armed state and the report for a Hyper-key event.
pub open spec fn hyper_step(armed: bool, value: KeyValue) -> (bool, HyperChange) {
    match value {
        KeyValue::Press => (true, if armed { HyperChange::AlreadyArmed } else { HyperChange::Armed }),
        KeyValue::Release => (false, if armed { HyperChange::Disarmed } else { HyperChange::AlreadyIdle }),
        KeyValue::Repeat => (armed, HyperChange::RepeatIgnored),
        KeyValue::Other(raw) => (armed, HyperChange::Unrecognized(raw)),
    }
}

/// Whether a key value of an ordinary key can be a command event: only a
/// physical press is.
pub open spec fn dispatches_for(value: KeyValue) -> bool {
    value == KeyValue::Press
}

/// The next armed state and the outcome of one key event.
pub open spec fn event_step(armed: bool, hyper_key: u16, key: u16, value: KeyValue) -> (bool, EventOutcome) {
    if key == hyper_key {
        let (next, change) = hyper_step(armed, value);
        (next, EventOutcome::Hyper(change))
    } else if !armed {
        (armed, EventOutcome::IgnoredWhileIdle)
    } else if !dispatches_for(value) {
        (armed, EventOutcome::IgnoredValue)
    } else {
        match command_char_of(key) {
            Some(c) => (armed, EventOutcome::Command(c)),
            None => (armed, EventOutcome::NotCommandKey),
        }
    }
}

/// The Hyper-key dispatcher: idle or armed, with its configuration.
pub struct Dispatcher {
    armed: bool,
    config: Config,
}

impl Dispatcher {
    /// Whether Hyper is down.
    pub closed spec fn armed_state(&self) -> bool {
        self.armed
    }

    /// The configuration the dispatcher runs with.
    pub closed spec fn config_state(&self) -> &Config {
        &self.config
    }

    /// A dispatcher that starts idle.
    pub fn new(config: Config) -> (d: Self)
        ensures
            !d.armed_state(),
            d.config_state() == config,
    {
        Dispatcher { armed: false, config }
    }

    /// Whether Hyper is currently down.
    pub fn is_armed(&self) -> (armed: bool)
        ensures
            armed == self.armed_state(),
    {
        self.armed
    }

    /// The configuration.
    pub fn config(&self) -> (c: &Config)
        ensures
            c == self.config_state(),
    {
        &self.config
    }

    /// Handles one key event: a Hyper event updates the armed state; a press
    /// of an alphanumeric key while armed is a command; everything else is
    /// ignored.
    pub fn handle_event(&mut self, event: KeyEvent) -> (outcome: EventOutcome)
        ensures
            (final(self).armed_state(), outcome) == event_step(
                old(self).armed_state(),
                old(self).config_state().hyper_key,
                event.key,
                event.value,
            ),
            final(self).config_state() == old(self).config_state(),
    {
        if event.key == self.config.hyper_key {
            let change = self.handle_hyper_event(event.value);
            return EventOutcome::Hyper(change);
        }
        if !self.armed {
            return EventOutcome::IgnoredWhileIdle;
        }
        if !Self::should_dispatch_for_value(event.value) {
            return EventOutcome::IgnoredValue;
        }
        match command_char_for_key(event.key) {
            Some(c) => EventOutcome::Command(c),
            None => EventOutcome::NotCommandKey,
        }
    }

    /// Updates the armed state for an event of the Hyper key.
    pub fn handle_hyper_event(&mut self, value: KeyValue) -> (change: HyperChange)
        ensures
            (final(self).armed_state(), change) == hyper_step(old(self).armed_state(), value),
            final(self).config_state() == old(self).config_state(),
    {
        match value {
            KeyValue::Press => {
                let change = if self.armed {
                    HyperChange::AlreadyArmed
                } else {
                    HyperChange::Armed
                };
                self.armed = true;
                change
            },
            KeyValue::Release => {
                let change = if self.armed {
                    HyperChange::Disarmed
                } else {
                    HyperChange::AlreadyIdle
                };
                self.armed = false;
                change
            },
            KeyValue::Repeat => HyperChange::RepeatIgnored,
            KeyValue::Other(raw) => HyperChange::Unrecognized(raw),
        }
    }

    /// Whether an event value of an ordinary key counts as a command event:
    /// a press does; release, repeat and unknown values do not.
    pub fn should_dispatch_for_value(value: KeyValue) -> (b: bool)
        ensures
            b == dispatches_for(value),
    {
        match value {
            KeyValue::Press => true,
            _ => false,
        }
    }

    /// The script path for a command character under this configuration.
    pub fn script_path(&self, command_char: char) -> (path: String)
        ensures
            path@ == path_join(
                self.config_state().script_dir@,
                script_file_name(command_char, self.config_state().extension@),
            ),
    {
        script_path_for(self.config.script_dir.as_str(), command_char, self.config.extension.as_str())
    }
}

/// What the file system says about a possible script path.
#[derive(Clone, Copy, Debug, PartialEq, Eq, Structural)]
pub enum MetadataProbe {
    /// Nothing exists at the path.
    NotFound,
    /// The path could not be inspected for another reason.
    Unreadable,
    /// Something exists: whether it is a regular file, and its Unix mode bits.
    Found { is_file: bool, mode: u32 },
}

/// Whether a script path can be launched.
#[derive(Clone, Copy, Debug, PartialEq, Eq, Structural)]
pub enum ExecutableStatus {
    Executable,
    Missing,
    NotAFile,
    NotExecutable,
}

/// The launch status for a probe: missing when nothing is there, not a file
/// when it is no regular file, not executable when no execute bit
/// (`0o111`) is set, executable otherwise.
pub open spec fn status_of(probe: MetadataProbe) -> Option<ExecutableStatus> {
    match probe {
        MetadataProbe::NotFound => Some(ExecutableStatus::Missing),
        MetadataProbe::Unreadable => None,
        MetadataProbe::Found { is_file, mode } => {
            if !is_file {
                Some(ExecutableStatus::NotAFile)
            } else if mode & 0o111 == 0 {
                Some(ExecutableStatus::NotExecutable)
            } else {
                Some(ExecutableStatus::Executable)
            }
        },
    }
}

/// `metadata failed for <path>`: the report for a path that could not be
/// inspected.
pub open spec fn inspection_failure(path: Seq<char>) -> Seq<char> {
    "metadata failed for "@ + path
}

/// A regular file is executable exactly when one of its execute bits
/// (owner `0o100`, group `0o010`, other `0o001`) is set; read, write and any
/// other mode bits never make it executable, and something that is not a
/// regular file is never executable.
pub proof fn lemma_execute_bits_decide(is_file: bool, mode: u32)
    ensures
        status_of(MetadataProbe::Found { is_file, mode }) == Some(ExecutableStatus::Executable) <==> (
        is_file && (mode & 0o100 != 0 || mode & 0o010 != 0 || mode & 0o001 != 0)),
        status_of(MetadataProbe::Found { is_file, mode }) == Some(ExecutableStatus::NotExecutable) <==> (
        is_file && mode & 0o100 == 0 && mode & 0o010 == 0 && mode & 0o001 == 0),
        !is_file ==> status_of(MetadataProbe::Found { is_file, mode }) == Some(ExecutableStatus::NotAFile),
{
    assert((mode & 0o111 == 0) <==> (mode & 0o100 == 0 && mode & 0o010 == 0 && mode & 0o001 == 0))
        by (bit_vector);
}

/// Two modes with the same execute bits give the same status.
pub proof fn lemma_only_execute_bits_matter(is_file: bool, mode1: u32, mode2: u32)
    requires
        mode1 & 0o100 == mode2 & 0o100,
        mode1 & 0o010 == mode2 & 0o010,
        mode1 & 0o001 == mode2 & 0o001,
    ensures
        status_of(MetadataProbe::Found { is_file, mode: mode1 }) == status_of(
            MetadataProbe::Found { is_file, mode: mode2 },
        ),
{
    lemma_execute_bits_decide(is_file, mode1);
    lemma_execute_bits_decide(is_file, mode2);
}

/// Decides whether the probed script path is launchable.
pub fn executable_status(script_path: &str, probe: MetadataProbe) -> (r: Result<ExecutableStatus, String>)
    ensures
        match r {
            Ok(status) => status_of(probe) == Some(status),
            Err(message) => status_of(probe) is None && message@ == inspection_failure(script_path@),
        },
{
    match probe {
        MetadataProbe::NotFound => Ok(ExecutableStatus::Missing),
        MetadataProbe::Unreadable => {
            let mut message = "metadata failed for ".to_owned();
            message.append(script_path);
            Err(message)
        },
        MetadataProbe::Found { is_file, mode } => {
            if !is_file {
                Ok(ExecutableStatus::NotAFile)
            } else if mode & 0o111 == 0 {
                Ok(ExecutableStatus::NotExecutable)
            } else {
                Ok(ExecutableStatus::Executable)
            }
        },
    }
}

/// What to do with a command once its script has been inspected.
#[derive(Debug)]
pub enum DispatchPlan {
    /// Launch the script.
    Launch,
    /// Report the script that would be launched, and launch nothing.
    DryRun,
    /// The script is missing; report it.
    ReportMissing,
    /// The script is missing; ignore the command silently.
    IgnoreMissing,
    /// Something other than a regular file is in the way; warn.
    WarnNotAFile,
    /// The file has no execute permission; warn.
    WarnNotExecutable,
    /// The path could not be inspected; warn with this message.
    WarnUninspectable(String),
}

impl Dispatcher {
    /// Decides what a command does, given the inspection of its script.
    pub fn plan_dispatch(&self, status: Result<ExecutableStatus, String>) -> (plan: DispatchPlan)
        ensures
            match status {
                Ok(ExecutableStatus::Executable) => if self.config_state().dry_run {
                    plan is DryRun
                } else {
                    plan is Launch
                },
                Ok(ExecutableStatus::Missing) => if self.config_state().log_missing {
                    plan is ReportMissing
                } else {
                    plan is IgnoreMissing
                },
                Ok(ExecutableStatus::NotAFile) => plan is WarnNotAFile,
                Ok(ExecutableStatus::NotExecutable) => plan is WarnNotExecutable,
                Err(message) => plan matches DispatchPlan::WarnUninspectable(m) && m@ == message@,
            },
    {
        match status {
            Ok(ExecutableStatus::Executable) => {
                if self.config.dry_run {
                    DispatchPlan::DryRun
                } else {
                    DispatchPlan::Launch
                }
            },
            Ok(ExecutableStatus::Missing) => {
                if self.config.log_missing {
                    DispatchPlan::ReportMissing
                } else {
                    DispatchPlan::IgnoreMissing
                }
            },
            Ok(ExecutableStatus::NotAFile) => DispatchPlan::WarnNotAFile,
            Ok(ExecutableStatus::NotExecutable) => DispatchPlan::WarnNotExecutable,
            Err(message) => DispatchPlan::WarnUninspectable(message),
        }
    }
}

/// The environment a launched script receives: `HYPERKEYD_KEY` (the command
/// character), `HYPERKEYD_EVENT` (the key value) and `HYPERKEYD_DEVICE` (the
/// device that produced the event).
pub fn launch_environment(command_char: char, value: KeyValue, device_path: &str) -> (env: Vec<(String, String)>)
    ensures
        env@.len() == 3,
        env@[0].0@ == "HYPERKEYD_KEY"@,
        env@[0].1@ == seq![command_char],
        env@[1].0@ == "HYPERKEYD_EVENT"@,
        env@[1].1@ == env_text(value),
        env@[2].0@ == "HYPERKEYD_DEVICE"@,
        env@[2].1@ == device_path@,
{
    let mut key_text = String::new();
    push_char(&mut key_text, command_char);
    let mut env: Vec<(String, String)> = Vec::new();
    env.push(("HYPERKEYD_KEY".to_owned(), key_text));
    env.push(("HYPERKEYD_EVENT".to_owned(), value.as_env_value().to_owned()));
    env.push(("HYPERKEYD_DEVICE".to_owned(), device_path.to_owned()));
    env
}

} // verus!
