//! Presentation of input devices: display names and the device listing.

use vstd::prelude::*;
use vstd::string::*;
use crate::text::push_char;

verus! {

/// The name shown for a device: its own name, or `unnamed device`.
pub fn device_display_name(name: Option<&str>) -> (shown: String)
    ensures
        shown@ == match name {
            Some(n) => n@,
            None => "unnamed device"@,
        },
{
    match name {
        Some(n) => n.to_owned(),
        None => "unnamed device".to_owned(),
    }
}

/// Whether a device looks like a keyboard: it reports its supported keys and
/// they include both `A` and `Z`.
pub open spec fn looks_like_keyboard(supports_a_and_z: Option<(bool, bool)>) -> bool {
    match supports_a_and_z {
        Some((a, z)) => a && z,
        None => false,
    }
}

/// The listing marker of a device: `keyboard-ish` for keyboards, `input`
/// otherwise.
pub fn keyboard_marker(supports_a_and_z: Option<(bool, bool)>) -> (marker: &'static str)
    ensures
        marker@ == if looks_like_keyboard(supports_a_and_z) {
            "keyboard-ish"@
        } else {
            "input"@
        },
{
    let keyboard = match supports_a_and_z {
        Some((a, z)) => a && z,
        None => false,
    };
    if keyboard {
        "keyboard-ish"
    } else {
        "input"
    }
}

/// One line of the device listing: path, marker and name, separated by tabs.
pub fn device_listing_line(path: &str, marker: &str, name: &str) -> (line: String)
    ensures
        line@ == path@ + seq!['\t'] + marker@ + seq!['\t'] + name@,
{
    let mut line = path.to_owned();
    push_char(&mut line, '\t');
    line.append(marker);
    push_char(&mut line, '\t');
    line.append(name);
    line
}

} // verus!
