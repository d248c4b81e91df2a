//! The machine configuration text that enrollment produces:
//!
//! ```toml
//! hyper_key = "KEY_MACRO11"
//! devices = [
//!     "/dev/input/by-id/usb-Keychron_Lemokey_X2-event-if01",
//! ]
//! ```
//!
//! Values are TOML basic strings; `script_dir` is left out so that the
//! default applies.

use vstd::prelude::*;
use vstd::string::*;
use crate::keys::{config_key_name, config_key_name_text};
use crate::order::views_of;
use crate::text::{chars_of, push_char};

verus! {

/// Upper-case hexadecimal digit for `d < 16`.
pub open spec fn hex_digit(d: nat) -> char {
    if d < 10 {
        ((48 + d) as u32) as char
    } else {
        ((55 + d) as u32) as char
    }
}

/// How one character is written inside a TOML basic string: quote and
/// backslash escaped, the named control escapes, other control characters
/// as `\u00XX`, everything else as itself.
pub open spec fn toml_escape_char(c: char) -> Seq<char> {
    let u = c as u32;
    if c == '"' {
        seq!['\\', '"']
    } else if c == '\\' {
        seq!['\\', '\\']
    } else if u == 8 {
        seq!['\\', 'b']
    } else if u == 9 {
        seq!['\\', 't']
    } else if u == 10 {
        seq!['\\', 'n']
    } else if u == 12 {
        seq!['\\', 'f']
    } else if u == 13 {
        seq!['\\', 'r']
    } else if u < 0x20 || u == 0x7f {
        seq!['\\', 'u', '0', '0', hex_digit((u / 16) as nat), hex_digit((u % 16) as nat)]
    } else {
        seq![c]
    }
}

/// The escaped form of a text.
pub open spec fn toml_escaped(s: Seq<char>) -> Seq<char>
    decreases s.len(),
{
    if s.len() == 0 {
        seq![]
    } else {
        toml_escaped(s.drop_last()) + toml_escape_char(s.last())
    }
}

/// A TOML basic string holding `s`.
pub open spec fn toml_string(s: Seq<char>) -> Seq<char> {
    seq!['"'] + toml_escaped(s) + seq!['"']
}

/// The entries of the `devices` array, one indented line each.
pub open spec fn device_lines(devices: Seq<Seq<char>>) -> Seq<char>
    decreases devices.len(),
{
    if devices.len() == 0 {
        seq![]
    } else {
        device_lines(devices.drop_last()) + "    "@ + toml_string(devices.last()) + ",\n"@
    }
}

/// The configuration text for a Hyper key name and a list of device paths.
pub open spec fn config_text(key_name: Seq<char>, devices: Seq<Seq<char>>) -> Seq<char> {
    "hyper_key = "@ + toml_string(key_name) + "\n"@ + "devices = [\n"@ + device_lines(devices) + "]\n"@
}

/// Appends the escaped form of one character.
fn push_escaped_char(out: &mut String, c: char)
    ensures
        final(out)@ == old(out)@ + toml_escape_char(c),
{
    let u = c as u32;
    if c == '"' || c == '\\' {
        push_char(out, '\\');
        push_char(out, c);
    } else if u == 8 {
        push_char(out, '\\');
        push_char(out, 'b');
    } else if u == 9 {
        push_char(out, '\\');
        push_char(out, 't');
    } else if u == 10 {
        push_char(out, '\\');
        push_char(out, 'n');
    } else if u == 12 {
        push_char(out, '\\');
        push_char(out, 'f');
    } else if u == 13 {
        push_char(out, '\\');
        push_char(out, 'r');
    } else if u < 0x20 || u == 0x7f {
        let high = (u / 16) as u8;
        let low = (u % 16) as u8;
        let high_char = if high < 10 { (48u8 + high) as char } else { (55u8 + high) as char };
        let low_char = if low < 10 { (48u8 + low) as char } else { (55u8 + low) as char };
        assert(high_char == hex_digit((u / 16) as nat));
        assert(low_char == hex_digit((u % 16) as nat));
        push_char(out, '\\');
        push_char(out, 'u');
        push_char(out, '0');
        push_char(out, '0');
        push_char(out, high_char);
        push_char(out, low_char);
    } else {
        push_char(out, c);
    }
    assert(final(out)@ =~= old(out)@ + toml_escape_char(c));
}

/// Appends a TOML basic string holding `s`.
pub fn push_toml_string(out: &mut String, s: &str)
    ensures
        final(out)@ == old(out)@ + toml_string(s@),
{
    let chars = chars_of(s);
    let ghost start = out@;
    push_char(out, '"');
    let mut i: usize = 0;
    while i < chars.len()
        invariant
            i <= chars.len(),
            chars@ == s@,
            out@ == start + seq!['"'] + toml_escaped(chars@.take(i as int)),
        decreases chars.len() - i,
    {
        push_escaped_char(out, chars[i]);
        assert(chars@.take(i + 1).drop_last() =~= chars@.take(i as int));
        assert(toml_escaped(chars@.take(i + 1)) == toml_escaped(chars@.take(i as int)) + toml_escape_char(
            chars@[i as int],
        ));
        assert(out@ =~= start + seq!['"'] + toml_escaped(chars@.take(i + 1)));
        i = i + 1;
    }
    assert(chars@.take(chars.len() as int) =~= s@);
    push_char(out, '"');
    assert(out@ =~= start + toml_string(s@));
}

/// The machine configuration recording a Hyper key and the stable device
/// paths to read. The key is written by `config_key_name`, so it reads back
/// as the same key.
pub fn render_config(hyper_key: u16, devices: &Vec<String>) -> (text: String)
    ensures
        text@ == config_text(config_key_name_text(hyper_key), views_of(devices@)),
{
    let name = config_key_name(hyper_key);
    let mut text = "hyper_key = ".to_owned();
    push_toml_string(&mut text, name.as_str());
    text.append("\n");
    text.append("devices = [\n");
    let ghost head = text@;
    let mut i: usize = 0;
    while i < devices.len()
        invariant
            i <= devices.len(),
            text@ == head + device_lines(views_of(devices@).take(i as int)),
        decreases devices.len() - i,
    {
        text.append("    ");
        push_toml_string(&mut text, devices[i].as_str());
        text.append(",\n");
        let ghost taken = views_of(devices@).take(i + 1);
        assert(taken.drop_last() =~= views_of(devices@).take(i as int));
        assert(taken.last() == devices@[i as int]@);
        assert(text@ =~= head + device_lines(taken));
        i = i + 1;
    }
    assert(views_of(devices@).take(devices.len() as int) =~= views_of(devices@));
    text.append("]\n");
    assert(text@ =~= config_text(config_key_name_text(hyper_key), views_of(devices@)));
    text
}

} // verus!
