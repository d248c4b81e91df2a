//! Linux input key codes: the command-key namespace, parsing of the Hyper-key
//! argument, and the key names written to machine configuration.
//!
//! Key codes are the kernel's numeric `KEY_*`/`BTN_*` values (`u16`), the same
//! numbers that `evdev::KeyCode` wraps.

use vstd::prelude::*;
use vstd::string::*;
use crate::numeral::{
    all_digits, canonical_decimal, decimal, digits_value, is_digit, lemma_decimal,
    parse_u16, parsed_u16, push_decimal,
};
use crate::text::{
    ascii_upper, ascii_uppercase, chars_of, lemma_trimmed_ends, lemma_uppercase_idempotent,
    lemma_uppercase_trimmed, has_prefix, is_white_space, lemma_leading_run_is,
    lemma_trailing_run_is, starts_with, string_from_chars, to_ascii_uppercase, trim_chars, trimmed,
};

verus! {

/// Kernel key code of the `A` key.
pub const KEY_A: u16 = 30;

/// Kernel key code of `KEY_MACRO1`; the macro keys run up to `KEY_MACRO30`.
pub const KEY_MACRO1: u16 = 0x290;

/// Kernel key code of `KEY_MACRO30`.
pub const KEY_MACRO30: u16 = 0x2ad;

// ---------------------------------------------------------------------------
// evdev
// ---------------------------------------------------------------------------

/// evdev's `EnumParseError`, the error of `KeyCode::from_str`; carried
/// through unopened.
#[verifier::external_type_specification]
#[verifier::external_body]
pub struct ExEnumParseError(evdev::EnumParseError);

/// The key code that evdev's `KeyCode::from_str` associates with a symbolic
/// name, if it knows the name.
pub uninterp spec fn evdev_key_code_named(name: Seq<char>) -> Option<u16>;

/// The text that evdev's `Debug` implementation of `KeyCode` writes for a code.
pub uninterp spec fn evdev_key_debug_text(code: u16) -> Seq<char>;

/// Whether `c` may occur in an evdev key-constant name.
pub open spec fn is_identifier_char(c: char) -> bool {
    ('A' <= c && c <= 'Z') || ('0' <= c && c <= '9') || c == '_'
}

/// `KEY_`
pub open spec fn key_prefix() -> Seq<char> {
    seq!['K', 'E', 'Y', '_']
}

/// `BTN_`
pub open spec fn button_prefix() -> Seq<char> {
    seq!['B', 'T', 'N', '_']
}

/// `KEY_MACRO`
pub open spec fn macro_prefix() -> Seq<char> {
    seq!['K', 'E', 'Y', '_', 'M', 'A', 'C', 'R', 'O']
}

/// `unknown key:`
pub open spec fn unknown_key_prefix() -> Seq<char> {
    seq!['u', 'n', 'k', 'n', 'o', 'w', 'n', ' ', 'k', 'e', 'y', ':']
}

/// What evdev writes for a code that has no constant: `unknown key: <code>`.
pub open spec fn unknown_key_text(code: u16) -> Seq<char> {
    unknown_key_prefix() + seq![' '] + decimal(code as nat)
}

/// The shape of every evdev key-constant name: `KEY_` or `BTN_` followed by
/// upper-case letters, digits and underscores.
pub open spec fn is_key_identifier(s: Seq<char>) -> bool {
    &&& (starts_with(s, key_prefix()) || starts_with(s, button_prefix()))
    &&& forall|i: int| 0 <= i < s.len() ==> is_identifier_char(#[trigger] s[i])
}

/// The kernel code of a canonical `KEY_MACRO<n>` name (`1 <= n <= 30`), which
/// evdev has no constant for.
pub open spec fn kernel_macro_code(name: Seq<char>) -> Option<u16> {
    let rest = name.skip(9);
    if starts_with(name, macro_prefix()) && canonical_decimal(rest) && 1 <= digits_value(rest)
        <= 30 {
        Some((0x28f + digits_value(rest)) as u16)
    } else {
        None
    }
}

/// Looks a symbolic key name up in evdev (`KeyCode::from_str`).
///
/// Trusted: `Ok` carries the code that evdev's name table gives for `name`,
/// `Err` means the table has no such name; the table holds no `KEY_MACRO<n>`
/// names.
#[verifier::external_body]
fn evdev_code_from_name(name: &str) -> (r: Result<u16, evdev::EnumParseError>)
    ensures
        match r {
            Ok(code) => evdev_key_code_named(name@) == Some(code),
            Err(_) => evdev_key_code_named(name@) is None,
        },
        kernel_macro_code(name@) is Some ==> r is Err,
{
    match <evdev::KeyCode as std::str::FromStr>::from_str(name) {
        Ok(key) => Ok(key.code()),
        Err(err) => Err(err),
    }
}

/// evdev's debug rendering of a key code (`format!("{:?}", KeyCode::new(code))`).
///
/// Trusted: the text is either `unknown key: <code>` or the name of the evdev
/// constant for `code`; such a name has the `KEY_`/`BTN_` identifier shape, is
/// not a `KEY_MACRO<n>` name, and `KeyCode::from_str` maps it back to `code`.
#[verifier::external_body]
fn evdev_debug_name(code: u16) -> (s: String)
    ensures
        s@ == evdev_key_debug_text(code),
        s@ == unknown_key_text(code) || (is_key_identifier(s@) && kernel_macro_code(s@) is None
            && evdev_key_code_named(s@) == Some(code)),
{
    format!("{:?}", evdev::KeyCode::new(code))
}

// ---------------------------------------------------------------------------
// Command keys
// ---------------------------------------------------------------------------

/// Key code of the `i`-th letter key (`0` is `A`, `25` is `Z`).
pub open spec fn letter_key_code(i: int) -> u16 {
    if i == 0 { 30 }
    else if i == 1 { 48 }
    else if i == 2 { 46 }
    else if i == 3 { 32 }
    else if i == 4 { 18 }
    else if i == 5 { 33 }
    else if i == 6 { 34 }
    else if i == 7 { 35 }
    else if i == 8 { 23 }
    else if i == 9 { 36 }
    else if i == 10 { 37 }
    else if i == 11 { 38 }
    else if i == 12 { 50 }
    else if i == 13 { 49 }
    else if i == 14 { 24 }
    else if i == 15 { 25 }
    else if i == 16 { 16 }
    else if i == 17 { 19 }
    else if i == 18 { 31 }
    else if i == 19 { 20 }
    else if i == 20 { 22 }
    else if i == 21 { 47 }
    else if i == 22 { 17 }
    else if i == 23 { 45 }
    else if i == 24 { 21 }
    else { 44 }
}

/// Key code of the digit key `d` (`KEY_0` is 11, `KEY_1`..`KEY_9` are 2..10).
pub open spec fn digit_key_code(d: int) -> u16 {
    if d == 0 {
        11
    } else {
        (d + 1) as u16
    }
}

/// The physical key that a command character stands for: the letter keys for
/// `a`..`z` and the digit keys for `0`..`9`; no other character is a command.
pub open spec fn command_key_code(c: char) -> Option<u16> {
    if 'a' <= c && c <= 'z' {
        Some(letter_key_code(c as int - 'a' as int))
    } else if '0' <= c && c <= '9' {
        Some(digit_key_code(c as int - '0' as int))
    } else {
        None
    }
}

/// The command character of a physical key, if it has one.
pub open spec fn command_char_of(key: u16) -> Option<char> {
    if key == 30 { Some('a') }
    else if key == 48 { Some('b') }
    else if key == 46 { Some('c') }
    else if key == 32 { Some('d') }
    else if key == 18 { Some('e') }
    else if key == 33 { Some('f') }
    else if key == 34 { Some('g') }
    else if key == 35 { Some('h') }
    else if key == 23 { Some('i') }
    else if key == 36 { Some('j') }
    else if key == 37 { Some('k') }
    else if key == 38 { Some('l') }
    else if key == 50 { Some('m') }
    else if key == 49 { Some('n') }
    else if key == 24 { Some('o') }
    else if key == 25 { Some('p') }
    else if key == 16 { Some('q') }
    else if key == 19 { Some('r') }
    else if key == 31 { Some('s') }
    else if key == 20 { Some('t') }
    else if key == 22 { Some('u') }
    else if key == 47 { Some('v') }
    else if key == 17 { Some('w') }
    else if key == 45 { Some('x') }
    else if key == 21 { Some('y') }
    else if key == 44 { Some('z') }
    else if key == 11 { Some('0') }
    else if 2 <= key <= 10 { Some(((key - 2) + 49) as char) }
    else { None }
}

/// The command character of a key is exactly the character whose key it is.
pub proof fn lemma_command_char_of_inverts(key: u16, c: char)
    ensures
        command_char_of(key) == Some(c) <==> command_key_code(c) == Some(key),
{
    if command_char_of(key) == Some(c) {
        if 2 <= key <= 10 {
            assert(c as u32 == key - 2 + 49);
        }
    }
    if command_key_code(c) == Some(key) && '0' <= c && c <= '9' && c != '0' {
        vstd::utf8::char_u32_cast(c, c as u32);
        assert(((key - 2) + 49) as char == c);
    }
}

/// Maps a physical key code to its command character: the alphanumeric keys,
/// normalized to lower case, independent of the keyboard layout.
pub fn command_char_for_key(key: u16) -> (r: Option<char>)
    ensures
        r == command_char_of(key),
        match r {
            Some(c) => command_key_code(c) == Some(key),
            None => forall|c: char| command_key_code(c) != Some(key),
        },
{
    let r = match key {
        30 => Some('a'),
        48 => Some('b'),
        46 => Some('c'),
        32 => Some('d'),
        18 => Some('e'),
        33 => Some('f'),
        34 => Some('g'),
        35 => Some('h'),
        23 => Some('i'),
        36 => Some('j'),
        37 => Some('k'),
        38 => Some('l'),
        50 => Some('m'),
        49 => Some('n'),
        24 => Some('o'),
        25 => Some('p'),
        16 => Some('q'),
        19 => Some('r'),
        31 => Some('s'),
        20 => Some('t'),
        22 => Some('u'),
        47 => Some('v'),
        17 => Some('w'),
        45 => Some('x'),
        21 => Some('y'),
        44 => Some('z'),
        11 => Some('0'),
        2 => Some('1'),
        3 => Some('2'),
        4 => Some('3'),
        5 => Some('4'),
        6 => Some('5'),
        7 => Some('6'),
        8 => Some('7'),
        9 => Some('8'),
        10 => Some('9'),
        _ => None,
    };
    proof {
        if let Some(c) = r {
            lemma_command_char_of_inverts(key, c);
        } else {
            assert forall|c: char| command_key_code(c) != Some(key) by {
                lemma_command_char_of_inverts(key, c);
            }
        }
    }
    r
}


/// Distinct command characters stand for distinct physical keys.
pub proof fn lemma_command_keys_distinct(c1: char, c2: char)
    requires
        command_key_code(c1) is Some,
        command_key_code(c1) == command_key_code(c2),
    ensures
        c1 == c2,
{
    assert(c1 as int == c2 as int);
}

// ---------------------------------------------------------------------------
// Hyper-key argument
// ---------------------------------------------------------------------------

/// Why a key-code argument was refused.
#[derive(Debug)]
pub enum KeyParseError {
    /// Nothing but white space was given.
    Empty,
    /// Neither a number nor a known key name; `canonical` is the name that
    /// was looked up, `source` evdev's refusal.
    Unknown { input: String, canonical: String, source: evdev::EnumParseError },
}

/// The key name looked up for an argument: trimmed, ASCII upper-cased, and
/// given the `KEY_` prefix unless it already starts with `KEY_` or `BTN_`.
pub open spec fn canonical_key_name(input: Seq<char>) -> Seq<char> {
    let upper = ascii_uppercase(trimmed(input));
    if starts_with(upper, key_prefix()) || starts_with(upper, button_prefix()) {
        upper
    } else {
        key_prefix() + upper
    }
}

/// The key code an argument denotes: a 16-bit number as is; otherwise the
/// canonical name, either a kernel `KEY_MACRO<n>` name or a name evdev knows.
pub open spec fn key_code_for_input(input: Seq<char>) -> Option<u16> {
    let t = trimmed(input);
    let name = canonical_key_name(input);
    if t.len() == 0 {
        None
    } else if parsed_u16(t) is Some {
        parsed_u16(t)
    } else if kernel_macro_code(name) is Some {
        kernel_macro_code(name)
    } else {
        evdev_key_code_named(name)
    }
}

/// Reads the code of a canonical `KEY_MACRO<n>` name.
fn kernel_macro_code_of(name: &Vec<char>) -> (r: Option<u16>)
    ensures
        r == kernel_macro_code(name@),
{
    let prefix = vec!['K', 'E', 'Y', '_', 'M', 'A', 'C', 'R', 'O'];
    assert(prefix@ == macro_prefix());
    if !has_prefix(name, &prefix) {
        return None;
    }
    let mut rest: Vec<char> = Vec::new();
    let mut i: usize = 9;
    while i < name.len()
        invariant
            9 <= i <= name.len(),
            rest@ == name@.subrange(9, i as int),
        decreases name.len() - i,
    {
        rest.push(name[i]);
        assert(name@.subrange(9, i + 1) =~= name@.subrange(9, i as int).push(name@[i as int]));
        i = i + 1;
    }
    assert(rest@ =~= name@.skip(9));
    if rest.len() == 0 || !('0' <= rest[0] && rest[0] <= '9') {
        return None;
    }
    if rest.len() > 1 && rest[0] == '0' {
        return None;
    }
    match parse_u16(&rest) {
        Some(v) => {
            if 1 <= v && v <= 30 {
                Some(0x28f + v)
            } else {
                None
            }
        },
        None => None,
    }
}

/// Parses the Hyper-key argument.
///
/// Accepts a numeric code (`194`, `666`), a canonical evdev name (`KEY_F24`,
/// `BTN_0`), a name without its `KEY_` prefix (`F24`, `LEFTMETA`), any of
/// them in any ASCII case and surrounded by white space, and the kernel names
/// `KEY_MACRO1` to `KEY_MACRO30`, for which evdev has no constant.
pub fn parse_key_code(input: &str) -> (r: Result<u16, KeyParseError>)
    ensures
        r is Ok <==> key_code_for_input(input@) is Some,
        match r {
            Ok(code) => key_code_for_input(input@) == Some(code),
            Err(KeyParseError::Empty) => trimmed(input@).len() == 0,
            Err(KeyParseError::Unknown { input: given, canonical, .. }) => {
                &&& trimmed(input@).len() > 0
                &&& given@ == input@
                &&& canonical@ == canonical_key_name(input@)
            },
        },
{
    let chars = chars_of(input);
    let t = trim_chars(&chars);
    if t.len() == 0 {
        return Err(KeyParseError::Empty);
    }
    if let Some(code) = parse_u16(&t) {
        return Ok(code);
    }
    let upper = to_ascii_uppercase(&t);
    let key_pre = vec!['K', 'E', 'Y', '_'];
    let button_pre = vec!['B', 'T', 'N', '_'];
    assert(key_pre@ == key_prefix());
    assert(button_pre@ == button_prefix());
    let canonical = if has_prefix(&upper, &key_pre) || has_prefix(&upper, &button_pre) {
        upper
    } else {
        let mut named = key_pre;
        let mut i: usize = 0;
        while i < upper.len()
            invariant
                i <= upper.len(),
                named@ == key_prefix() + upper@.take(i as int),
            decreases upper.len() - i,
        {
            named.push(upper[i]);
            assert(key_prefix() + upper@.take(i + 1) =~= (key_prefix() + upper@.take(i as int)).push(
                upper@[i as int],
            ));
            i = i + 1;
        }
        assert(upper@.take(upper.len() as int) =~= upper@);
        named
    };
    assert(canonical@ == canonical_key_name(input@));
    if let Some(code) = kernel_macro_code_of(&canonical) {
        return Ok(code);
    }
    let name = string_from_chars(&canonical);
    match evdev_code_from_name(name.as_str()) {
        Ok(code) => Ok(code),
        Err(source) => Err(KeyParseError::Unknown { input: input.to_owned(), canonical: name, source }),
    }
}

/// Upper-casing keeps what `str::parse::<u16>` reads.
pub proof fn lemma_parsed_u16_uppercase(t: Seq<char>)
    ensures
        parsed_u16(ascii_uppercase(t)) == parsed_u16(t),
{
    let u = ascii_uppercase(t);
    assert forall|c: char| #[trigger] is_digit(ascii_upper(c)) == is_digit(c) && (ascii_upper(c) == '+') == (c == '+')
        && (is_digit(c) ==> ascii_upper(c) == c) by {
        if 'a' <= c && c <= 'z' {
            assert(((c as u32) - 32) as char as u32 == (c as u32) - 32);
        }
    }
    let dt = if t.len() > 0 && t[0] == '+' { t.drop_first() } else { t };
    let du = if u.len() > 0 && u[0] == '+' { u.drop_first() } else { u };
    if t.len() > 0 {
        assert(u[0] == ascii_upper(t[0]));
    }
    assert(du =~= ascii_uppercase(dt));
    assert(all_digits(du) == all_digits(dt)) by {
        if all_digits(dt) {
            assert forall|i: int| 0 <= i < du.len() implies is_digit(#[trigger] du[i]) by {
                assert(du[i] == ascii_upper(dt[i]));
                assert(is_digit(dt[i]));
            }
        }
        if all_digits(du) {
            assert forall|i: int| 0 <= i < dt.len() implies is_digit(#[trigger] dt[i]) by {
                assert(du[i] == ascii_upper(dt[i]));
                assert(is_digit(du[i]));
            }
        }
    }
    if all_digits(dt) {
        assert forall|i: int| 0 <= i < dt.len() implies du[i] == dt[i] by {
            assert(is_digit(dt[i]));
        }
        assert(du =~= dt);
    }
}

/// Key arguments are case-insensitive: an argument and its ASCII upper-case
/// form denote the same key.
pub proof fn lemma_key_names_ignore_case(input: Seq<char>)
    ensures
        key_code_for_input(ascii_uppercase(input)) == key_code_for_input(input),
{
    let t = trimmed(input);
    lemma_uppercase_trimmed(input);
    lemma_uppercase_idempotent(t);
    lemma_parsed_u16_uppercase(t);
    assert(ascii_uppercase(t).len() == t.len());
    assert(canonical_key_name(ascii_uppercase(input)) == canonical_key_name(input));
}

/// A key name may be given without its `KEY_` prefix: `F24` denotes the same
/// key as `KEY_F24`.
pub proof fn lemma_key_prefix_is_optional(input: Seq<char>)
    requires
        trimmed(input).len() > 0,
        parsed_u16(trimmed(input)) is None,
        !starts_with(ascii_uppercase(trimmed(input)), key_prefix()),
        !starts_with(ascii_uppercase(trimmed(input)), button_prefix()),
    ensures
        key_code_for_input(key_prefix() + trimmed(input)) == key_code_for_input(input),
{
    let t = trimmed(input);
    let named = key_prefix() + t;
    lemma_trimmed_ends(input);
    assert(named[0] == 'K');
    assert(named.last() == t.last());
    lemma_trimmed_unchanged(named);
    assert(!is_digit(named[0]));
    assert(parsed_u16(named) is None);
    assert(ascii_uppercase(named) =~= key_prefix() + ascii_uppercase(t));
    assert((key_prefix() + ascii_uppercase(t)).take(4) =~= key_prefix());
    assert(canonical_key_name(named) == canonical_key_name(input));
}

// ---------------------------------------------------------------------------
// Key names for machine configuration
// ---------------------------------------------------------------------------

/// The name written to configuration for a key code: `KEY_MACRO<n>` for the
/// kernel macro keys, evdev's constant name where it has one, and the decimal
/// code otherwise.
pub open spec fn config_key_name_text(code: u16) -> Seq<char> {
    let debug = evdev_key_debug_text(code);
    if KEY_MACRO1 <= code <= KEY_MACRO30 {
        macro_prefix() + decimal((code - 0x28f) as nat)
    } else if starts_with(debug, unknown_key_prefix()) {
        decimal(code as nat)
    } else {
        debug
    }
}

/// A text that starts and ends with characters other than white space is
/// its own trimmed form.
pub proof fn lemma_trimmed_unchanged(s: Seq<char>)
    requires
        s.len() > 0,
        !is_white_space(s[0]),
        !is_white_space(s.last()),
    ensures
        trimmed(s) == s,
{
    let ws = |c: char| is_white_space(c);
    lemma_leading_run_is(s, ws, 0);
    assert(s.skip(0) =~= s);
    lemma_trailing_run_is(s, ws, 0);
    assert(s.take(s.len() as int) =~= s);
}

/// An evdev-shaped key name reads back as itself: it is already trimmed,
/// upper case and canonical, and it is no number.
pub proof fn lemma_identifier_is_canonical(s: Seq<char>)
    requires
        is_key_identifier(s),
    ensures
        trimmed(s) == s,
        parsed_u16(s) is None,
        canonical_key_name(s) == s,
{
    assert(s.take(4) == key_prefix() || s.take(4) == button_prefix());
    assert(s[0] == s.take(4)[0]);
    assert(is_identifier_char(s.last()));
    lemma_trimmed_unchanged(s);
    assert(!is_digit(s[0]));
    assert(ascii_uppercase(s) =~= s);
}

/// `KEY_MACRO<n>` has the shape of an evdev key name.
pub proof fn lemma_macro_name_is_identifier(n: nat)
    ensures
        is_key_identifier(macro_prefix() + decimal(n)),
        (macro_prefix() + decimal(n)).skip(9) == decimal(n),
{
    let s = macro_prefix() + decimal(n);
    lemma_decimal(n);
    assert(s.take(4) =~= key_prefix());
    assert forall|i: int| 0 <= i < s.len() implies is_identifier_char(#[trigger] s[i]) by {
        if i >= 9 {
            assert(s[i] == decimal(n)[i - 9]);
            assert(is_digit(decimal(n)[i - 9]));
        }
    }
    assert(s.skip(9) =~= decimal(n));
}

/// The name written to configuration for a key.
///
/// Whatever name is written, `parse_key_code` reads it back as the same key.
pub fn config_key_name(code: u16) -> (name: String)
    ensures
        name@ == config_key_name_text(code),
        key_code_for_input(name@) == Some(code),
{
    if KEY_MACRO1 <= code && code <= KEY_MACRO30 {
        let mut chars = vec!['K', 'E', 'Y', '_', 'M', 'A', 'C', 'R', 'O'];
        assert(chars@ == macro_prefix());
        push_decimal(&mut chars, (code - 0x28f) as u32);
        proof {
            let n = (code - 0x28f) as nat;
            lemma_macro_name_is_identifier(n);
            lemma_identifier_is_canonical(chars@);
            lemma_decimal(n);
            assert(chars@.take(9) =~= macro_prefix());
            assert(kernel_macro_code(chars@) == Some(code));
        }
        return string_from_chars(&chars);
    }
    let debug = evdev_debug_name(code);
    let debug_chars = chars_of(debug.as_str());
    let unknown = vec!['u', 'n', 'k', 'n', 'o', 'w', 'n', ' ', 'k', 'e', 'y', ':'];
    assert(unknown@ == unknown_key_prefix());
    if has_prefix(&debug_chars, &unknown) {
        let mut digits: Vec<char> = Vec::new();
        push_decimal(&mut digits, code as u32);
        proof {
            lemma_decimal(code as nat);
            assert(digits@ =~= decimal(code as nat));
            assert(is_digit(digits@[0]));
            assert(is_digit(digits@.last()));
            lemma_trimmed_unchanged(digits@);
        }
        string_from_chars(&digits)
    } else {
        proof {
            if debug@ == unknown_key_text(code) {
                assert(debug@.take(12) =~= unknown_key_prefix());
            }
            lemma_identifier_is_canonical(debug@);
        }
        debug
    }
}

} // verus!
