//! Checking the options an Android client hands the audio relay.
//!
//! Values arrive from Java as strings and signed 32-bit integers; each is
//! checked before it is narrowed, and an unknown choice is an error rather
//! than a silent default.

use vstd::prelude::*;
use crate::text::{append_chars, append_str, chars_eq_str, normal_form, normalized, string_from_chars};

verus! {

/// The role a client takes in a session.
#[derive(Clone, Copy, Debug, PartialEq, Eq, Structural)]
pub enum Role {
    /// Send captured audio to the host (phone-as-microphone).
    Emit,
    /// Receive host audio for playback (phone-as-speaker).
    Receive,
    /// Carry both directions at once.
    Both,
}

/// How audio is encoded on the wire.
#[derive(Clone, Copy, Debug, PartialEq, Eq, Structural)]
pub enum CodecKind {
    Pcm,
    Opus,
}

/// The link a client prefers to reach the host over.
#[derive(Clone, Copy, Debug, PartialEq, Eq, Structural)]
pub enum TransportPreference {
    /// Pick the best available link.
    Auto,
    Wifi,
}

pub open spec fn spec_parse_role(value: Seq<char>) -> Result<Role, Seq<char>> {
    let v = normal_form(value);
    if v == "emit"@ {
        Ok(Role::Emit)
    } else if v == "receive"@ {
        Ok(Role::Receive)
    } else if v == "both"@ {
        Ok(Role::Both)
    } else {
        Err("unknown client role '"@ + v + "'"@)
    }
}

pub open spec fn spec_parse_codec(value: Seq<char>) -> Result<CodecKind, Seq<char>> {
    let v = normal_form(value);
    if v == "pcm"@ {
        Ok(CodecKind::Pcm)
    } else if v == "opus"@ {
        Ok(CodecKind::Opus)
    } else {
        Err("unknown codec '"@ + v + "'"@)
    }
}

pub open spec fn spec_parse_transport(value: Seq<char>) -> Result<TransportPreference, Seq<char>> {
    let v = normal_form(value);
    if v == "auto"@ {
        Ok(TransportPreference::Auto)
    } else if v == "wifi"@ {
        Ok(TransportPreference::Wifi)
    } else {
        Err("unknown transport '"@ + v + "'"@)
    }
}

/// The view of a parse result, its message as characters.
pub open spec fn result_view<T>(result: Result<T, String>) -> Result<T, Seq<char>> {
    match result {
        Ok(v) => Ok(v),
        Err(message) => Err(message@),
    }
}

/// `{prefix}{value}'`.
fn quoted(prefix: &str, value: &[char]) -> (message: String)
    ensures
        message@ == prefix@ + value@ + "'"@,
{
    let mut t: Vec<char> = Vec::new();
    append_str(&mut t, prefix);
    append_chars(&mut t, value);
    append_str(&mut t, "'");
    string_from_chars(t.as_slice())
}

/// A client role, case-insensitively and ignoring surrounding whitespace.
pub fn parse_role(value: &str) -> (role: Result<Role, String>)
    ensures
        result_view(role) == spec_parse_role(value@),
{
    let v = normalized(value);
    if chars_eq_str(v.as_slice(), "emit") {
        Ok(Role::Emit)
    } else if chars_eq_str(v.as_slice(), "receive") {
        Ok(Role::Receive)
    } else if chars_eq_str(v.as_slice(), "both") {
        Ok(Role::Both)
    } else {
        Err(quoted("unknown client role '", v.as_slice()))
    }
}

/// A codec, case-insensitively and ignoring surrounding whitespace.
pub fn parse_codec(value: &str) -> (codec: Result<CodecKind, String>)
    ensures
        result_view(codec) == spec_parse_codec(value@),
{
    let v = normalized(value);
    if chars_eq_str(v.as_slice(), "pcm") {
        Ok(CodecKind::Pcm)
    } else if chars_eq_str(v.as_slice(), "opus") {
        Ok(CodecKind::Opus)
    } else {
        Err(quoted("unknown codec '", v.as_slice()))
    }
}

/// A transport preference, case-insensitively and ignoring surrounding
/// whitespace.
pub fn parse_transport(value: &str) -> (transport: Result<TransportPreference, String>)
    ensures
        result_view(transport) == spec_parse_transport(value@),
{
    let v = normalized(value);
    if chars_eq_str(v.as_slice(), "auto") {
        Ok(TransportPreference::Auto)
    } else if chars_eq_str(v.as_slice(), "wifi") {
        Ok(TransportPreference::Wifi)
    } else {
        Err(quoted("unknown transport '", v.as_slice()))
    }
}

/// `{name}{suffix}`.
fn named(name: &str, suffix: &str) -> (message: String)
    ensures
        message@ == name@ + suffix@,
{
    let mut t: Vec<char> = Vec::new();
    append_str(&mut t, name);
    append_str(&mut t, suffix);
    string_from_chars(t.as_slice())
}

/// A strictly positive count that must fit in 16 bits.
pub fn positive_u16(name: &str, value: i32) -> (count: Result<u16, String>)
    ensures
        match count {
            Ok(v) => 0 < value <= u16::MAX && v == value,
            Err(message) => (value <= 0 && message@ == name@ + " must be positive"@) || (value
                > u16::MAX && message@ == name@ + " is out of range"@),
        },
{
    if value <= 0 {
        return Err(named(name, " must be positive"));
    }
    if value > 65535 {
        return Err(named(name, " is out of range"));
    }
    Ok(value as u16)
}

/// A strictly positive count.
pub fn positive_u32(name: &str, value: i32) -> (count: Result<u32, String>)
    ensures
        match count {
            Ok(v) => 0 < value && v == value,
            Err(message) => value <= 0 && message@ == name@ + " must be positive"@,
        },
{
    if value <= 0 {
        return Err(named(name, " must be positive"));
    }
    Ok(value as u32)
}

/// A TCP port; zero asks for an ephemeral one.
pub fn port_u16(value: i32) -> (port: Result<u16, String>)
    ensures
        match port {
            Ok(v) => 0 <= value <= u16::MAX && v == value,
            Err(message) => (value < 0 && message@ == "port must not be negative"@) || (value
                > u16::MAX && message@ == "port is out of range"@),
        },
{
    if value < 0 {
        return Err("port must not be negative".to_owned());
    }
    if value > 65535 {
        return Err("port is out of range".to_owned());
    }
    Ok(value as u16)
}


/// How many PCM samples a realtime push or pull may move: `requested`,
/// which must be neither negative nor longer than the array it reads from.
/// A request above `max_samples`, one realtime quantum, is no error but
/// moves nothing (`None`).
pub fn requested_pcm_length(requested: i32, array_length: usize, max_samples: usize) -> (length: Result<
    Option<usize>,
    String,
>)
    ensures
        match length {
            Ok(Some(n)) => 0 <= requested <= array_length && requested <= max_samples && n == requested,
            Ok(None) => 0 <= requested <= array_length && requested > max_samples,
            Err(message) => (requested < 0 && message@ == "PCM length must not be negative"@) || (0
                <= requested && requested > array_length && message@ == "PCM length exceeds the Java array"@),
        },
{
    if requested < 0 {
        return Err("PCM length must not be negative".to_owned());
    }
    let requested = requested as usize;
    if requested > array_length {
        return Err("PCM length exceeds the Java array".to_owned());
    }
    if requested > max_samples {
        return Ok(None);
    }
    Ok(Some(requested))
}

} // verus!
