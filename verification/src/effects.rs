//! The audio contract between the host and an effect, and the export table a
//! WASM effect module must provide.

use vstd::prelude::*;
use crate::text::{chars_eq, chars_eq_str, chars_of, trim, trim_chars};

verus! {

#[derive(Clone, Copy, Debug, PartialEq, Eq, Structural)]
pub struct AudioSpec {
    pub sample_rate: u32,
    pub channels: u16,
    pub max_frames: u32,
}

/// Why an effect refused a request.
#[derive(Debug)]
pub enum EffectError {
    InvalidAudioSpec { sample_rate: u32, channels: u16, max_frames: u32 },
    NotPrepared,
    InvalidBufferLength { actual: usize, expected: usize },
    FrameLimitExceeded { frames: u32, max_frames: u32 },
    UnsupportedParameter(String),
    UnknownEffect(String),
    /// A parameter value that is not a finite number; the value is held as
    /// its IEEE-754 bit pattern.
    InvalidParameter { id: String, value_bits: u32 },
    MissingWasmExport(String),
    InvalidWasmManifest(String),
}

impl AudioSpec {
    /// A usable specification has a sample rate, at least one channel and
    /// room for at least one frame.
    pub fn validate(&self) -> (result: Result<(), EffectError>)
        ensures
            match result {
                Ok(()) => self.sample_rate != 0 && self.channels != 0 && self.max_frames != 0,
                Err(error) => (self.sample_rate == 0 || self.channels == 0 || self.max_frames == 0)
                    && error == (EffectError::InvalidAudioSpec {
                    sample_rate: self.sample_rate,
                    channels: self.channels,
                    max_frames: self.max_frames,
                }),
            },
    {
        if self.sample_rate == 0 || self.channels == 0 || self.max_frames == 0 {
            return Err(
                EffectError::InvalidAudioSpec {
                    sample_rate: self.sample_rate,
                    channels: self.channels,
                    max_frames: self.max_frames,
                },
            );
        }
        Ok(())
    }
}

/// The id of the built-in noise gate.
pub const NOISE_GATE_ID: &'static str = "builtin.noise-gate";

/// The display name of a built-in effect, by id: the host registers the
/// noise gate, named "Noise Gate", and nothing else.
pub fn builtin_effect_name(effect_id: &str) -> (name: Option<&'static str>)
    ensures
        match name {
            Some(n) => effect_id@ == NOISE_GATE_ID@ && n@ == "Noise Gate"@,
            None => effect_id@ != NOISE_GATE_ID@,
        },
{
    let chars = chars_of(effect_id);
    if chars_eq_str(chars.as_slice(), NOISE_GATE_ID) {
        let name = "Noise Gate";
        proof {
            reveal_strlit("Noise Gate");
        }
        Some(name)
    } else {
        None
    }
}

/// The persisted identity of one effect instance: which effect it runs,
/// from where, and whether it is enabled. Its parameter values are numbers
/// the audio side keeps.
#[derive(Debug)]
pub struct EffectInstanceConfig {
    pub instance_id: String,
    pub effect_id: String,
    pub module_file: Option<String>,
    pub enabled: bool,
}

impl Clone for EffectInstanceConfig {
    fn clone(&self) -> (copy: Self)
        ensures
            copy == *self,
    {
        let module_file = match &self.module_file {
            Some(path) => Some(path.clone()),
            None => None,
        };
        EffectInstanceConfig {
            instance_id: self.instance_id.clone(),
            effect_id: self.effect_id.clone(),
            module_file,
            enabled: self.enabled,
        }
    }
}

pub const ABI_VERSION: u32 = 1;

pub const EXPORT_METADATA: &'static str = "effect_metadata";

pub const EXPORT_INIT: &'static str = "effect_init";

pub const EXPORT_PROCESS: &'static str = "effect_process";

pub const EXPORT_SET_PARAMETER: &'static str = "effect_set_parameter";

pub const EXPORT_RESET: &'static str = "effect_reset";

/// The exports every effect module must provide, in ascending order.
pub open spec fn spec_required_exports() -> Seq<Seq<char>> {
    seq![EXPORT_INIT@, EXPORT_METADATA@, EXPORT_PROCESS@, EXPORT_RESET@, EXPORT_SET_PARAMETER@]
}

/// The names exported by a module that every host must require, each once,
/// in ascending order.
pub fn required_exports() -> (exports: Vec<&'static str>)
    ensures
        exports@.map_values(|e: &'static str| e@) == spec_required_exports(),
{
    let exports = vec![EXPORT_INIT, EXPORT_METADATA, EXPORT_PROCESS, EXPORT_RESET, EXPORT_SET_PARAMETER];
    assert(exports@.map_values(|e: &'static str| e@) =~= spec_required_exports());
    exports
}

/// The names exported by a module that every host must require.
pub fn required_wasm_exports() -> (exports: Vec<&'static str>)
    ensures
        exports@.map_values(|e: &'static str| e@) == spec_required_exports(),
{
    required_exports()
}

/// The first name of `required` that `exports` lacks.
pub open spec fn spec_first_missing(required: Seq<Seq<char>>, exports: Seq<Seq<char>>) -> Option<Seq<char>>
    decreases required.len(),
{
    if required.len() == 0 {
        None
    } else if exports.contains(required[0]) {
        spec_first_missing(required.drop_first(), exports)
    } else {
        Some(required[0])
    }
}

/// Whether `name` is among `exports`.
fn has_export(exports: &[&str], name: &[char]) -> (found: bool)
    ensures
        found == exports@.map_values(|e: &str| e@).contains(name@),
{
    let ghost names = exports@.map_values(|e: &str| e@);
    let mut i: usize = 0;
    while i < exports.len()
        invariant
            names == exports@.map_values(|e: &str| e@),
            i <= exports@.len(),
            forall|j: int| 0 <= j < i ==> names[j] != name@,
        decreases exports@.len() - i,
    {
        let chars = chars_of(exports[i]);
        if chars_eq(chars.as_slice(), name) {
            assert(names[i as int] == name@);
            return true;
        }
        i = i + 1;
    }
    false
}

/// Check a module's exports: the first required name it lacks, in ascending
/// order, is reported.
pub fn validate_exports(exports: &[&str]) -> (result: Result<(), EffectError>)
    ensures
        match spec_first_missing(spec_required_exports(), exports@.map_values(|e: &str| e@)) {
            None => result is Ok,
            Some(name) => result matches Err(EffectError::MissingWasmExport(n)) && n@ == name,
        },
{
    let required = required_exports();
    let ghost names = exports@.map_values(|e: &str| e@);
    let ghost all = spec_required_exports();
    let mut i: usize = 0;
    assert(all.subrange(0, all.len() as int) =~= all);
    while i < required.len()
        invariant
            required@.map_values(|e: &'static str| e@) == all,
            all == spec_required_exports(),
            names == exports@.map_values(|e: &str| e@),
            i <= required@.len(),
            spec_first_missing(all, names) == spec_first_missing(
                all.subrange(i as int, all.len() as int),
                names,
            ),
        decreases required@.len() - i,
    {
        let name = chars_of(required[i]);
        let ghost rest = all.subrange(i as int, all.len() as int);
        assert(rest[0] == all[i as int]);
        assert(rest.drop_first() =~= all.subrange(i + 1, all.len() as int));
        if !has_export(exports, name.as_slice()) {
            return Err(EffectError::MissingWasmExport(required[i].to_owned()));
        }
        i = i + 1;
    }
    assert(all.subrange(i as int, all.len() as int) =~= Seq::<Seq<char>>::empty());
    Ok(())
}

/// The checks a parsed module manifest must pass: the host's ABI version and
/// a non-blank effect id.
pub fn check_manifest(abi_version: u32, effect_id: &str) -> (result: Result<(), EffectError>)
    ensures
        match result {
            Ok(()) => abi_version == ABI_VERSION && trim(effect_id@).len() > 0,
            Err(error) => error is InvalidWasmManifest && (abi_version != ABI_VERSION || trim(
                effect_id@,
            ).len() == 0),
        },
{
    if abi_version != ABI_VERSION {
        return Err(EffectError::InvalidWasmManifest(unsupported_abi_message(abi_version)));
    }
    let chars = chars_of(effect_id);
    let trimmed = trim_chars(chars.as_slice());
    if trimmed.len() == 0 {
        return Err(EffectError::InvalidWasmManifest("effect id cannot be empty".to_owned()));
    }
    Ok(())
}

/// `unsupported ABI version {version}`.
fn unsupported_abi_message(version: u32) -> (message: String)
    ensures
        message@ == "unsupported ABI version "@ + crate::text::spec_decimal_chars(version as nat),
{
    let mut t: Vec<char> = Vec::new();
    crate::text::append_str(&mut t, "unsupported ABI version ");
    let digits = crate::text::decimal_chars(version as u64);
    crate::text::append_chars(&mut t, digits.as_slice());
    crate::text::string_from_chars(t.as_slice())
}

} // verus!
