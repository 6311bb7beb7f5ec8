//! Stable graph identities for WinMM MIDI devices.
//!
//! WinMM numbers inputs and outputs separately and may renumber them when a
//! device is plugged in, so a device's graph ids come from its Plug and Play
//! interface name (or, without one, a description of the device) rather than
//! from its index. The device kind is folded into both the hash and the upper
//! local bits, so an input and an output never share an id.

use vstd::prelude::*;
use vstd::string::StringSliceAdditionalSpecFns;
use vstd::utf8::encode_utf8;
use crate::ids::{encode_backend_id, spec_backend_for, spec_encode, BackendKind, BackendNamespace, NodeId, PortId};
use crate::text::{
    append_chars, append_str, chars_of, chars_eq, decimal_chars, hex_chars, spec_decimal_chars,
    spec_hex_chars, string_from_chars, trim, trim_chars,
};
use crate::windows_audio::{fnv_extend_with, fnv_fold_with, FNV_OFFSET_BASIS};

verus! {

/// Local-id tag of an input device's node.
pub const INPUT_TAG: u64 = 0x0010_0000_0000_0000;

/// Local-id tag of an output device's node.
pub const OUTPUT_TAG: u64 = 0x0020_0000_0000_0000;

/// Local-id tag of a device's port.
pub const PORT_TAG: u64 = 0x0040_0000_0000_0000;

/// The low 52 bits that hold the identity hash.
pub const IDENTITY_HASH_MASK: u64 = 0x000F_FFFF_FFFF_FFFF;

/// The graph id of a WinMM object.
pub fn graph_id(local: u64) -> (id: u64)
    ensures
        id == spec_encode(BackendNamespace::WindowsMidi, local),
{
    encode_backend_id(BackendNamespace::WindowsMidi, local)
}

#[derive(Clone, Copy, Debug, PartialEq, Eq, Structural)]
pub enum DeviceKind {
    Input,
    Output,
}

pub open spec fn spec_kind_name(kind: DeviceKind) -> Seq<char> {
    match kind {
        DeviceKind::Input => "input"@,
        DeviceKind::Output => "output"@,
    }
}

pub open spec fn spec_kind_tag(kind: DeviceKind) -> u64 {
    match kind {
        DeviceKind::Input => INPUT_TAG,
        DeviceKind::Output => OUTPUT_TAG,
    }
}

impl DeviceKind {
    pub fn as_str(self) -> (name: &'static str)
        ensures
            name@ == spec_kind_name(self),
    {
        match self {
            DeviceKind::Input => "input",
            DeviceKind::Output => "output",
        }
    }
}

/// The FNV-1a prime.
pub const MIDI_FNV_PRIME: u64 = 0x0000_0100_0000_01b3;

/// The 52-bit identity hash: FNV-1a over the UTF-8 of
/// `winmm-midi:{kind}:{identity}`, never zero.
pub open spec fn spec_identity_hash(kind: DeviceKind, identity: Seq<char>) -> u64 {
    let hash = fnv_fold_with(
        MIDI_FNV_PRIME,
        FNV_OFFSET_BASIS,
        encode_utf8("winmm-midi:"@ + spec_kind_name(kind) + ":"@ + identity),
    );
    if hash & IDENTITY_HASH_MASK == 0 {
        1
    } else {
        hash & IDENTITY_HASH_MASK
    }
}

pub fn stable_identity_hash(kind: DeviceKind, identity: &str) -> (hash: u64)
    ensures
        hash == spec_identity_hash(kind, identity@),
        1 <= hash <= IDENTITY_HASH_MASK,
{
    let mut text: Vec<char> = Vec::new();
    append_str(&mut text, "winmm-midi:");
    append_str(&mut text, kind.as_str());
    append_str(&mut text, ":");
    append_str(&mut text, identity);
    let joined = string_from_chars(text.as_slice());
    let bytes = joined.as_str().as_bytes();
    let full = fnv_extend_with(MIDI_FNV_PRIME, FNV_OFFSET_BASIS, bytes);
    let hash = full & IDENTITY_HASH_MASK;
    assert(full & 0x000F_FFFF_FFFF_FFFFu64 <= 0x000F_FFFF_FFFF_FFFFu64) by (bit_vector);
    if hash == 0 {
        1
    } else {
        hash
    }
}

/// A WinMM device as the graph sees it.
#[derive(Clone, Debug)]
pub struct MidiDevice {
    /// WinMM device index, which is what every `midi*` call takes.
    pub index: u32,
    pub kind: DeviceKind,
    pub name: String,
    pub node_id: NodeId,
    pub port_id: PortId,
}

/// The node id of a device with this identity.
pub open spec fn spec_device_node_id(kind: DeviceKind, identity: Seq<char>) -> int {
    spec_encode(
        BackendNamespace::WindowsMidi,
        (spec_kind_tag(kind) + spec_identity_hash(kind, identity)) as u64,
    )
}

/// The port id of a device with this identity.
pub open spec fn spec_device_port_id(kind: DeviceKind, identity: Seq<char>) -> int {
    spec_encode(BackendNamespace::WindowsMidi, (PORT_TAG + spec_identity_hash(kind, identity)) as u64)
}

/// The graph record of a device, its ids derived from its stable identity
/// rather than its index.
pub fn device_from_identity(index: u32, kind: DeviceKind, name: String, identity: &str) -> (device: MidiDevice)
    ensures
        device.index == index,
        device.kind == kind,
        device.name == name,
        device.node_id.0 == spec_device_node_id(kind, identity@),
        device.port_id.0 == spec_device_port_id(kind, identity@),
{
    let tag = match kind {
        DeviceKind::Input => INPUT_TAG,
        DeviceKind::Output => OUTPUT_TAG,
    };
    let hash = stable_identity_hash(kind, identity);
    assert(tag == 0x0010_0000_0000_0000u64 || tag == 0x0020_0000_0000_0000u64);
    assert(hash <= 0x000F_FFFF_FFFF_FFFFu64 && (tag == 0x0010_0000_0000_0000u64 || tag
        == 0x0020_0000_0000_0000u64) ==> tag | hash == tag + hash) by (bit_vector);
    assert(hash <= 0x000F_FFFF_FFFF_FFFFu64 ==> 0x0040_0000_0000_0000u64 | hash
        == 0x0040_0000_0000_0000u64 + hash) by (bit_vector);
    let local = tag | hash;
    MidiDevice {
        index,
        kind,
        name,
        node_id: NodeId(graph_id(local)),
        port_id: PortId(graph_id(PORT_TAG | hash)),
    }
}

/// The identity of a device without a Plug and Play interface name:
/// `fallback:{kind}:{manufacturer:04x}:{product:04x}:{driver_version:08x}:{name}`
/// with the name trimmed.
pub open spec fn spec_fallback_identity(
    kind: DeviceKind,
    name: Seq<char>,
    manufacturer: u16,
    product: u16,
    driver_version: u32,
) -> Seq<char> {
    "fallback:"@ + spec_kind_name(kind) + ":"@ + spec_hex_chars(manufacturer as nat, 4) + ":"@
        + spec_hex_chars(product as nat, 4) + ":"@ + spec_hex_chars(driver_version as nat, 8)
        + ":"@ + trim(name)
}

pub fn fallback_identity(
    kind: DeviceKind,
    name: &str,
    manufacturer: u16,
    product: u16,
    driver_version: u32,
) -> (identity: String)
    ensures
        identity@ == spec_fallback_identity(kind, name@, manufacturer, product, driver_version),
{
    let mut text: Vec<char> = Vec::new();
    append_str(&mut text, "fallback:");
    append_str(&mut text, kind.as_str());
    append_str(&mut text, ":");
    let digits = hex_chars(manufacturer as u64, 4);
    append_chars(&mut text, digits.as_slice());
    append_str(&mut text, ":");
    let digits = hex_chars(product as u64, 4);
    append_chars(&mut text, digits.as_slice());
    append_str(&mut text, ":");
    let digits = hex_chars(driver_version as u64, 8);
    append_chars(&mut text, digits.as_slice());
    append_str(&mut text, ":");
    let chars = chars_of(name);
    let trimmed = trim_chars(chars.as_slice());
    append_chars(&mut text, trimmed.as_slice());
    string_from_chars(text.as_slice())
}

/// A device described only by its capabilities, identified by its fallback
/// identity with no vendor data.
pub fn device_from_caps(index: u32, kind: DeviceKind, name: String) -> (device: MidiDevice)
    ensures
        device.index == index,
        device.kind == kind,
        device.name@ == name@,
        device.node_id.0 == spec_device_node_id(kind, spec_fallback_identity(kind, name@, 0, 0, 0)),
        device.port_id.0 == spec_device_port_id(kind, spec_fallback_identity(kind, name@, 0, 0, 0)),
{
    let identity = fallback_identity(kind, name.as_str(), 0, 0, 0);
    device_from_identity(index, kind, name, identity.as_str())
}

/// A device's node and port ids are distinct, lie in the WinMM namespace,
/// and an input's node never shares an id with an output's node.
pub proof fn lemma_device_ids_are_distinct_and_namespaced(
    kind: DeviceKind,
    identity: Seq<char>,
    other_identity: Seq<char>,
)
    ensures
        spec_device_node_id(kind, identity) != spec_device_port_id(kind, identity),
        spec_backend_for(spec_device_node_id(kind, identity) as u64) == Some(BackendKind::WindowsMidi),
        spec_backend_for(spec_device_port_id(kind, identity) as u64) == Some(BackendKind::WindowsMidi),
        spec_device_node_id(DeviceKind::Input, identity) != spec_device_node_id(
            DeviceKind::Output,
            other_identity,
        ),
{
    let h = spec_identity_hash(kind, identity);
    let hi = spec_identity_hash(DeviceKind::Input, identity);
    let ho = spec_identity_hash(DeviceKind::Output, other_identity);
    assert(h <= IDENTITY_HASH_MASK && hi <= IDENTITY_HASH_MASK && ho <= IDENTITY_HASH_MASK) by {
        assert(forall|x: u64| #[trigger] (x & 0x000F_FFFF_FFFF_FFFFu64) <= 0x000F_FFFF_FFFF_FFFFu64) by (bit_vector);
    }
    let node_local = (spec_kind_tag(kind) + h) as u64;
    let port_local = (PORT_TAG + h) as u64;
    crate::ids::lemma_encoded_id_names_its_backend(BackendNamespace::WindowsMidi, node_local);
    crate::ids::lemma_encoded_id_names_its_backend(BackendNamespace::WindowsMidi, port_local);
    crate::ids::lemma_encoded_id_names_its_backend(
        BackendNamespace::WindowsMidi,
        (INPUT_TAG + hi) as u64,
    );
    crate::ids::lemma_encoded_id_names_its_backend(
        BackendNamespace::WindowsMidi,
        (OUTPUT_TAG + ho) as u64,
    );
}

/// How often each (kind, base identity) pair has been seen, so that two
/// identical devices of one kind still get distinct identities.
pub struct IdentityOccurrences {
    keys: Vec<(DeviceKind, String)>,
    counts: Vec<u32>,
}

pub open spec fn keys_view(keys: Seq<(DeviceKind, String)>) -> Seq<(DeviceKind, Seq<char>)> {
    keys.map_values(|k: (DeviceKind, String)| (k.0, k.1@))
}

impl IdentityOccurrences {
    #[verifier::type_invariant]
    closed spec fn well_formed(&self) -> bool {
        &&& self.keys@.len() == self.counts@.len()
        &&& forall|i: int, j: int|
            0 <= i < j < self.keys@.len() ==> keys_view(self.keys@)[i] != keys_view(self.keys@)[j]
    }

    /// How many devices of `kind` with this base identity have been named.
    pub closed spec fn occurrences(&self, kind: DeviceKind, base: Seq<char>) -> nat {
        table_occurrences(keys_view(self.keys@), self.counts@, kind, base)
    }

    pub fn new() -> (table: Self)
        ensures
            forall|kind: DeviceKind, base: Seq<char>| table.occurrences(kind, base) == 0,
    {
        IdentityOccurrences { keys: Vec::new(), counts: Vec::new() }
    }

    /// Where the pair sits in the table, if it has been seen.
    fn find(&self, kind: DeviceKind, base: &[char]) -> (found: Option<usize>)
        ensures
            match found {
                Some(i) => i < self.keys@.len() && keys_view(self.keys@)[i as int] == (kind, base@),
                None => forall|i: int|
                    0 <= i < self.keys@.len() ==> keys_view(self.keys@)[i] != (kind, base@),
            },
    {
        let mut i: usize = 0;
        while i < self.keys.len()
            invariant
                i <= self.keys@.len(),
                forall|j: int| 0 <= j < i ==> keys_view(self.keys@)[j] != (kind, base@),
            decreases self.keys@.len() - i,
        {
            let entry = &self.keys[i];
            let entry_chars = chars_of(entry.1.as_str());
            if entry.0 == kind && chars_eq(entry_chars.as_slice(), base) {
                return Some(i);
            }
            i = i + 1;
        }
        None
    }
}

/// The count a table with these keys and counts holds for a pair.
pub open spec fn table_occurrences(
    keys: Seq<(DeviceKind, Seq<char>)>,
    counts: Seq<u32>,
    kind: DeviceKind,
    base: Seq<char>,
) -> nat {
    if exists|i: int| 0 <= i < keys.len() && keys[i] == (kind, base) {
        counts[choose|i: int| 0 <= i < keys.len() && keys[i] == (kind, base)] as nat
    } else {
        0
    }
}

proof fn lemma_table_occurrences_at(keys: Seq<(DeviceKind, Seq<char>)>, counts: Seq<u32>, i: int)
    requires
        0 <= i < keys.len(),
        forall|a: int, b: int| 0 <= a < b < keys.len() ==> keys[a] != keys[b],
    ensures
        table_occurrences(keys, counts, keys[i].0, keys[i].1) == counts[i] as nat,
{
    let key = keys[i];
    assert(0 <= i < keys.len() && keys[i] == (key.0, key.1));
    let j = choose|j: int| 0 <= j < keys.len() && keys[j] == (key.0, key.1);
    if j != i {
        if j < i {
            assert(keys[j] != keys[i]);
        } else {
            assert(keys[i] != keys[j]);
        }
    }
}

/// The identity given to a device: the base identity the first time a
/// (kind, base) pair is seen, then `base#2`, `base#3`, and so on.
pub open spec fn spec_unique_identity(base: Seq<char>, occurrence: nat) -> Seq<char> {
    if occurrence == 0 {
        base
    } else {
        base + "#"@ + spec_decimal_chars(occurrence + 1)
    }
}

/// Name one device, counting it against its (kind, base identity) pair.
/// Occurrences are counted per direction: an input and an output with the
/// same interface name are both named plainly.
pub fn unique_identity(kind: DeviceKind, base: String, identities: &mut IdentityOccurrences) -> (identity: String)
    requires
        old(identities).occurrences(kind, base@) < u32::MAX,
    ensures
        identity@ == spec_unique_identity(base@, old(identities).occurrences(kind, base@)),
        final(identities).occurrences(kind, base@) == old(identities).occurrences(kind, base@) + 1,
        forall|k: DeviceKind, b: Seq<char>|
            (k, b) != (kind, base@) ==> #[trigger] final(identities).occurrences(k, b)
                == old(identities).occurrences(k, b),
{
    proof {
        use_type_invariant(&*identities);
    }
    let base_chars = chars_of(base.as_str());
    let found = identities.find(kind, base_chars.as_slice());
    let occurrence: u32 = match found {
        Some(i) => {
            proof {
                lemma_table_occurrences_at(keys_view(identities.keys@), identities.counts@, i as int);
            }
            identities.counts[i]
        },
        None => 0,
    };
    let identity = if occurrence == 0 {
        base_chars.clone()
    } else {
        let mut text = base_chars.clone();
        text.push('#');
        let digits = decimal_chars(occurrence as u64 + 1);
        append_chars(&mut text, digits.as_slice());
        proof {
            reveal_strlit("#");
            assert(text@ =~= base@ + "#"@ + spec_decimal_chars((occurrence + 1) as nat));
        }
        text
    };
    let mut table = IdentityOccurrences::new();
    std::mem::swap(&mut table, identities);
    proof {
        use_type_invariant(&table);
    }
    let ghost old_keys = keys_view(table.keys@);
    let ghost old_counts = table.counts@;
    let IdentityOccurrences { mut keys, mut counts } = table;
    match found {
        Some(i) => {
            counts.set(i, occurrence + 1);
        },
        None => {
            let key = base.clone();
            keys.push((kind, key));
            counts.push(1);
            proof {
                assert(keys_view(keys@) =~= old_keys.push((kind, base@)));
            }
        },
    }
    *identities = IdentityOccurrences { keys, counts };
    proof {
        use_type_invariant(&*identities);
        let new_keys = keys_view(identities.keys@);
        let new_counts = identities.counts@;
        let at: int = match found {
            Some(i) => i as int,
            None => old_keys.len() as int,
        };
        assert(new_keys[at] == (kind, base@));
        lemma_table_occurrences_at(new_keys, new_counts, at);
        assert forall|k: DeviceKind, b: Seq<char>|
            (k, b) != (kind, base@) implies #[trigger] identities.occurrences(k, b)
                == table_occurrences(old_keys, old_counts, k, b) by {
            if exists|j: int| 0 <= j < new_keys.len() && new_keys[j] == (k, b) {
                let j = choose|j: int| 0 <= j < new_keys.len() && new_keys[j] == (k, b);
                lemma_table_occurrences_at(new_keys, new_counts, j);
                assert(j < old_keys.len());
                assert(old_keys[j] == (k, b));
                lemma_table_occurrences_at(old_keys, old_counts, j);
            } else {
                assert forall|j: int| 0 <= j < old_keys.len() implies old_keys[j] != (k, b) by {
                    assert(new_keys[j] == old_keys[j]);
                }
            }
        }
    }
    string_from_chars(identity.as_slice())
}

/// The text `String::from_utf16_lossy` decodes from these UTF-16 code
/// units: a lead surrogate followed by a trail surrogate is one character
/// beyond the basic plane, any other surrogate is U+FFFD, and every other
/// unit is the character of that value.
pub open spec fn utf16_lossy(units: Seq<u16>) -> Seq<char>
    decreases units.len(),
{
    if units.len() == 0 {
        Seq::empty()
    } else {
        let u = units[0];
        if 0xD800 <= u <= 0xDBFF && units.len() >= 2 && 0xDC00 <= units[1] <= 0xDFFF {
            let c = 0x10000 + (u - 0xD800) * 0x400 + (units[1] - 0xDC00);
            seq![c as char] + utf16_lossy(units.subrange(2, units.len() as int))
        } else if 0xD800 <= u <= 0xDFFF {
            seq!['\u{FFFD}'] + utf16_lossy(units.drop_first())
        } else {
            seq![u as char] + utf16_lossy(units.drop_first())
        }
    }
}

/// Decode UTF-16, replacing invalid code units.
///
/// Trusted: calls `String::from_utf16_lossy`, which std documents as
/// decoding UTF-16 and putting U+FFFD for each unpaired surrogate.
#[verifier::external_body]
fn string_from_utf16_lossy(units: &[u16]) -> (text: String)
    ensures
        text@ == utf16_lossy(units@),
{
    String::from_utf16_lossy(units)
}

/// How many code units come before the first NUL (all of them if none).
pub open spec fn spec_nul_end(raw: Seq<u16>) -> nat
    decreases raw.len(),
{
    if raw.len() == 0 || raw[0] == 0 {
        0
    } else {
        1 + spec_nul_end(raw.drop_first())
    }
}

/// A WinMM device name: a fixed-size, NUL-padded UTF-16 array, read up to
/// the first NUL.
pub fn wide_name(raw: &[u16]) -> (name: String)
    ensures
        spec_nul_end(raw@) <= raw@.len(),
        name@ == utf16_lossy(raw@.subrange(0, spec_nul_end(raw@) as int)),
{
    let mut end: usize = 0;
    assert(raw@.subrange(0, raw@.len() as int) =~= raw@);
    proof {
        lemma_nul_end_bound(raw@);
    }
    while end < raw.len() && raw[end] != 0
        invariant
            end <= raw@.len(),
            spec_nul_end(raw@) == end + spec_nul_end(raw@.subrange(end as int, raw@.len() as int)),
            spec_nul_end(raw@.subrange(end as int, raw@.len() as int)) <= raw@.len() - end,
        decreases raw@.len() - end,
    {
        let ghost rest = raw@.subrange(end as int, raw@.len() as int);
        assert(rest.drop_first() =~= raw@.subrange(end + 1, raw@.len() as int));
        proof {
            lemma_nul_end_bound(rest.drop_first());
        }
        end = end + 1;
    }
    let units = &raw[0..end];
    assert(units@ =~= raw@.subrange(0, end as int));
    string_from_utf16_lossy(units)
}

proof fn lemma_nul_end_bound(raw: Seq<u16>)
    ensures
        spec_nul_end(raw) <= raw.len(),
    decreases raw.len(),
{
    if raw.len() > 0 && raw[0] != 0 {
        lemma_nul_end_bound(raw.drop_first());
    }
}

/// A failed WinMM call, with its `MMSYSERR` status.
pub fn mm_error(operation: &str, status: u32) -> (failure: crate::backend::BackendError)
    ensures
        failure matches crate::backend::BackendError::Native(m) && m@ == "Windows MIDI "@ + operation@
            + " failed (mmsyserr "@ + crate::text::spec_decimal_chars(status as nat) + ")"@,
{
    let mut t: Vec<char> = Vec::new();
    append_str(&mut t, "Windows MIDI ");
    append_str(&mut t, operation);
    append_str(&mut t, " failed (mmsyserr ");
    let digits = decimal_chars(status as u64);
    append_chars(&mut t, digits.as_slice());
    append_str(&mut t, ")");
    crate::backend::BackendError::Native(string_from_chars(t.as_slice()))
}

} // verus!
