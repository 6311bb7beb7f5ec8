//! Numeric identities shared by every backend.
//!
//! Each backend owns a namespace in the top byte of a 64-bit identifier, so a
//! graph that merges several backends can tell at a glance which one owns a
//! node, port or link.

use vstd::prelude::*;

verus! {

#[derive(Clone, Copy, Debug, Default, PartialEq, Eq, Structural, Hash, PartialOrd, Ord)]
pub struct NodeId(pub u64);

#[derive(Clone, Copy, Debug, Default, PartialEq, Eq, Structural, Hash, PartialOrd, Ord)]
pub struct PortId(pub u64);

#[derive(Clone, Copy, Debug, Default, PartialEq, Eq, Structural, Hash, PartialOrd, Ord)]
pub struct LinkId(pub u64);

/// Bits of an identifier that a backend may use for its own local id.
pub const LOCAL_ID_MASK: u64 = 0x00FF_FFFF_FFFF_FFFF;

/// Width of the local part, in bits.
pub const LOCAL_ID_BITS: u64 = 56;

/// Namespaces handed out to backends whose native ids are not already small
/// numbers.
#[derive(Clone, Copy, Debug, PartialEq, Eq, Structural)]
pub enum BackendNamespace {
    AlsaMidi,
    WindowsAudio,
    WindowsMidi,
}

/// The backend that owns an identifier.
#[derive(Clone, Copy, Debug, PartialEq, Eq, Structural)]
pub enum BackendKind {
    PipeWire,
    AlsaMidi,
    WindowsAudio,
    WindowsMidi,
}

/// Tag stored in the top byte for each namespace.
pub open spec fn spec_namespace_tag(namespace: BackendNamespace) -> u64 {
    match namespace {
        BackendNamespace::AlsaMidi => 1,
        BackendNamespace::WindowsAudio => 2,
        BackendNamespace::WindowsMidi => 3,
    }
}

/// The kind a namespace stands for.
pub open spec fn spec_namespace_kind(namespace: BackendNamespace) -> BackendKind {
    match namespace {
        BackendNamespace::AlsaMidi => BackendKind::AlsaMidi,
        BackendNamespace::WindowsAudio => BackendKind::WindowsAudio,
        BackendNamespace::WindowsMidi => BackendKind::WindowsMidi,
    }
}

/// A namespaced identifier: the tag in the top byte, the low 56 bits of the
/// local id below it.
pub open spec fn spec_encode(namespace: BackendNamespace, local: u64) -> int {
    spec_namespace_tag(namespace) * 0x0100_0000_0000_0000 + (local % 0x0100_0000_0000_0000)
}

/// The backend owning a raw identifier: tag zero is a plain PipeWire global id.
pub open spec fn spec_backend_for(raw: u64) -> Option<BackendKind> {
    let tag = raw / 0x0100_0000_0000_0000;
    if tag == 0 {
        Some(BackendKind::PipeWire)
    } else if tag == 1 {
        Some(BackendKind::AlsaMidi)
    } else if tag == 2 {
        Some(BackendKind::WindowsAudio)
    } else if tag == 3 {
        Some(BackendKind::WindowsMidi)
    } else {
        None
    }
}

pub fn namespace_tag(namespace: BackendNamespace) -> (tag: u64)
    ensures
        tag == spec_namespace_tag(namespace),
{
    match namespace {
        BackendNamespace::AlsaMidi => 1,
        BackendNamespace::WindowsAudio => 2,
        BackendNamespace::WindowsMidi => 3,
    }
}

/// Place a backend-local id inside the backend's namespace.
pub fn encode_backend_id(namespace: BackendNamespace, local: u64) -> (id: u64)
    ensures
        id == spec_encode(namespace, local),
{
    let tag = namespace_tag(namespace);
    let id = (tag << 56u64) | (local & LOCAL_ID_MASK);
    assert(tag <= 3 ==> (tag << 56u64) | (local & 0x00FF_FFFF_FFFF_FFFFu64) == tag
        * 0x0100_0000_0000_0000u64 + (local % 0x0100_0000_0000_0000u64)) by (bit_vector);
    id
}

/// The local part of a raw identifier.
pub fn local_id(raw: u64) -> (local: u64)
    ensures
        local == raw % 0x0100_0000_0000_0000,
{
    let local = raw & LOCAL_ID_MASK;
    assert(raw & 0x00FF_FFFF_FFFF_FFFFu64 == raw % 0x0100_0000_0000_0000u64) by (bit_vector);
    local
}

/// Which backend owns a raw identifier, if any.
pub fn backend_for_id(raw: u64) -> (kind: Option<BackendKind>)
    ensures
        kind == spec_backend_for(raw),
{
    let tag = raw >> 56u64;
    assert(raw >> 56u64 == raw / 0x0100_0000_0000_0000u64) by (bit_vector);
    if tag == 0 {
        Some(BackendKind::PipeWire)
    } else if tag == 1 {
        Some(BackendKind::AlsaMidi)
    } else if tag == 2 {
        Some(BackendKind::WindowsAudio)
    } else if tag == 3 {
        Some(BackendKind::WindowsMidi)
    } else {
        None
    }
}

pub fn backend_for_node(node: NodeId) -> (kind: Option<BackendKind>)
    ensures
        kind == spec_backend_for(node.0),
{
    backend_for_id(node.0)
}

pub fn backend_for_port(port: PortId) -> (kind: Option<BackendKind>)
    ensures
        kind == spec_backend_for(port.0),
{
    backend_for_id(port.0)
}

pub fn backend_for_link(link: LinkId) -> (kind: Option<BackendKind>)
    ensures
        kind == spec_backend_for(link.0),
{
    backend_for_id(link.0)
}

/// An id encoded in a namespace is always recognised as belonging to that
/// namespace's backend, and keeps the low 56 bits of the local id.
pub proof fn lemma_encoded_id_names_its_backend(namespace: BackendNamespace, local: u64)
    ensures
        0 <= spec_encode(namespace, local) <= u64::MAX,
        spec_backend_for(spec_encode(namespace, local) as u64) == Some(
            spec_namespace_kind(namespace),
        ),
        (spec_encode(namespace, local) as u64) % 0x0100_0000_0000_0000 == local
            % 0x0100_0000_0000_0000,
{
    let tag = spec_namespace_tag(namespace);
    let low = local % 0x0100_0000_0000_0000;
    assert(0 <= low < 0x0100_0000_0000_0000);
    let id = tag * 0x0100_0000_0000_0000 + low;
    assert(id / 0x0100_0000_0000_0000 == tag) by (nonlinear_arith)
        requires
            id == tag * 0x0100_0000_0000_0000 + low,
            0 <= low < 0x0100_0000_0000_0000,
            0 <= tag,
    ;
    assert(id % 0x0100_0000_0000_0000 == low) by (nonlinear_arith)
        requires
            id == tag * 0x0100_0000_0000_0000 + low,
            0 <= low < 0x0100_0000_0000_0000,
            0 <= tag,
    ;
}

} // verus!
