//! Stable graph identities for Windows Core Audio endpoints and sessions.
//!
//! Windows has no persistent numeric ids for endpoints or sessions, so every
//! graph id here is derived from a stable string: an FNV-1a-style hash of its
//! UTF-8 bytes (the FNV offset basis, with `0x1000_0000_01b3` as the
//! multiplier), cut to the 56 local bits of the Windows audio namespace. The same
//! endpoint keeps its id across a rebuild, which keeps selection and layout.

use vstd::prelude::*;
use vstd::string::StringSliceAdditionalSpecFns;
use crate::graph::{Direction, Graph, GraphError, Link, Node, NodeType, Port, PortType};
use crate::ids::{
    encode_backend_id, spec_backend_for, spec_encode, BackendKind, BackendNamespace, LinkId,
    NodeId, PortId, LOCAL_ID_MASK,
};

verus! {

/// The direction of a Core Audio endpoint's data flow.
#[derive(Clone, Copy, Debug, PartialEq, Eq, Structural)]
pub enum DataFlow {
    /// Playback.
    Render,
    /// Recording.
    Capture,
    /// Either direction (an enumeration filter).
    All,
}

pub const FNV_OFFSET_BASIS: u64 = 0xcbf2_9ce4_8422_2325;

/// The multiplier of the Windows audio identity hash.
pub const FNV_PRIME: u64 = 0x1000_0000_01b3;

/// FNV-1a steps over `bytes` with multiplier `prime`, starting from `hash`.
pub open spec fn fnv_fold_with(prime: u64, hash: u64, bytes: Seq<u8>) -> u64
    decreases bytes.len(),
{
    if bytes.len() == 0 {
        hash
    } else {
        fnv_fold_with(prime, (hash ^ (bytes[0] as u64)).wrapping_mul(prime), bytes.drop_first())
    }
}

/// The Windows audio identity hash over `bytes`, starting from `hash`.
pub open spec fn fnv_fold(hash: u64, bytes: Seq<u8>) -> u64 {
    fnv_fold_with(FNV_PRIME, hash, bytes)
}

/// The low 56 bits of a hash, with zero moved to one so a derived id is
/// never the null id.
pub open spec fn spec_local_part(hash: u64) -> u64 {
    if hash & LOCAL_ID_MASK == 0 {
        1
    } else {
        hash & LOCAL_ID_MASK
    }
}

/// The local id derived from a byte string.
pub open spec fn spec_stable_local_id(bytes: Seq<u8>) -> u64 {
    spec_local_part(fnv_fold(FNV_OFFSET_BASIS, bytes))
}

/// Decimal digits of `n`, as ASCII bytes, most significant first.
pub open spec fn spec_decimal(n: nat) -> Seq<u8>
    decreases n,
{
    if n < 10 {
        seq![(48 + n) as u8]
    } else {
        spec_decimal(n / 10).push((48 + n % 10) as u8)
    }
}

/// Hashing a concatenation is hashing the second part from where the first
/// part left the state.
pub proof fn lemma_fnv_fold_concat(hash: u64, a: Seq<u8>, b: Seq<u8>)
    ensures
        fnv_fold(hash, a + b) == fnv_fold(fnv_fold(hash, a), b),
{
    lemma_fnv_fold_with_concat(FNV_PRIME, hash, a, b);
}

/// The same for any multiplier.
pub proof fn lemma_fnv_fold_with_concat(prime: u64, hash: u64, a: Seq<u8>, b: Seq<u8>)
    ensures
        fnv_fold_with(prime, hash, a + b) == fnv_fold_with(prime, fnv_fold_with(prime, hash, a), b),
    decreases a.len(),
{
    if a.len() == 0 {
        assert(a + b =~= b);
    } else {
        let next = (hash ^ (a[0] as u64)).wrapping_mul(prime);
        assert((a + b).drop_first() =~= a.drop_first() + b);
        lemma_fnv_fold_with_concat(prime, next, a.drop_first(), b);
    }
}

/// Continue the Windows audio identity hash over `bytes`.
fn fnv_extend(hash: u64, bytes: &[u8]) -> (out: u64)
    ensures
        out == fnv_fold(hash, bytes@),
{
    fnv_extend_with(FNV_PRIME, hash, bytes)
}

/// Continue an FNV-1a-style hash with multiplier `prime` over `bytes`.
pub(crate) fn fnv_extend_with(prime: u64, hash: u64, bytes: &[u8]) -> (out: u64)
    ensures
        out == fnv_fold_with(prime, hash, bytes@),
{
    let mut h = hash;
    let mut i: usize = 0;
    assert(bytes@.subrange(0, bytes@.len() as int) =~= bytes@);
    while i < bytes.len()
        invariant
            i <= bytes@.len(),
            fnv_fold_with(prime, hash, bytes@) == fnv_fold_with(
                prime,
                h,
                bytes@.subrange(i as int, bytes@.len() as int),
            ),
        decreases bytes@.len() - i,
    {
        let ghost rest = bytes@.subrange(i as int, bytes@.len() as int);
        assert(rest.drop_first() =~= bytes@.subrange(i + 1, bytes@.len() as int));
        assert(rest[0] == bytes@[i as int]);
        h = (h ^ (bytes[i] as u64)).wrapping_mul(prime);
        i = i + 1;
    }
    assert(bytes@.subrange(i as int, bytes@.len() as int) =~= Seq::<u8>::empty());
    h
}

fn local_part(hash: u64) -> (local: u64)
    ensures
        local == spec_local_part(hash),
        1 <= local <= LOCAL_ID_MASK,
{
    let local = hash & LOCAL_ID_MASK;
    assert(hash & 0x00FF_FFFF_FFFF_FFFFu64 <= 0x00FF_FFFF_FFFF_FFFFu64) by (bit_vector);
    if local == 0 {
        1
    } else {
        local
    }
}

/// The decimal digits of `n` as ASCII bytes.
fn decimal_bytes(n: u64) -> (digits: Vec<u8>)
    ensures
        digits@ == spec_decimal(n as nat),
    decreases n,
{
    if n < 10 {
        let digit: u8 = (48 + n) as u8;
        vec![digit]
    } else {
        let mut digits = decimal_bytes(n / 10);
        let digit: u8 = (48 + n % 10) as u8;
        digits.push(digit);
        digits
    }
}

/// The graph id of a Windows audio object.
pub fn graph_id(local_id: u64) -> (id: u64)
    ensures
        id == spec_encode(BackendNamespace::WindowsAudio, local_id),
{
    encode_backend_id(BackendNamespace::WindowsAudio, local_id)
}

/// An endpoint renders into (is a sink for) playback, and is a source of
/// recorded audio.
pub fn endpoint_direction(flow: DataFlow) -> (direction: Direction)
    ensures
        direction == (if flow == DataFlow::Render { Direction::Sink } else { Direction::Source }),
{
    match flow {
        DataFlow::Render => Direction::Sink,
        _ => Direction::Source,
    }
}

/// An application session feeds a playback endpoint and reads from a
/// recording one, so its direction is the opposite of its endpoint's.
pub fn session_direction(flow: DataFlow) -> (direction: Direction)
    ensures
        direction == (if flow == DataFlow::Render { Direction::Source } else { Direction::Sink }),
{
    match flow {
        DataFlow::Render => Direction::Source,
        _ => Direction::Sink,
    }
}

/// The (output, input) ports of a session's observed link.
pub fn session_link_ports(flow: DataFlow, session_port: PortId, endpoint_port: PortId) -> (ports: (
    PortId,
    PortId,
))
    ensures
        ports == (if flow == DataFlow::Render {
            (session_port, endpoint_port)
        } else {
            (endpoint_port, session_port)
        }),
{
    match flow {
        DataFlow::Render => (session_port, endpoint_port),
        _ => (endpoint_port, session_port),
    }
}

/// The local id derived from a string's UTF-8 bytes.
pub fn stable_local_id(value: &str) -> (id: u64)
    ensures
        id == spec_stable_local_id(value.spec_bytes()),
        1 <= id <= LOCAL_ID_MASK,
{
    local_part(fnv_extend(FNV_OFFSET_BASIS, value.as_bytes()))
}

/// The local id of the string `prefix` followed by `value`.
fn prefixed_local_id(prefix: &str, value: &str) -> (id: u64)
    ensures
        id == spec_stable_local_id(prefix.spec_bytes() + value.spec_bytes()),
        1 <= id <= LOCAL_ID_MASK,
{
    proof {
        lemma_fnv_fold_concat(FNV_OFFSET_BASIS, prefix.spec_bytes(), value.spec_bytes());
    }
    let hash = fnv_extend(FNV_OFFSET_BASIS, prefix.as_bytes());
    local_part(fnv_extend(hash, value.as_bytes()))
}

/// The local id of the string `prefix`, `first`, `:`, `second`.
fn pair_local_id(prefix: &str, first: &str, second: &str) -> (id: u64)
    ensures
        id == spec_stable_local_id(
            prefix.spec_bytes() + first.spec_bytes() + ":".spec_bytes() + second.spec_bytes(),
        ),
        1 <= id <= LOCAL_ID_MASK,
{
    let ghost p = prefix.spec_bytes();
    let ghost a = first.spec_bytes();
    let ghost c = ":".spec_bytes();
    let ghost b = second.spec_bytes();
    proof {
        lemma_fnv_fold_concat(FNV_OFFSET_BASIS, p, a);
        lemma_fnv_fold_concat(FNV_OFFSET_BASIS, p + a, c);
        lemma_fnv_fold_concat(FNV_OFFSET_BASIS, p + a + c, b);
    }
    let hash = fnv_extend(FNV_OFFSET_BASIS, prefix.as_bytes());
    let hash = fnv_extend(hash, first.as_bytes());
    let hash = fnv_extend(hash, ":".as_bytes());
    local_part(fnv_extend(hash, second.as_bytes()))
}

/// `endpoint-node:{endpoint_id}`.
pub fn endpoint_node_local_id(endpoint_id: &str) -> (id: u64)
    ensures
        id == spec_stable_local_id("endpoint-node:".spec_bytes() + endpoint_id.spec_bytes()),
{
    prefixed_local_id("endpoint-node:", endpoint_id)
}

/// `endpoint-port:{endpoint_id}`.
pub fn endpoint_port_local_id(endpoint_id: &str) -> (id: u64)
    ensures
        id == spec_stable_local_id("endpoint-port:".spec_bytes() + endpoint_id.spec_bytes()),
{
    prefixed_local_id("endpoint-port:", endpoint_id)
}

/// A playback endpoint's monitor port: what that endpoint is playing, read
/// back through loopback. `endpoint-monitor-port:{endpoint_id}`.
pub fn endpoint_monitor_port_local_id(endpoint_id: &str) -> (id: u64)
    ensures
        id == spec_stable_local_id(
            "endpoint-monitor-port:".spec_bytes() + endpoint_id.spec_bytes(),
        ),
{
    prefixed_local_id("endpoint-monitor-port:", endpoint_id)
}

/// `session-node:{endpoint_id}:{session_id}`.
pub fn session_node_local_id(endpoint_id: &str, session_id: &str) -> (id: u64)
    ensures
        id == spec_stable_local_id(
            "session-node:".spec_bytes() + endpoint_id.spec_bytes() + ":".spec_bytes()
                + session_id.spec_bytes(),
        ),
{
    pair_local_id("session-node:", endpoint_id, session_id)
}

/// `session-port:{endpoint_id}:{session_id}`.
pub fn session_port_local_id(endpoint_id: &str, session_id: &str) -> (id: u64)
    ensures
        id == spec_stable_local_id(
            "session-port:".spec_bytes() + endpoint_id.spec_bytes() + ":".spec_bytes()
                + session_id.spec_bytes(),
        ),
{
    pair_local_id("session-port:", endpoint_id, session_id)
}

/// `session-link:{endpoint_id}:{session_id}`.
pub fn session_link_local_id(endpoint_id: &str, session_id: &str) -> (id: u64)
    ensures
        id == spec_stable_local_id(
            "session-link:".spec_bytes() + endpoint_id.spec_bytes() + ":".spec_bytes()
                + session_id.spec_bytes(),
        ),
{
    pair_local_id("session-link:", endpoint_id, session_id)
}

/// A link this backend owns, derived from its two ports:
/// `route-link:{output}:{input}` with both ids in decimal.
pub fn managed_link_local_id(output: PortId, input: PortId) -> (id: u64)
    ensures
        id == spec_stable_local_id(
            "route-link:".spec_bytes() + spec_decimal(output.0 as nat) + ":".spec_bytes()
                + spec_decimal(input.0 as nat),
        ),
{
    let out_digits = decimal_bytes(output.0);
    let in_digits = decimal_bytes(input.0);
    let ghost p = "route-link:".spec_bytes();
    let ghost a = out_digits@;
    let ghost c = ":".spec_bytes();
    let ghost b = in_digits@;
    proof {
        lemma_fnv_fold_concat(FNV_OFFSET_BASIS, p, a);
        lemma_fnv_fold_concat(FNV_OFFSET_BASIS, p + a, c);
        lemma_fnv_fold_concat(FNV_OFFSET_BASIS, p + a + c, b);
    }
    let hash = fnv_extend(FNV_OFFSET_BASIS, "route-link:".as_bytes());
    let hash = fnv_extend(hash, out_digits.as_slice());
    let hash = fnv_extend(hash, ":".as_bytes());
    local_part(fnv_extend(hash, in_digits.as_slice()))
}

/// The link this backend owns between two ports, with an id that survives a
/// graph rebuild.
pub fn managed_link(output: PortId, input: PortId) -> (link: Link)
    ensures
        link.output_port == output,
        link.input_port == input,
        link.id.0 == spec_encode(
            BackendNamespace::WindowsAudio,
            spec_stable_local_id(
                "route-link:".spec_bytes() + spec_decimal(output.0 as nat) + ":".spec_bytes()
                    + spec_decimal(input.0 as nat),
            ),
        ),
{
    Link { id: LinkId(graph_id(managed_link_local_id(output, input))), output_port: output, input_port: input }
}

/// Every id derived here lies in the Windows audio namespace and keeps its
/// local part.
pub proof fn lemma_graph_id_is_windows_audio(local: u64)
    requires
        local <= LOCAL_ID_MASK,
    ensures
        spec_backend_for(spec_encode(BackendNamespace::WindowsAudio, local) as u64) == Some(
            BackendKind::WindowsAudio,
        ),
        (spec_encode(BackendNamespace::WindowsAudio, local) as u64) % 0x0100_0000_0000_0000
            == local,
{
    crate::ids::lemma_encoded_id_names_its_backend(BackendNamespace::WindowsAudio, local);
}

/// The name a Core Audio session is shown with: its display name unless that
/// is blank, else its process's executable name, else `Audio session ({pid})`.
pub open spec fn spec_session_name(display: Seq<char>, process: Option<Seq<char>>, process_id: u32) -> Seq<char> {
    if crate::text::trim(display).len() == 0 {
        match process {
            Some(p) => p,
            None => "Audio session ("@ + crate::text::spec_decimal_chars(process_id as nat) + ")"@,
        }
    } else {
        display
    }
}

/// Choose a session's name from what Windows reports about it.
pub fn session_display_name(display: String, process: Option<String>, process_id: u32) -> (name: String)
    ensures
        name@ == spec_session_name(
            display@,
            match process {
                Some(p) => Some(p@),
                None => None,
            },
            process_id,
        ),
{
    let chars = crate::text::chars_of(display.as_str());
    let trimmed = crate::text::trim_chars(chars.as_slice());
    if trimmed.len() > 0 {
        return display;
    }
    match process {
        Some(p) => p,
        None => {
            let mut t: Vec<char> = Vec::new();
            crate::text::append_str(&mut t, "Audio session (");
            let digits = crate::text::decimal_chars(process_id as u64);
            crate::text::append_chars(&mut t, digits.as_slice());
            crate::text::append_str(&mut t, ")");
            crate::text::string_from_chars(t.as_slice())
        },
    }
}

/// The graph ids of a session on an endpoint: its node, its one port and its
/// observed link.
pub open spec fn spec_session_ids(endpoint_id: Seq<u8>, session_id: Seq<u8>) -> (u64, u64, u64) {
    let tail = endpoint_id + ":".spec_bytes() + session_id;
    (
        spec_encode(BackendNamespace::WindowsAudio, spec_stable_local_id("session-node:".spec_bytes() + tail)) as u64,
        spec_encode(BackendNamespace::WindowsAudio, spec_stable_local_id("session-port:".spec_bytes() + tail)) as u64,
        spec_encode(BackendNamespace::WindowsAudio, spec_stable_local_id("session-link:".spec_bytes() + tail)) as u64,
    )
}

/// Add an active session of an endpoint to the graph: a session node with
/// the given name, its one audio port (facing the endpoint's flow), and the
/// observed link between that port and the endpoint's port. Each step is
/// refused as the graph refuses it, and what came before stays.
pub fn add_session(
    graph: &mut Graph,
    endpoint_id: &str,
    endpoint_port: PortId,
    flow: DataFlow,
    session_id: &str,
    name: String,
) -> (result: Result<NodeId, GraphError>)
    ensures
        ({
            let (n, p, l) = spec_session_ids(endpoint_id.spec_bytes(), session_id.spec_bytes());
            let (output, input) = if flow == DataFlow::Render {
                (PortId(p), endpoint_port)
            } else {
                (endpoint_port, PortId(p))
            };
            let link = Link { id: LinkId(l), output_port: output, input_port: input };
            &&& old(graph).nodes@.contains_key(n) ==> result == Err::<NodeId, GraphError>(
                GraphError::DuplicateNode(NodeId(n)),
            ) && final(graph).nodes@ == old(graph).nodes@ && final(graph).ports@ == old(graph).ports@
                && final(graph).links@ == old(graph).links@
            &&& !old(graph).nodes@.contains_key(n) ==> {
                &&& final(graph).nodes@.contains_key(n)
                &&& final(graph).nodes@[n].name == name
                &&& final(graph).nodes@[n].node_type == NodeType::WindowsAudioSession
                &&& forall|k: u64| k != n ==> #[trigger] final(graph).nodes@.contains_key(k) == old(graph).nodes@.contains_key(k)
            }
            &&& !old(graph).nodes@.contains_key(n) && old(graph).ports@.contains_key(p) ==> result == Err::<
                NodeId,
                GraphError,
            >(GraphError::DuplicatePort(PortId(p))) && final(graph).ports@ == old(graph).ports@ && final(graph).links@
                == old(graph).links@
            &&& !old(graph).nodes@.contains_key(n) && !old(graph).ports@.contains_key(p) ==> {
                &&& final(graph).ports@.contains_key(p)
                &&& final(graph).ports@[p].node_id == NodeId(n)
                &&& final(graph).ports@[p].name@ == "audio"@
                &&& final(graph).ports@[p].direction == (if flow == DataFlow::Render {
                    Direction::Source
                } else {
                    Direction::Sink
                })
                &&& final(graph).ports@[p].port_type == PortType::Audio
                &&& final(graph).ports@.remove(p) == old(graph).ports@
                &&& final(graph).nodes@[n].ports@ == seq![PortId(p)]
                &&& match result {
                    Ok(id) => {
                        &&& id == NodeId(n)
                        &&& !old(graph).links@.contains_key(l)
                        &&& final(graph).links@ == old(graph).links@.insert(l, link)
                    },
                    Err(error) => final(graph).links@ == old(graph).links@ && (old(graph).links@.contains_key(l)
                        ==> error == GraphError::DuplicateLink(LinkId(l))),
                }
                &&& (result is Err <==> (old(graph).links@.contains_key(l) || !final(graph).ports@.contains_key(
                    output.0,
                ) || !final(graph).ports@.contains_key(input.0)))
            }
        }),
{
    let node_id = NodeId(graph_id(session_node_local_id(endpoint_id, session_id)));
    let port_id = PortId(graph_id(session_port_local_id(endpoint_id, session_id)));
    let link_id = LinkId(graph_id(session_link_local_id(endpoint_id, session_id)));
    proof {
        let tail = endpoint_id.spec_bytes() + ":".spec_bytes() + session_id.spec_bytes();
        assert("session-node:".spec_bytes() + tail =~= "session-node:".spec_bytes() + endpoint_id.spec_bytes()
            + ":".spec_bytes() + session_id.spec_bytes());
        assert("session-port:".spec_bytes() + tail =~= "session-port:".spec_bytes() + endpoint_id.spec_bytes()
            + ":".spec_bytes() + session_id.spec_bytes());
        assert("session-link:".spec_bytes() + tail =~= "session-link:".spec_bytes() + endpoint_id.spec_bytes()
            + ":".spec_bytes() + session_id.spec_bytes());
        assert(spec_session_ids(endpoint_id.spec_bytes(), session_id.spec_bytes()) == (node_id.0, port_id.0, link_id.0));
    }
    let ghost name_view = name;
    match graph.add_node(Node::new(node_id, name, NodeType::WindowsAudioSession)) {
        Ok(()) => {},
        Err(error) => return Err(error),
    }
    let direction = session_direction(flow);
    match graph.add_port(Port::new(port_id, node_id, "audio".to_owned(), direction, PortType::Audio)) {
        Ok(()) => {},
        Err(error) => return Err(error),
    }
    proof {
        assert(graph.ports@.remove(port_id.0) =~= old(graph).ports@);
    }
    let (output, input) = session_link_ports(flow, port_id, endpoint_port);
    match graph.insert_existing_link(Link { id: link_id, output_port: output, input_port: input }) {
        Ok(()) => Ok(node_id),
        Err(error) => Err(error),
    }
}

} // verus!
