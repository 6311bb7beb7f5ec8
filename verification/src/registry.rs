//! The PipeWire registry as the backend mirrors it: the nodes, ports and
//! links the daemon announces as globals, recorded from their properties,
//! and the graph the backend builds from them.

use vstd::prelude::*;
use crate::graph::{Direction, Graph, GraphError, Link, Node, NodeType, Port, PortType};
use crate::id_map::{IdMap, Keyed};
use crate::ids::{LinkId, NodeId, PortId};
use crate::pipewire::{classify_port_type, spec_classify_port_type};
use crate::text::{chars_of, chars_eq_str, starts_with, starts_with_str};

verus! {

/// A node global: its name, media class and daemon-wide serial.
pub struct NodeRecord {
    pub id: u32,
    pub name: String,
    pub media_class: String,
    pub serial: Option<u64>,
}

/// A port global: its node, name, channel, direction and media type.
pub struct PortRecord {
    pub id: u32,
    pub node_id: u32,
    pub name: String,
    pub channel: Option<String>,
    pub direction: Direction,
    pub media_type: String,
}

/// A link global: the two ports it joins.
#[derive(Clone, Copy, Debug, PartialEq, Eq)]
pub struct LinkRecord {
    pub id: u32,
    pub output_port: u32,
    pub input_port: u32,
}

/// A node record as plain values: name, media class, serial.
pub type NodeView = (Seq<char>, Seq<char>, Option<u64>);

/// A port record as plain values: node id, name, channel, direction, media type.
pub type PortView = (u32, Seq<char>, Option<Seq<char>>, Direction, Seq<char>);

/// A link record as plain values: output port, input port.
pub type LinkView = (u32, u32);

impl View for NodeRecord {
    type V = NodeView;

    open spec fn view(&self) -> NodeView {
        (self.name@, self.media_class@, self.serial)
    }
}

impl View for PortRecord {
    type V = PortView;

    open spec fn view(&self) -> PortView {
        (
            self.node_id,
            self.name@,
            match self.channel {
                Some(c) => Some(c@),
                None => None,
            },
            self.direction,
            self.media_type@,
        )
    }
}

impl View for LinkRecord {
    type V = LinkView;

    open spec fn view(&self) -> LinkView {
        (self.output_port, self.input_port)
    }
}

impl Keyed for NodeRecord {
    open spec fn id_key(&self) -> u64 {
        self.id as u64
    }

    fn key(&self) -> (k: u64) {
        self.id as u64
    }
}

impl Keyed for PortRecord {
    open spec fn id_key(&self) -> u64 {
        self.id as u64
    }

    fn key(&self) -> (k: u64) {
        self.id as u64
    }
}

impl Keyed for LinkRecord {
    open spec fn id_key(&self) -> u64 {
        self.id as u64
    }

    fn key(&self) -> (k: u64) {
        self.id as u64
    }
}

/// The registry's nodes, ports and links, each by global id.
pub struct RegistryState {
    nodes: IdMap<NodeRecord>,
    ports: IdMap<PortRecord>,
    links: IdMap<LinkRecord>,
}

/// The registry as plain values: nodes, ports and links by global id.
pub type RegistryView = (Map<u64, NodeView>, Map<u64, PortView>, Map<u64, LinkView>);

impl View for RegistryState {
    type V = RegistryView;

    closed spec fn view(&self) -> RegistryView {
        (
            self.nodes@.map_values(|r: NodeRecord| r@),
            self.ports@.map_values(|r: PortRecord| r@),
            self.links@.map_values(|r: LinkRecord| r@),
        )
    }
}

/// The kinds of global the registry records; the rest are ignored.
#[derive(Clone, Copy, Debug, PartialEq, Eq)]
pub enum GlobalKind {
    Node,
    Port,
    Link,
    Other,
}

/// Properties as plain values.
pub open spec fn props_view(props: Seq<(String, String)>) -> Seq<(Seq<char>, Seq<char>)> {
    props.map_values(|p: (String, String)| (p.0@, p.1@))
}

/// The value of the first property named `key`.
pub open spec fn spec_prop(props: Seq<(Seq<char>, Seq<char>)>, key: Seq<char>) -> Option<Seq<char>>
    decreases props.len(),
{
    if props.len() == 0 {
        None
    } else if props[0].0 == key {
        Some(props[0].1)
    } else {
        spec_prop(props.drop_first(), key)
    }
}

/// Whether every character is an ASCII digit, and there is at least one.
pub open spec fn all_digits(s: Seq<char>) -> bool {
    s.len() > 0 && forall|i: int| 0 <= i < s.len() ==> '0' <= #[trigger] s[i] <= '9'
}

/// The number decimal digits spell.
pub open spec fn digits_value(s: Seq<char>) -> nat
    decreases s.len(),
{
    if s.len() == 0 {
        0
    } else {
        digits_value(s.drop_last()) * 10 + ((s.last() as int - '0' as int) as nat)
    }
}

/// The unsigned number a text spells, as Rust's `from_str` for an unsigned
/// integer reads it: an optional `+`, then one or more ASCII digits. `None`
/// for any other text or for a number above `max`.
pub open spec fn spec_parse_unsigned(s: Seq<char>, max: nat) -> Option<nat> {
    let digits = if s.len() > 0 && s[0] == '+' {
        s.drop_first()
    } else {
        s
    };
    if all_digits(digits) && digits_value(digits) <= max {
        Some(digits_value(digits))
    } else {
        None
    }
}

/// A prefix of digits spells no more than the whole.
proof fn lemma_digits_prefix(s: Seq<char>, j: int)
    requires
        0 <= j <= s.len(),
    ensures
        digits_value(s.subrange(0, j)) <= digits_value(s),
    decreases s.len() - j,
{
    if j < s.len() {
        lemma_digits_prefix(s, j + 1);
        assert(s.subrange(0, j + 1).drop_last() =~= s.subrange(0, j));
    } else {
        assert(s.subrange(0, j) =~= s);
    }
}

/// Parse an unsigned decimal number no larger than `max`.
pub fn parse_unsigned(text: &str, max: u64) -> (value: Option<u64>)
    ensures
        match value {
            Some(v) => spec_parse_unsigned(text@, max as nat) == Some(v as nat),
            None => spec_parse_unsigned(text@, max as nat) is None,
        },
{
    let chars = chars_of(text);
    let start: usize = if chars.len() > 0 && chars[0] == '+' {
        1
    } else {
        0
    };
    let ghost digits = if chars@.len() > 0 && chars@[0] == '+' {
        chars@.drop_first()
    } else {
        chars@
    };
    assert(digits =~= chars@.subrange(start as int, chars@.len() as int));
    if start >= chars.len() {
        return None;
    }
    let mut acc: u64 = 0;
    let mut i: usize = start;
    assert(digits.subrange(0, 0) =~= Seq::<char>::empty());
    while i < chars.len()
        invariant
            start <= i <= chars@.len(),
            chars@ == text@,
            digits == (if text@.len() > 0 && text@[0] == '+' {
                text@.drop_first()
            } else {
                text@
            }),
            digits =~= chars@.subrange(start as int, chars@.len() as int),
            acc as nat == digits_value(digits.subrange(0, i - start)),
            acc <= max,
            forall|k: int| 0 <= k < i - start ==> '0' <= #[trigger] digits[k] <= '9',
        decreases chars@.len() - i,
    {
        let c = chars[i];
        if !('0' <= c && c <= '9') {
            assert(digits[i - start] == c);
            assert(!all_digits(digits));
            return None;
        }
        let d = (c as u32 - '0' as u32) as u64;
        let ghost prefix = digits.subrange(0, i - start + 1);
        assert(prefix.drop_last() =~= digits.subrange(0, i - start));
        assert(prefix.last() == c);
        let next = match acc.checked_mul(10) {
            Some(m) => m.checked_add(d),
            None => None,
        };
        match next {
            Some(n) => {
                if n > max {
                    proof {
                        lemma_digits_prefix(digits, i - start + 1);
                        assert(digits_value(prefix) == n);
                    }
                    return None;
                }
                acc = n;
            },
            None => {
                proof {
                    lemma_digits_prefix(digits, i - start + 1);
                }
                return None;
            },
        }
        i = i + 1;
    }
    assert(digits.subrange(0, i - start) =~= digits);
    Some(acc)
}

/// Where the first property named `key` stands.
fn find_prop(props: &[(String, String)], key: &str) -> (found: Option<usize>)
    ensures
        match found {
            Some(i) => i < props@.len() && spec_prop(props_view(props@), key@) == Some(props@[i as int].1@),
            None => spec_prop(props_view(props@), key@) is None,
        },
{
    let ghost all = props_view(props@);
    let mut i: usize = 0;
    assert(all.subrange(0, all.len() as int) =~= all);
    while i < props.len()
        invariant
            i <= props@.len(),
            all == props_view(props@),
            spec_prop(all.subrange(i as int, all.len() as int), key@) == spec_prop(all, key@),
        decreases props@.len() - i,
    {
        let ghost rest = all.subrange(i as int, all.len() as int);
        assert(rest.drop_first() =~= all.subrange(i + 1, all.len() as int));
        assert(rest[0] == (props@[i as int].0@, props@[i as int].1@));
        let name = chars_of(props[i].0.as_str());
        if chars_eq_str(name.as_slice(), key) {
            return Some(i);
        }
        i = i + 1;
    }
    None
}

/// The text of a property, or a fallback.
fn prop_or(props: &[(String, String)], key: &str, fallback: &str) -> (value: String)
    ensures
        value@ == match spec_prop(props_view(props@), key@) {
            Some(v) => v,
            None => fallback@,
        },
{
    match find_prop(props, key) {
        Some(i) => props[i].1.clone(),
        None => fallback.to_owned(),
    }
}

/// A property read as an unsigned number no larger than `max`; `None` when
/// it is missing or does not parse.
pub open spec fn spec_number_prop(props: Seq<(Seq<char>, Seq<char>)>, key: Seq<char>, max: nat) -> Option<nat> {
    match spec_prop(props, key) {
        Some(v) => spec_parse_unsigned(v, max),
        None => None,
    }
}

fn number_prop(props: &[(String, String)], key: &str, max: u64) -> (value: Option<u64>)
    ensures
        match value {
            Some(v) => spec_number_prop(props_view(props@), key@, max as nat) == Some(v as nat),
            None => spec_number_prop(props_view(props@), key@, max as nat) is None,
        },
{
    match find_prop(props, key) {
        Some(i) => parse_unsigned(props[i].1.as_str(), max),
        None => None,
    }
}

/// A global id property (`node.id`, `link.output.port`, ...): 0 when it is
/// missing or not a `u32`.
pub open spec fn spec_id_prop(props: Seq<(Seq<char>, Seq<char>)>, key: Seq<char>) -> u32 {
    match spec_number_prop(props, key, u32::MAX as nat) {
        Some(v) => v as u32,
        None => 0,
    }
}

/// What the registry records of a node global.
pub open spec fn spec_node_record(props: Seq<(Seq<char>, Seq<char>)>) -> NodeView {
    let name = match spec_prop(props, "node.name"@) {
        Some(v) => v,
        None => match spec_prop(props, "node.description"@) {
            Some(v) => v,
            None => "PipeWire node"@,
        },
    };
    let media_class = match spec_prop(props, "media.class"@) {
        Some(v) => v,
        None => Seq::empty(),
    };
    let serial = match spec_number_prop(props, "object.serial"@, u64::MAX as nat) {
        Some(v) => Some(v as u64),
        None => None,
    };
    (name, media_class, serial)
}

/// What the registry records of a port global. Only `port.direction` equal
/// to `out` makes a source.
pub open spec fn spec_port_record(props: Seq<(Seq<char>, Seq<char>)>) -> PortView {
    let media_type = match spec_prop(props, "media.type"@) {
        Some(v) => v,
        None => match spec_prop(props, "format.dsp"@) {
            Some(v) => v,
            None => Seq::empty(),
        },
    };
    let direction = if spec_prop(props, "port.direction"@) == Some("out"@) {
        Direction::Source
    } else {
        Direction::Sink
    };
    let name = match spec_prop(props, "port.name"@) {
        Some(v) => v,
        None => "PipeWire port"@,
    };
    (spec_id_prop(props, "node.id"@), name, spec_prop(props, "audio.channel"@), direction, media_type)
}

/// What the registry records of a link global.
pub open spec fn spec_link_record(props: Seq<(Seq<char>, Seq<char>)>) -> LinkView {
    (spec_id_prop(props, "link.output.port"@), spec_id_prop(props, "link.input.port"@))
}

/// The registry after a global is announced: a node, port or link is
/// recorded under its id (replacing what was there); other kinds are not.
pub open spec fn spec_record_global(
    state: RegistryView,
    id: u32,
    kind: GlobalKind,
    props: Seq<(Seq<char>, Seq<char>)>,
) -> RegistryView {
    match kind {
        GlobalKind::Node => (state.0.insert(id as u64, spec_node_record(props)), state.1, state.2),
        GlobalKind::Port => (state.0, state.1.insert(id as u64, spec_port_record(props)), state.2),
        GlobalKind::Link => (state.0, state.1, state.2.insert(id as u64, spec_link_record(props))),
        GlobalKind::Other => state,
    }
}

/// The registry after a global is withdrawn: whatever had its id is gone.
pub open spec fn spec_forget_global(state: RegistryView, id: u32) -> RegistryView {
    (state.0.remove(id as u64), state.1.remove(id as u64), state.2.remove(id as u64))
}

impl RegistryState {
    /// An empty registry.
    pub fn new() -> (state: Self)
        ensures
            state@ == (Map::<u64, NodeView>::empty(), Map::<u64, PortView>::empty(), Map::<u64, LinkView>::empty()),
    {
        let state = RegistryState { nodes: IdMap::new(), ports: IdMap::new(), links: IdMap::new() };
        proof {
            assert(state@.0 =~= Map::<u64, NodeView>::empty());
            assert(state@.1 =~= Map::<u64, PortView>::empty());
            assert(state@.2 =~= Map::<u64, LinkView>::empty());
        }
        state
    }
}

impl RegistryState {
    /// The node recorded under a global id.
    pub fn node(&self, id: u32) -> (record: Option<&NodeRecord>)
        ensures
            match record {
                Some(r) => self@.0.contains_key(id as u64) && r@ == self@.0[id as u64] && r.id == id,
                None => !self@.0.contains_key(id as u64),
            },
    {
        self.nodes.get(id as u64)
    }

    /// The port recorded under a global id.
    pub fn port(&self, id: u32) -> (record: Option<&PortRecord>)
        ensures
            match record {
                Some(r) => self@.1.contains_key(id as u64) && r@ == self@.1[id as u64] && r.id == id,
                None => !self@.1.contains_key(id as u64),
            },
    {
        self.ports.get(id as u64)
    }

    /// The link recorded under a global id.
    pub fn link(&self, id: u32) -> (record: Option<&LinkRecord>)
        ensures
            match record {
                Some(r) => self@.2.contains_key(id as u64) && r@ == self@.2[id as u64] && r.id == id,
                None => !self@.2.contains_key(id as u64),
            },
    {
        self.links.get(id as u64)
    }
}

/// Record a global the daemon announced, from its properties.
pub fn record_global(state: &mut RegistryState, id: u32, kind: GlobalKind, props: &[(String, String)])
    ensures
        final(state)@ == spec_record_global(old(state)@, id, kind, props_view(props@)),
{
    let ghost pv = props_view(props@);
    match kind {
        GlobalKind::Node => {
            let name = match find_prop(props, "node.name") {
                Some(i) => props[i].1.clone(),
                None => prop_or(props, "node.description", "PipeWire node"),
            };
            let media_class = prop_or(props, "media.class", "");
            let serial = number_prop(props, "object.serial", u64::MAX);
            let record = NodeRecord { id, name, media_class, serial };
            proof {
                reveal_strlit("");
            }
            assert(record@ == spec_node_record(pv));
            let _ = state.nodes.insert(record);
            proof {
                assert(state@.0 =~= old(state)@.0.insert(id as u64, spec_node_record(pv)));
            }
        },
        GlobalKind::Port => {
            let media_type = match find_prop(props, "media.type") {
                Some(i) => props[i].1.clone(),
                None => prop_or(props, "format.dsp", ""),
            };
            let direction = match find_prop(props, "port.direction") {
                Some(i) => if chars_eq_str(chars_of(props[i].1.as_str()).as_slice(), "out") {
                    Direction::Source
                } else {
                    Direction::Sink
                },
                None => Direction::Sink,
            };
            let node_id = match number_prop(props, "node.id", 0xffff_ffff) {
                Some(v) => v as u32,
                None => 0,
            };
            let name = prop_or(props, "port.name", "PipeWire port");
            let channel = match find_prop(props, "audio.channel") {
                Some(i) => Some(props[i].1.clone()),
                None => None,
            };
            let record = PortRecord { id, node_id, name, channel, direction, media_type };
            proof {
                reveal_strlit("");
            }
            assert(record@ == spec_port_record(pv));
            let _ = state.ports.insert(record);
            proof {
                assert(state@.1 =~= old(state)@.1.insert(id as u64, spec_port_record(pv)));
            }
        },
        GlobalKind::Link => {
            let output_port = match number_prop(props, "link.output.port", 0xffff_ffff) {
                Some(v) => v as u32,
                None => 0,
            };
            let input_port = match number_prop(props, "link.input.port", 0xffff_ffff) {
                Some(v) => v as u32,
                None => 0,
            };
            let record = LinkRecord { id, output_port, input_port };
            assert(record@ == spec_link_record(pv));
            let _ = state.links.insert(record);
            proof {
                assert(state@.2 =~= old(state)@.2.insert(id as u64, spec_link_record(pv)));
            }
        },
        GlobalKind::Other => {},
    }
}

/// Forget a global the daemon withdrew, whatever its kind.
pub fn forget_global(state: &mut RegistryState, id: u32)
    ensures
        final(state)@ == spec_forget_global(old(state)@, id),
{
    let _ = state.nodes.remove(id as u64);
    let _ = state.ports.remove(id as u64);
    let _ = state.links.remove(id as u64);
    proof {
        assert(state@.0 =~= old(state)@.0.remove(id as u64));
        assert(state@.1 =~= old(state)@.1.remove(id as u64));
        assert(state@.2 =~= old(state)@.2.remove(id as u64));
    }
}

/// Name prefix of the backend's own metering streams; the graph leaves them out.
pub open spec fn spec_meter_prefix() -> Seq<char> {
    "qpwgraph-rs meter"@
}

/// A node global the graph shows: every node but the backend's meter streams.
pub open spec fn spec_shown_node(state: RegistryView, k: u64) -> bool {
    state.0.contains_key(k) && !starts_with(state.0[k].0, spec_meter_prefix())
}

/// A port global the graph shows: one whose node it shows.
pub open spec fn spec_shown_port(state: RegistryView, k: u64) -> bool {
    state.1.contains_key(k) && spec_shown_node(state, state.1[k].0 as u64)
}

/// A link global the graph shows: one between two ports it shows.
pub open spec fn spec_shown_link(state: RegistryView, k: u64) -> bool {
    &&& state.2.contains_key(k)
    &&& spec_shown_port(state, state.2[k].0 as u64)
    &&& spec_shown_port(state, state.2[k].1 as u64)
}

/// The node the graph shows for a node global.
pub open spec fn spec_node_built(state: RegistryView, effect_nodes: Seq<NodeId>, k: u64, node: Node) -> bool {
    &&& node.id == NodeId(k)
    &&& node.name@ == state.0[k].0
    &&& node.node_type == (if effect_nodes.contains(NodeId(k)) {
        NodeType::Effect
    } else {
        NodeType::PipeWire
    })
    &&& forall|a: int, b: int| 0 <= a < b < node.ports@.len() ==> (#[trigger] node.ports@[a]).0 < (#[trigger] node.ports@[b]).0
    &&& forall|p: u64|
        #[trigger] node.ports@.contains(PortId(p)) <==> state.1.contains_key(p) && state.1[p].0 as u64 == k
}

/// The port the graph shows for a port global: its media type classified
/// with its node's media class as the fallback.
pub open spec fn spec_port_built(state: RegistryView, k: u64, port: Port) -> bool {
    let record = state.1[k];
    &&& port.id == PortId(k)
    &&& port.node_id == NodeId(record.0 as u64)
    &&& port.name@ == record.1
    &&& port.direction == record.3
    &&& port.port_type == spec_classify_port_type(record.4, state.0[record.0 as u64].1)
}

/// The graph built from the registry: the nodes, ports and links it shows,
/// each as its record says. Links are taken as the daemon reports them,
/// without the checks a new connection must pass.
pub open spec fn spec_graph_from_state(state: RegistryView, effect_nodes: Seq<NodeId>, g: Graph) -> bool {
    &&& forall|k: u64| #[trigger] g.nodes@.contains_key(k) <==> spec_shown_node(state, k)
    &&& forall|k: u64| #[trigger] g.nodes@.contains_key(k) ==> spec_node_built(state, effect_nodes, k, g.nodes@[k])
    &&& forall|k: u64| #[trigger] g.ports@.contains_key(k) <==> spec_shown_port(state, k)
    &&& forall|k: u64| #[trigger] g.ports@.contains_key(k) ==> spec_port_built(state, k, g.ports@[k])
    &&& forall|k: u64| #[trigger] g.links@.contains_key(k) <==> spec_shown_link(state, k)
    &&& forall|k: u64|
        #[trigger] g.links@.contains_key(k) ==> g.links@[k] == (Link {
            id: LinkId(k),
            output_port: PortId(state.2[k].0 as u64),
            input_port: PortId(state.2[k].1 as u64),
        })
}

/// Whether an entry before index `i` has key `k`.
pub open spec fn seen<T: Keyed>(s: Seq<T>, i: int, k: u64) -> bool {
    exists|j: int| 0 <= j < i && #[trigger] s[j].id_key() == k
}

proof fn lemma_seen_step<T: Keyed>(s: Seq<T>, i: int, k: u64)
    requires
        0 <= i < s.len(),
    ensures
        seen(s, i + 1, k) == (seen(s, i, k) || s[i].id_key() == k),
{
    if seen(s, i + 1, k) && !seen(s, i, k) {
        let j = choose|j: int| 0 <= j < i + 1 && #[trigger] s[j].id_key() == k;
        assert(j == i);
    }
}

proof fn lemma_seen_below<T: Keyed>(s: Seq<T>, i: int, k: u64)
    requires
        crate::id_map::keys_increasing(s),
        0 <= i < s.len(),
        seen(s, i, k),
    ensures
        k < s[i].id_key(),
{
    let j = choose|j: int| 0 <= j < i && #[trigger] s[j].id_key() == k;
}

fn contains_node(ids: &[NodeId], id: NodeId) -> (found: bool)
    ensures
        found == ids@.contains(id),
{
    let mut i: usize = 0;
    while i < ids.len()
        invariant
            i <= ids@.len(),
            forall|j: int| 0 <= j < i ==> ids@[j] != id,
        decreases ids@.len() - i,
    {
        if ids[i].0 == id.0 {
            assert(ids@[i as int] == id);
            return true;
        }
        i = i + 1;
    }
    false
}

/// Build the graph the PipeWire backend shows from its registry mirror:
/// nodes in id order (leaving out its own meter streams, and marking the
/// nodes of hosted effects), then the ports of those nodes with their media
/// types classified, then the links between those ports.
pub fn build_graph_from_state(state: &RegistryState, effect_nodes: &[NodeId]) -> (result: Result<Graph, GraphError>)
    ensures
        result matches Ok(g) && spec_graph_from_state(state@, effect_nodes@, g),
{
    let ghost v = state@;
    let mut graph = Graph::new();
    let nodes = state.nodes.values();
    let mut i: usize = 0;
    while i < nodes.len()
        invariant
            i <= nodes@.len(),
            v == state@,
            nodes@ == state.nodes.entries(),
            crate::id_map::keys_increasing(nodes@),
            crate::id_map::seq_map(nodes@) == state.nodes@,
            graph.ports@ == Map::<u64, Port>::empty(),
            graph.links@ == Map::<u64, Link>::empty(),
            forall|k: u64| #[trigger] graph.nodes@.contains_key(k) <==> seen(nodes@, i as int, k) && spec_shown_node(v, k),
            forall|k: u64| #[trigger] graph.nodes@.contains_key(k) ==> {
                &&& graph.nodes@[k].id == NodeId(k)
                &&& graph.nodes@[k].name@ == v.0[k].0
                &&& graph.nodes@[k].node_type == (if effect_nodes@.contains(NodeId(k)) {
                    NodeType::Effect
                } else {
                    NodeType::PipeWire
                })
                &&& graph.nodes@[k].ports@ == Seq::<PortId>::empty()
            },
        decreases nodes@.len() - i,
    {
        let record = &nodes[i];
        let ghost key = record.id_key();
        proof {
            crate::id_map::lemma_seq_map_index(nodes@, i as int);
            assert(v.0[key] == record@);
            assert forall|k: u64| #[trigger] seen(nodes@, i + 1, k) == (seen(nodes@, i as int, k) || k == key) by {
                lemma_seen_step(nodes@, i as int, k);
            }
        }
        let name = chars_of(record.name.as_str());
        if !starts_with_str(name.as_slice(), "qpwgraph-rs meter") {
            let id = NodeId(record.id as u64);
            let node_type = if contains_node(effect_nodes, id) {
                NodeType::Effect
            } else {
                NodeType::PipeWire
            };
            proof {
                if graph.nodes@.contains_key(key) {
                    lemma_seen_below(nodes@, i as int, key);
                }
            }
            match graph.add_node(Node::new(id, record.name.clone(), node_type)) {
                Ok(()) => {},
                Err(error) => return Err(error),
            }
        }
        i = i + 1;
    }
    proof {
        assert forall|k: u64| #[trigger] seen(nodes@, nodes@.len() as int, k) == v.0.contains_key(k) by {}
    }
    let ports = state.ports.values();
    let mut i: usize = 0;
    while i < ports.len()
        invariant
            i <= ports@.len(),
            v == state@,
            ports@ == state.ports.entries(),
            crate::id_map::keys_increasing(ports@),
            crate::id_map::seq_map(ports@) == state.ports@,
            graph.links@ == Map::<u64, Link>::empty(),
            forall|k: u64| #[trigger] graph.nodes@.contains_key(k) <==> spec_shown_node(v, k),
            forall|k: u64| #[trigger] graph.nodes@.contains_key(k) ==> {
                &&& graph.nodes@[k].id == NodeId(k)
                &&& graph.nodes@[k].name@ == v.0[k].0
                &&& graph.nodes@[k].node_type == (if effect_nodes@.contains(NodeId(k)) {
                    NodeType::Effect
                } else {
                    NodeType::PipeWire
                })
                &&& forall|a: int, b: int|
                    0 <= a < b < graph.nodes@[k].ports@.len() ==> (#[trigger] graph.nodes@[k].ports@[a]).0
                        < (#[trigger] graph.nodes@[k].ports@[b]).0
                &&& forall|p: u64|
                    #[trigger] graph.nodes@[k].ports@.contains(PortId(p)) <==> seen(ports@, i as int, p)
                        && v.1[p].0 as u64 == k
            },
            forall|k: u64| #[trigger] graph.ports@.contains_key(k) <==> seen(ports@, i as int, k) && spec_shown_port(v, k),
            forall|k: u64| #[trigger] graph.ports@.contains_key(k) ==> spec_port_built(v, k, graph.ports@[k]),
            forall|k: u64| #[trigger] seen(ports@, i as int, k) ==> v.1.contains_key(k),
        decreases ports@.len() - i,
    {
        let record = &ports[i];
        let ghost key = record.id_key();
        let ghost before = graph;
        proof {
            crate::id_map::lemma_seq_map_index(ports@, i as int);
            assert(v.1[key] == record@);
            assert forall|k: u64| #[trigger] seen(ports@, i + 1, k) == (seen(ports@, i as int, k) || k == key) by {
                lemma_seen_step(ports@, i as int, k);
            }
        }
        let node_id = NodeId(record.node_id as u64);
        if graph.nodes.contains_key(node_id.0) {
            let node_class = match state.nodes.get(node_id.0) {
                Some(node) => node.media_class.as_str(),
                None => "",
            };
            proof {
                assert(v.0.contains_key(node_id.0));
                assert(v.0[node_id.0].1 == node_class@);
            }
            let port_type = classify_port_type(record.media_type.as_str(), Some(node_class));
            let port = Port::new(PortId(record.id as u64), node_id, record.name.clone(), record.direction, port_type);
            proof {
                if graph.ports@.contains_key(key) {
                    lemma_seen_below(ports@, i as int, key);
                }
            }
            match graph.add_port(port) {
                Ok(()) => {},
                Err(error) => return Err(error),
            }
            proof {
                let k0 = node_id.0;
                assert forall|k: u64| #[trigger] graph.nodes@.contains_key(k) implies {
                    &&& forall|a: int, b: int|
                        0 <= a < b < graph.nodes@[k].ports@.len() ==> (#[trigger] graph.nodes@[k].ports@[a]).0
                            < (#[trigger] graph.nodes@[k].ports@[b]).0
                    &&& forall|p: u64|
                        #[trigger] graph.nodes@[k].ports@.contains(PortId(p)) <==> seen(ports@, i + 1, p)
                            && v.1[p].0 as u64 == k
                } by {
                    if k == k0 {
                        let old_list = before.nodes@[k].ports@;
                        let new_list = graph.nodes@[k].ports@;
                        assert(new_list == old_list.push(PortId(key)));
                        assert forall|a: int, b: int| 0 <= a < b < new_list.len() implies (#[trigger] new_list[a]).0
                            < (#[trigger] new_list[b]).0 by {
                            if b == old_list.len() {
                                assert(old_list.contains(old_list[a]));
                                assert(old_list[a] == PortId(old_list[a].0));
                                lemma_seen_below(ports@, i as int, old_list[a].0);
                            } else {
                                assert(new_list[a] == old_list[a] && new_list[b] == old_list[b]);
                            }
                        }
                        assert forall|p: u64| #[trigger] new_list.contains(PortId(p)) <==> seen(ports@, i + 1, p)
                            && v.1[p].0 as u64 == k by {
                            if new_list.contains(PortId(p)) && p != key {
                                let m = choose|m: int| 0 <= m < new_list.len() && new_list[m] == PortId(p);
                                assert(old_list[m] == PortId(p));
                                assert(old_list.contains(PortId(p)));
                            }
                            if p == key {
                                assert(new_list[old_list.len() as int] == PortId(p));
                            }
                            if seen(ports@, i as int, p) && v.1[p].0 as u64 == k {
                                assert(old_list.contains(PortId(p)));
                                let m = choose|m: int| 0 <= m < old_list.len() && old_list[m] == PortId(p);
                                assert(new_list[m] == PortId(p));
                            }
                        }
                    } else {
                        assert(graph.nodes@[k] == before.nodes@[k]);
                        assert forall|p: u64| #[trigger] graph.nodes@[k].ports@.contains(PortId(p)) <==> seen(ports@, i + 1, p)
                            && v.1[p].0 as u64 == k by {
                            if p == key {
                                assert(v.1[p].0 as u64 == k0);
                            }
                        }
                    }
                }
            }
        } else {
            proof {
                assert forall|k: u64| #[trigger] graph.nodes@.contains_key(k) implies forall|p: u64|
                    #[trigger] graph.nodes@[k].ports@.contains(PortId(p)) <==> seen(ports@, i + 1, p)
                        && v.1[p].0 as u64 == k by {
                    assert forall|p: u64| #[trigger] graph.nodes@[k].ports@.contains(PortId(p)) <==> seen(ports@, i + 1, p)
                        && v.1[p].0 as u64 == k by {
                        if p == key {
                            assert(v.1[p].0 as u64 == node_id.0);
                        }
                    }
                }
            }
        }
        i = i + 1;
    }
    proof {
        assert forall|k: u64| #[trigger] seen(ports@, ports@.len() as int, k) == v.1.contains_key(k) by {}
    }
    let links = state.links.values();
    let mut i: usize = 0;
    while i < links.len()
        invariant
            i <= links@.len(),
            v == state@,
            links@ == state.links.entries(),
            crate::id_map::keys_increasing(links@),
            crate::id_map::seq_map(links@) == state.links@,
            forall|k: u64| #[trigger] graph.nodes@.contains_key(k) <==> spec_shown_node(v, k),
            forall|k: u64| #[trigger] graph.nodes@.contains_key(k) ==> spec_node_built(v, effect_nodes@, k, graph.nodes@[k]),
            forall|k: u64| #[trigger] graph.ports@.contains_key(k) <==> spec_shown_port(v, k),
            forall|k: u64| #[trigger] graph.ports@.contains_key(k) ==> spec_port_built(v, k, graph.ports@[k]),
            forall|k: u64| #[trigger] graph.links@.contains_key(k) <==> seen(links@, i as int, k) && spec_shown_link(v, k),
            forall|k: u64|
                #[trigger] graph.links@.contains_key(k) ==> graph.links@[k] == (Link {
                    id: LinkId(k),
                    output_port: PortId(v.2[k].0 as u64),
                    input_port: PortId(v.2[k].1 as u64),
                }),
        decreases links@.len() - i,
    {
        let record = links[i];
        let ghost key = record.id_key();
        proof {
            crate::id_map::lemma_seq_map_index(links@, i as int);
            assert(v.2[key] == record@);
            assert forall|k: u64| #[trigger] seen(links@, i + 1, k) == (seen(links@, i as int, k) || k == key) by {
                lemma_seen_step(links@, i as int, k);
            }
            if graph.links@.contains_key(key) {
                lemma_seen_below(links@, i as int, key);
            }
        }
        let _ = graph.insert_existing_link(
            Link {
                id: LinkId(record.id as u64),
                output_port: PortId(record.output_port as u64),
                input_port: PortId(record.input_port as u64),
            },
        );
        i = i + 1;
    }
    proof {
        assert forall|k: u64| #[trigger] seen(links@, links@.len() as int, k) == v.2.contains_key(k) by {}
    }
    Ok(graph)
}

/// Whether the registry has a link global between two native ports.
pub open spec fn spec_has_link(state: RegistryView, output: u32, input: u32) -> bool {
    exists|k: u64| #[trigger] state.2.contains_key(k) && state.2[k] == (output, input)
}

/// The global id of a link the backend just asked the daemon to create: the
/// least id of a link global between the two ports once the registry has
/// caught up, else the id of the proxy the request returned.
pub fn created_link_id(state: &RegistryState, output: u32, input: u32, proxy_id: u32) -> (id: u32)
    ensures
        spec_has_link(state@, output, input) ==> {
            &&& state@.2.contains_key(id as u64)
            &&& state@.2[id as u64] == (output, input)
            &&& forall|k: u64| #[trigger] state@.2.contains_key(k) && state@.2[k] == (output, input) ==> id <= k
        },
        !spec_has_link(state@, output, input) ==> id == proxy_id,
{
    let links = state.links.values();
    let mut i: usize = 0;
    while i < links.len()
        invariant
            i <= links@.len(),
            crate::id_map::keys_increasing(links@),
            crate::id_map::seq_map(links@) == state.links@,
            forall|j: int| 0 <= j < i ==> (#[trigger] links@[j])@ != (output, input),
        decreases links@.len() - i,
    {
        if links[i].output_port == output && links[i].input_port == input {
            proof {
                crate::id_map::lemma_seq_map_index(links@, i as int);
                assert forall|k: u64| #[trigger] state@.2.contains_key(k) && state@.2[k] == (output, input) implies links@[i as int].id
                    <= k by {
                    assert(crate::id_map::seq_has_key(links@, k));
                    let j = choose|j: int| 0 <= j < links@.len() && links@[j].id_key() == k;
                    crate::id_map::lemma_seq_map_index(links@, j);
                    if j < i {
                        assert(links@[j]@ == (output, input));
                    } else if j > i {
                        assert(links@[i as int].id_key() < links@[j].id_key());
                    }
                }
                let k0 = links@[i as int].id_key();
                assert(state@.2.contains_key(k0) && state@.2[k0] == (output, input));
            }
            return links[i].id;
        }
        i = i + 1;
    }
    proof {
        assert forall|k: u64| !(#[trigger] state@.2.contains_key(k) && state@.2[k] == (output, input)) by {
            if state@.2.contains_key(k) {
                assert(crate::id_map::seq_has_key(links@, k));
                let j = choose|j: int| 0 <= j < links@.len() && links@[j].id_key() == k;
                crate::id_map::lemma_seq_map_index(links@, j);
                assert(links@[j]@ != (output, input));
            }
        }
    }
    proxy_id
}


/// A withdrawn global is gone: no node, port or link record keeps its id,
/// and every record under another id stays as it was.
pub proof fn lemma_forgotten_global_is_gone(state: RegistryView, id: u32, other: u64)
    requires
        other != id as u64,
    ensures
        !spec_forget_global(state, id).0.contains_key(id as u64),
        !spec_forget_global(state, id).1.contains_key(id as u64),
        !spec_forget_global(state, id).2.contains_key(id as u64),
        spec_forget_global(state, id).0.contains_key(other) == state.0.contains_key(other),
        spec_forget_global(state, id).1.contains_key(other) == state.1.contains_key(other),
        spec_forget_global(state, id).2.contains_key(other) == state.2.contains_key(other),
        state.0.contains_key(other) ==> spec_forget_global(state, id).0[other] == state.0[other],
        state.1.contains_key(other) ==> spec_forget_global(state, id).1[other] == state.1[other],
        state.2.contains_key(other) ==> spec_forget_global(state, id).2[other] == state.2[other],
{
}

} // verus!
