//! Core graph types shared by every backend and presentation layer.
//!
//! A graph is three id-keyed maps: nodes, ports and links. Links are only
//! created between a source port and a sink port of the same media type, and
//! a pair of ports is linked at most once.

use vstd::prelude::*;
use crate::ids::{LinkId, NodeId, PortId};
use crate::id_map::{IdMap, Keyed, keys_increasing, seq_map, lemma_seq_map_index};
use crate::text::{append_chars, append_str, decimal_chars, spec_decimal_chars, string_from_chars};

verus! {

#[derive(Clone, Copy, Debug, Default, PartialEq, Eq, Structural, Hash)]
pub enum Direction {
    #[default]
    Source,
    Sink,
}

impl Direction {
    pub fn is_source(self) -> (source: bool)
        ensures
            source == (self == Direction::Source),
    {
        match self {
            Direction::Source => true,
            Direction::Sink => false,
        }
    }

    pub fn is_sink(self) -> (sink: bool)
        ensures
            sink == (self == Direction::Sink),
    {
        match self {
            Direction::Source => false,
            Direction::Sink => true,
        }
    }
}

#[derive(Clone, Copy, Debug, Default, PartialEq, Eq, Structural, Hash)]
pub enum NodeType {
    #[default]
    PipeWire,
    AlsaMidi,
    Effect,
    WindowsAudioEndpoint,
    WindowsAudioSession,
    WindowsMidi,
    Unknown,
}

#[derive(Clone, Copy, Debug, Default, PartialEq, Eq, Structural, Hash)]
pub enum PortType {
    #[default]
    Audio,
    Video,
    MidiJack,
    MidiAlsa,
    Unknown,
}

/// The colour each media type is drawn in.
pub open spec fn spec_port_color(port_type: PortType) -> Seq<char> {
    match port_type {
        PortType::Audio => "#57c785"@,
        PortType::Video => "#4e9de6"@,
        PortType::MidiJack => "#e35d6a"@,
        PortType::MidiAlsa => "#a979d1"@,
        PortType::Unknown => "#a5a5a5"@,
    }
}

impl PortType {
    pub fn color_hex(self) -> (color: &'static str)
        ensures
            color@ == spec_port_color(self),
    {
        match self {
            PortType::Audio => "#57c785",
            PortType::Video => "#4e9de6",
            PortType::MidiJack => "#e35d6a",
            PortType::MidiAlsa => "#a979d1",
            PortType::Unknown => "#a5a5a5",
        }
    }
}

/// A graph node. Its canvas position is layout state and is kept by the
/// presentation layer, keyed by node id.
#[derive(Debug)]
pub struct Node {
    pub id: NodeId,
    pub name: String,
    pub node_type: NodeType,
    pub ports: Vec<PortId>,
}

impl Node {
    pub fn new(id: NodeId, name: String, node_type: NodeType) -> (node: Self)
        ensures
            node.id == id,
            node.name == name,
            node.node_type == node_type,
            node.ports@ == Seq::<PortId>::empty(),
    {
        Node { id, name, node_type, ports: Vec::new() }
    }
}

impl Clone for Node {
    fn clone(&self) -> (copy: Self)
        ensures
            copy.id == self.id,
            copy.name == self.name,
            copy.node_type == self.node_type,
            copy.ports@ == self.ports@,
    {
        Node { id: self.id, name: self.name.clone(), node_type: self.node_type, ports: self.ports.clone() }
    }
}

impl Keyed for Node {
    open spec fn id_key(&self) -> u64 {
        self.id.0
    }

    fn key(&self) -> (k: u64) {
        self.id.0
    }
}

#[derive(Debug)]
pub struct Port {
    pub id: PortId,
    pub node_id: NodeId,
    pub name: String,
    pub direction: Direction,
    pub port_type: PortType,
}

impl Port {
    pub fn new(
        id: PortId,
        node_id: NodeId,
        name: String,
        direction: Direction,
        port_type: PortType,
    ) -> (port: Self)
        ensures
            port.id == id,
            port.node_id == node_id,
            port.name == name,
            port.direction == direction,
            port.port_type == port_type,
    {
        Port { id, node_id, name, direction, port_type }
    }
}

impl Clone for Port {
    fn clone(&self) -> (copy: Self)
        ensures
            copy == *self,
    {
        Port {
            id: self.id,
            node_id: self.node_id,
            name: self.name.clone(),
            direction: self.direction,
            port_type: self.port_type,
        }
    }
}

impl Keyed for Port {
    open spec fn id_key(&self) -> u64 {
        self.id.0
    }

    fn key(&self) -> (k: u64) {
        self.id.0
    }
}

#[derive(Clone, Copy, Debug, PartialEq, Eq, Structural, Hash)]
pub struct Link {
    pub id: LinkId,
    pub output_port: PortId,
    pub input_port: PortId,
}

impl Keyed for Link {
    open spec fn id_key(&self) -> u64 {
        self.id.0
    }

    fn key(&self) -> (k: u64) {
        self.id.0
    }
}

/// A port identified by stable names rather than by id, so it can be found
/// again after a backend renumbers its globals.
#[derive(Debug)]
pub struct PortKey {
    pub node_name: String,
    pub node_serial: Option<u64>,
    pub node_type: NodeType,
    pub port_name: String,
    pub channel: Option<String>,
    pub direction: Direction,
    pub port_type: PortType,
}

impl Clone for PortKey {
    fn clone(&self) -> (copy: Self)
        ensures
            copy == *self,
    {
        let channel = match &self.channel {
            Some(c) => Some(c.clone()),
            None => None,
        };
        PortKey {
            node_name: self.node_name.clone(),
            node_serial: self.node_serial,
            node_type: self.node_type,
            port_name: self.port_name.clone(),
            channel,
            direction: self.direction,
            port_type: self.port_type,
        }
    }
}

/// What a stable port key says, as plain values: node name, node serial,
/// node type, port name, channel, direction and media type.
pub type KeyView = (Seq<char>, Option<u64>, NodeType, Seq<char>, Option<Seq<char>>, Direction, PortType);

/// What a key says, as plain values.
pub open spec fn key_view(key: PortKey) -> KeyView {
    (
        key.node_name@,
        key.node_serial,
        key.node_type,
        key.port_name@,
        match key.channel {
            Some(c) => Some(c@),
            None => None,
        },
        key.direction,
        key.port_type,
    )
}

impl PortKey {
    /// Whether two keys say the same thing.
    pub fn same_as(&self, other: &PortKey) -> (same: bool)
        ensures
            same == (key_view(*self) == key_view(*other)),
    {
        let channels = match (&self.channel, &other.channel) {
            (Some(a), Some(b)) => *a == *b,
            (None, None) => true,
            _ => false,
        };
        self.node_name == other.node_name && self.node_serial == other.node_serial
            && self.node_type == other.node_type && self.port_name == other.port_name && channels
            && self.direction == other.direction && self.port_type == other.port_type
    }
}

#[derive(Clone, Copy, Debug, PartialEq, Eq, Structural)]
pub enum GraphError {
    DuplicateNode(NodeId),
    DuplicatePort(PortId),
    DuplicateLink(LinkId),
    MissingNode(NodeId),
    MissingPort(PortId),
    PortNodeMismatch(PortId, NodeId, NodeId),
    NotSource(PortId),
    NotSink(PortId),
    IncompatiblePorts(PortId, PortId),
    DuplicateConnection(PortId, PortId),
    MissingLink(LinkId),
}

/// The decimal text of an id.
pub open spec fn spec_id_text(id: u64) -> Seq<char> {
    spec_decimal_chars(id as nat)
}

/// What each graph error says.
pub open spec fn spec_graph_error_message(error: GraphError) -> Seq<char> {
    match error {
        GraphError::DuplicateNode(n) => "node "@ + spec_id_text(n.0) + " already exists"@,
        GraphError::DuplicatePort(p) => "port "@ + spec_id_text(p.0) + " already exists"@,
        GraphError::DuplicateLink(l) => "link "@ + spec_id_text(l.0) + " already exists"@,
        GraphError::MissingNode(n) => "node "@ + spec_id_text(n.0) + " does not exist"@,
        GraphError::MissingPort(p) => "port "@ + spec_id_text(p.0) + " does not exist"@,
        GraphError::PortNodeMismatch(p, a, b) => "port "@ + spec_id_text(p.0) + " belongs to node "@
            + spec_id_text(a.0) + ", not node "@ + spec_id_text(b.0),
        GraphError::NotSource(p) => "source port "@ + spec_id_text(p.0) + " must be a source"@,
        GraphError::NotSink(p) => "destination port "@ + spec_id_text(p.0) + " must be a sink"@,
        GraphError::IncompatiblePorts(a, b) => "ports "@ + spec_id_text(a.0) + " and "@ + spec_id_text(
            b.0,
        ) + " are not compatible"@,
        GraphError::DuplicateConnection(a, b) => "ports "@ + spec_id_text(a.0) + " and "@
            + spec_id_text(b.0) + " are already linked"@,
        GraphError::MissingLink(l) => "link "@ + spec_id_text(l.0) + " does not exist"@,
    }
}

/// `out` followed by the decimal text of `id`.
fn append_id(out: &mut Vec<char>, id: u64)
    ensures
        final(out)@ == old(out)@ + spec_id_text(id),
{
    let digits = decimal_chars(id);
    append_chars(out, digits.as_slice());
}

impl GraphError {
    /// The error's message.
    pub fn message(&self) -> (text: String)
        ensures
            text@ == spec_graph_error_message(*self),
    {
        let mut t: Vec<char> = Vec::new();
        match *self {
            GraphError::DuplicateNode(n) => {
                append_str(&mut t, "node ");
                append_id(&mut t, n.0);
                append_str(&mut t, " already exists");
            },
            GraphError::DuplicatePort(p) => {
                append_str(&mut t, "port ");
                append_id(&mut t, p.0);
                append_str(&mut t, " already exists");
            },
            GraphError::DuplicateLink(l) => {
                append_str(&mut t, "link ");
                append_id(&mut t, l.0);
                append_str(&mut t, " already exists");
            },
            GraphError::MissingNode(n) => {
                append_str(&mut t, "node ");
                append_id(&mut t, n.0);
                append_str(&mut t, " does not exist");
            },
            GraphError::MissingPort(p) => {
                append_str(&mut t, "port ");
                append_id(&mut t, p.0);
                append_str(&mut t, " does not exist");
            },
            GraphError::PortNodeMismatch(p, a, b) => {
                append_str(&mut t, "port ");
                append_id(&mut t, p.0);
                append_str(&mut t, " belongs to node ");
                append_id(&mut t, a.0);
                append_str(&mut t, ", not node ");
                append_id(&mut t, b.0);
            },
            GraphError::NotSource(p) => {
                append_str(&mut t, "source port ");
                append_id(&mut t, p.0);
                append_str(&mut t, " must be a source");
            },
            GraphError::NotSink(p) => {
                append_str(&mut t, "destination port ");
                append_id(&mut t, p.0);
                append_str(&mut t, " must be a sink");
            },
            GraphError::IncompatiblePorts(a, b) => {
                append_str(&mut t, "ports ");
                append_id(&mut t, a.0);
                append_str(&mut t, " and ");
                append_id(&mut t, b.0);
                append_str(&mut t, " are not compatible");
            },
            GraphError::DuplicateConnection(a, b) => {
                append_str(&mut t, "ports ");
                append_id(&mut t, a.0);
                append_str(&mut t, " and ");
                append_id(&mut t, b.0);
                append_str(&mut t, " are already linked");
            },
            GraphError::MissingLink(l) => {
                append_str(&mut t, "link ");
                append_id(&mut t, l.0);
                append_str(&mut t, " does not exist");
            },
        }
        string_from_chars(t.as_slice())
    }
}

pub struct Graph {
    pub nodes: IdMap<Node>,
    pub ports: IdMap<Port>,
    pub links: IdMap<Link>,
}

/// Whether some link already runs from `output` to `input`.
pub open spec fn spec_connected(links: Map<u64, Link>, output: PortId, input: PortId) -> bool {
    exists|k: u64| #[trigger] links.contains_key(k) && links[k].output_port == output
        && links[k].input_port == input
}

/// Why `add_link` refuses a link, checked in this order; `None` when it is
/// accepted.
pub open spec fn spec_add_link_error(
    g: &Graph,
    link_id: LinkId,
    output: PortId,
    input: PortId,
) -> Option<GraphError> {
    if g.links@.contains_key(link_id.0) {
        Some(GraphError::DuplicateLink(link_id))
    } else if !g.ports@.contains_key(output.0) {
        Some(GraphError::MissingPort(output))
    } else if !g.ports@.contains_key(input.0) {
        Some(GraphError::MissingPort(input))
    } else if g.ports@[output.0].direction != Direction::Source {
        Some(GraphError::NotSource(output))
    } else if g.ports@[input.0].direction != Direction::Sink {
        Some(GraphError::NotSink(input))
    } else if g.ports@[output.0].port_type != g.ports@[input.0].port_type {
        Some(GraphError::IncompatiblePorts(output, input))
    } else if spec_connected(g.links@, output, input) {
        Some(GraphError::DuplicateConnection(output, input))
    } else {
        None
    }
}

/// Why `insert_existing_link` refuses a link; `None` when it is accepted.
pub open spec fn spec_insert_link_error(g: &Graph, link: Link) -> Option<GraphError> {
    if g.links@.contains_key(link.id.0) {
        Some(GraphError::DuplicateLink(link.id))
    } else if !g.ports@.contains_key(link.output_port.0) {
        Some(GraphError::MissingPort(link.output_port))
    } else if !g.ports@.contains_key(link.input_port.0) {
        Some(GraphError::MissingPort(link.input_port))
    } else {
        None
    }
}

/// Whether a port of the graph is the one a key names. The graph records
/// neither node serials nor channels, so those parts of a key never exclude a
/// port.
pub open spec fn spec_port_matches(g: &Graph, port: PortId, key: &PortKey) -> bool {
    &&& g.ports@.contains_key(port.0)
    &&& g.nodes@.contains_key(g.ports@[port.0].node_id.0)
    &&& g.nodes@[g.ports@[port.0].node_id.0].name@ == key.node_name@
    &&& g.nodes@[g.ports@[port.0].node_id.0].node_type == key.node_type
    &&& g.ports@[port.0].name@ == key.port_name@
    &&& g.ports@[port.0].direction == key.direction
    &&& g.ports@[port.0].port_type == key.port_type
}

/// Whether a link runs between the ports two keys name.
pub open spec fn spec_link_matches(g: &Graph, link: Link, output: &PortKey, input: &PortKey) -> bool {
    spec_port_matches(g, link.output_port, output) && spec_port_matches(g, link.input_port, input)
}

/// The stable key of a port of the graph, if the port and its node exist.
pub open spec fn spec_port_key(g: &Graph, port: PortId) -> Option<KeyView> {
    if g.ports@.contains_key(port.0) && g.nodes@.contains_key(g.ports@[port.0].node_id.0) {
        let p = g.ports@[port.0];
        let n = g.nodes@[p.node_id.0];
        Some((n.name@, None, n.node_type, p.name@, None, p.direction, p.port_type))
    } else {
        None
    }
}

/// Whether some link of the graph runs between the ports two keys name.
pub open spec fn spec_keys_linked(g: &Graph, output: &PortKey, input: &PortKey) -> bool {
    exists|k: u64| #[trigger] g.links@.contains_key(k) && spec_link_matches(g, g.links@[k], output, input)
}

/// Whether a link touches a port at either end.
pub open spec fn spec_link_touches(link: Link, port: PortId) -> bool {
    link.output_port == port || link.input_port == port
}

impl Default for Graph {
    /// An empty graph.
    fn default() -> (g: Self)
        ensures
            g.nodes@ == Map::<u64, Node>::empty(),
            g.ports@ == Map::<u64, Port>::empty(),
            g.links@ == Map::<u64, Link>::empty(),
    {
        Graph::new()
    }
}

impl Graph {
    /// An empty graph.
    pub fn new() -> (g: Self)
        ensures
            g.nodes@ == Map::<u64, Node>::empty(),
            g.ports@ == Map::<u64, Port>::empty(),
            g.links@ == Map::<u64, Link>::empty(),
    {
        Graph { nodes: IdMap::new(), ports: IdMap::new(), links: IdMap::new() }
    }

    /// Add a node; a node id is used at most once.
    pub fn add_node(&mut self, node: Node) -> (result: Result<(), GraphError>)
        ensures
            match result {
                Ok(()) => {
                    &&& !old(self).nodes@.contains_key(node.id.0)
                    &&& final(self).nodes@ == old(self).nodes@.insert(node.id.0, node)
                    &&& final(self).ports@ == old(self).ports@
                    &&& final(self).links@ == old(self).links@
                },
                Err(error) => {
                    &&& old(self).nodes@.contains_key(node.id.0)
                    &&& error == GraphError::DuplicateNode(node.id)
                    &&& final(self).nodes@ == old(self).nodes@
                    &&& final(self).ports@ == old(self).ports@
                    &&& final(self).links@ == old(self).links@
                },
            },
    {
        if self.nodes.contains_key(node.id.0) {
            return Err(GraphError::DuplicateNode(node.id));
        }
        let _ = self.nodes.insert(node);
        Ok(())
    }

    /// Add a port to an existing node, appending it to that node's port list.
    pub fn add_port(&mut self, port: Port) -> (result: Result<(), GraphError>)
        ensures
            final(self).links@ == old(self).links@,
            !old(self).nodes@.contains_key(port.node_id.0) ==> result == Err::<(), GraphError>(
                GraphError::MissingNode(port.node_id),
            ),
            old(self).nodes@.contains_key(port.node_id.0) && old(self).ports@.contains_key(port.id.0)
                ==> result == Err::<(), GraphError>(GraphError::DuplicatePort(port.id)),
            old(self).nodes@.contains_key(port.node_id.0) && !old(self).ports@.contains_key(port.id.0)
                ==> result is Ok,
            result is Err ==> final(self).nodes@ == old(self).nodes@ && final(self).ports@ == old(
                self,
            ).ports@,
            result is Ok ==> {
                let k = port.node_id.0;
                &&& old(self).nodes@.contains_key(k)
                &&& !old(self).ports@.contains_key(port.id.0)
                &&& final(self).ports@ == old(self).ports@.insert(port.id.0, port)
                &&& final(self).nodes@.dom() == old(self).nodes@.dom()
                &&& forall|other: u64| other != k ==> #[trigger] final(self).nodes@[other] == old(
                    self,
                ).nodes@[other]
                &&& final(self).nodes@[k].id == old(self).nodes@[k].id
                &&& final(self).nodes@[k].name == old(self).nodes@[k].name
                &&& final(self).nodes@[k].node_type == old(self).nodes@[k].node_type
                &&& final(self).nodes@[k].ports@ == old(self).nodes@[k].ports@.push(port.id)
            },
    {
        let k = port.node_id.0;
        if !self.nodes.contains_key(k) {
            return Err(GraphError::MissingNode(port.node_id));
        }
        if self.ports.contains_key(port.id.0) {
            return Err(GraphError::DuplicatePort(port.id));
        }
        let ghost before = self.nodes@;
        match self.nodes.remove(k) {
            Some(mut node) => {
                node.ports.push(port.id);
                let _ = self.nodes.insert(node);
                proof {
                    assert(self.nodes@ =~= before.insert(k, node));
                }
                let _ = self.ports.insert(port);
                Ok(())
            },
            None => {
                Err(GraphError::MissingNode(port.node_id))
            },
        }
    }

    /// Remove a link by id, returning it.
    pub fn remove_link(&mut self, link_id: LinkId) -> (result: Result<Link, GraphError>)
        ensures
            final(self).nodes == old(self).nodes,
            final(self).ports == old(self).ports,
            result is Err ==> *final(self) == *old(self),
            final(self).links@ == old(self).links@.remove(link_id.0),
            match result {
                Ok(link) => old(self).links@.contains_key(link_id.0) && link == old(self).links@[link_id.0]
                    && link.id == link_id,
                Err(error) => !old(self).links@.contains_key(link_id.0) && error == GraphError::MissingLink(link_id),
            },
    {
        match self.links.remove(link_id.0) {
            Some(link) => Ok(link),
            None => Err(GraphError::MissingLink(link_id)),
        }
    }

    pub fn link(&self, link_id: LinkId) -> (link: Option<&Link>)
        ensures
            match link {
                Some(l) => self.links@.contains_key(link_id.0) && *l == self.links@[link_id.0] && l.id == link_id,
                None => !self.links@.contains_key(link_id.0),
            },
    {
        self.links.get(link_id.0)
    }

    pub fn port(&self, port_id: PortId) -> (port: Option<&Port>)
        ensures
            match port {
                Some(p) => self.ports@.contains_key(port_id.0) && *p == self.ports@[port_id.0] && p.id == port_id,
                None => !self.ports@.contains_key(port_id.0),
            },
    {
        self.ports.get(port_id.0)
    }

    pub fn node(&self, node_id: NodeId) -> (node: Option<&Node>)
        ensures
            match node {
                Some(n) => self.nodes@.contains_key(node_id.0) && *n == self.nodes@[node_id.0] && n.id == node_id,
                None => !self.nodes@.contains_key(node_id.0),
            },
    {
        self.nodes.get(node_id.0)
    }

    /// Whether some link already runs from `output` to `input`.
    pub fn is_connected(&self, output: PortId, input: PortId) -> (connected: bool)
        ensures
            connected == spec_connected(self.links@, output, input),
    {
        let links = self.links.values();
        let mut i: usize = 0;
        while i < links.len()
            invariant
                i <= links@.len(),
                keys_increasing(links@),
                seq_map(links@) == self.links@,
                forall|j: int| 0 <= j < i ==> !(links@[j].output_port == output && links@[j].input_port == input),
            decreases links@.len() - i,
        {
            if links[i].output_port == output && links[i].input_port == input {
                proof {
                    lemma_seq_map_index(links@, i as int);
                    assert(self.links@.contains_key(links@[i as int].id.0));
                }
                return true;
            }
            i = i + 1;
        }
        proof {
            assert forall|k: u64| #[trigger] self.links@.contains_key(k) implies !(self.links@[k].output_port == output
                && self.links@[k].input_port == input) by {
                let j = choose|j: int| 0 <= j < links@.len() && links@[j].id_key() == k;
                lemma_seq_map_index(links@, j);
            }
        }
        false
    }

    /// Create a link from a source port to a sink port of the same media
    /// type. Refused, in this order, for a reused link id, a missing port, a
    /// wrong direction, a media mismatch, or a pair that is already linked.
    pub fn add_link(&mut self, link_id: LinkId, output_port: PortId, input_port: PortId) -> (result: Result<Link, GraphError>)
        ensures
            final(self).nodes == old(self).nodes,
            final(self).ports == old(self).ports,
            result is Err ==> *final(self) == *old(self),
            match result {
                Ok(link) => {
                    &&& spec_add_link_error(&*old(self), link_id, output_port, input_port) is None
                    &&& link == Link { id: link_id, output_port, input_port }
                    &&& final(self).links@ == old(self).links@.insert(link_id.0, link)
                },
                Err(error) => {
                    &&& spec_add_link_error(&*old(self), link_id, output_port, input_port) == Some(error)
                    &&& final(self).links@ == old(self).links@
                },
            },
    {
        if self.links.contains_key(link_id.0) {
            return Err(GraphError::DuplicateLink(link_id));
        }
        let output = match self.ports.get(output_port.0) {
            Some(p) => p,
            None => return Err(GraphError::MissingPort(output_port)),
        };
        let input = match self.ports.get(input_port.0) {
            Some(p) => p,
            None => return Err(GraphError::MissingPort(input_port)),
        };
        if !output.direction.is_source() {
            return Err(GraphError::NotSource(output_port));
        }
        if !input.direction.is_sink() {
            return Err(GraphError::NotSink(input_port));
        }
        if output.port_type != input.port_type {
            return Err(GraphError::IncompatiblePorts(output_port, input_port));
        }
        if self.is_connected(output_port, input_port) {
            return Err(GraphError::DuplicateConnection(output_port, input_port));
        }
        let link = Link { id: link_id, output_port, input_port };
        let _ = self.links.insert(link);
        Ok(link)
    }

    /// Insert a link reported by a backend snapshot. Such links are not
    /// revalidated beyond their ports existing.
    pub fn insert_existing_link(&mut self, link: Link) -> (result: Result<(), GraphError>)
        ensures
            final(self).nodes@ == old(self).nodes@,
            final(self).ports@ == old(self).ports@,
            match result {
                Ok(()) => {
                    &&& spec_insert_link_error(&*old(self), link) is None
                    &&& final(self).links@ == old(self).links@.insert(link.id.0, link)
                },
                Err(error) => {
                    &&& spec_insert_link_error(&*old(self), link) == Some(error)
                    &&& final(self).links@ == old(self).links@
                },
            },
    {
        if self.links.contains_key(link.id.0) {
            return Err(GraphError::DuplicateLink(link.id));
        }
        if !self.ports.contains_key(link.output_port.0) {
            return Err(GraphError::MissingPort(link.output_port));
        }
        if !self.ports.contains_key(link.input_port.0) {
            return Err(GraphError::MissingPort(link.input_port));
        }
        let _ = self.links.insert(link);
        Ok(())
    }

    /// The links touching a port at either end, in link id order.
    pub fn links_for_port(&self, port_id: PortId) -> (touching: Vec<Link>)
        ensures
            touching@ == self.links.entries().filter(|l: Link| spec_link_touches(l, port_id)),
    {
        let links = self.links.values();
        let ghost pred = |l: Link| spec_link_touches(l, port_id);
        let mut touching: Vec<Link> = Vec::new();
        let mut i: usize = 0;
        while i < links.len()
            invariant
                i <= links@.len(),
                pred == (|l: Link| spec_link_touches(l, port_id)),
                touching@ == links@.subrange(0, i as int).filter(pred),
            decreases links@.len() - i,
        {
            let link = links[i];
            proof {
                assert(links@.subrange(0, i + 1) =~= links@.subrange(0, i as int).push(link));
                links@.subrange(0, i as int).lemma_filter_push(link, pred);
            }
            if link.output_port == port_id || link.input_port == port_id {
                touching.push(link);
            }
            i = i + 1;
        }
        assert(links@.subrange(0, links@.len() as int) =~= links@);
        touching
    }

    /// The stable key of a port: its node's name and type, its own name,
    /// direction and media type. `None` when the port or its node is gone.
    pub fn port_key(&self, port_id: PortId) -> (key: Option<PortKey>)
        ensures
            match key {
                Some(k) => spec_port_key(self, port_id) == Some(key_view(k)),
                None => spec_port_key(self, port_id) is None,
            },
            match key {
                Some(key) => {
                    &&& self.ports@.contains_key(port_id.0)
                    &&& self.nodes@.contains_key(self.ports@[port_id.0].node_id.0)
                    &&& key.node_name@ == self.nodes@[self.ports@[port_id.0].node_id.0].name@
                    &&& key.node_serial is None
                    &&& key.node_type == self.nodes@[self.ports@[port_id.0].node_id.0].node_type
                    &&& key.port_name@ == self.ports@[port_id.0].name@
                    &&& key.channel is None
                    &&& key.direction == self.ports@[port_id.0].direction
                    &&& key.port_type == self.ports@[port_id.0].port_type
                    &&& spec_port_matches(self, port_id, &key)
                },
                None => !(self.ports@.contains_key(port_id.0) && self.nodes@.contains_key(
                    self.ports@[port_id.0].node_id.0,
                )),
            },
    {
        let port = match self.ports.get(port_id.0) {
            Some(port) => port,
            None => return None,
        };
        let node = match self.nodes.get(port.node_id.0) {
            Some(node) => node,
            None => return None,
        };
        Some(
            PortKey {
                node_name: node.name.clone(),
                node_serial: None,
                node_type: node.node_type,
                port_name: port.name.clone(),
                channel: None,
                direction: port.direction,
                port_type: port.port_type,
            },
        )
    }

    /// Whether a port of this graph is the one `key` names.
    pub fn port_matches(&self, port_id: PortId, key: &PortKey) -> (matches: bool)
        ensures
            matches == spec_port_matches(self, port_id, key),
    {
        let port = match self.ports.get(port_id.0) {
            Some(port) => port,
            None => return false,
        };
        let node = match self.nodes.get(port.node_id.0) {
            Some(node) => node,
            None => return false,
        };
        node.name == key.node_name && node.node_type == key.node_type && port.name == key.port_name
            && port.direction == key.direction && port.port_type == key.port_type
    }

    /// The first link, in id order, running between the ports two keys name.
    pub fn find_link_by_keys(&self, output: &PortKey, input: &PortKey) -> (found: Option<Link>)
        ensures
            found is Some <==> spec_keys_linked(self, output, input),
            match found {
                Some(link) => {
                    &&& self.links@.contains_key(link.id.0)
                    &&& self.links@[link.id.0] == link
                    &&& spec_link_matches(self, link, output, input)
                    &&& exists|i: int|
                        0 <= i < self.links.entries().len() && self.links.entries()[i] == link
                            && forall|j: int| 0 <= j < i ==> !spec_link_matches(self, #[trigger] self.links.entries()[j], output, input)
                },
                None => forall|i: int| 0 <= i < self.links.entries().len() ==> !spec_link_matches(
                    self,
                    #[trigger] self.links.entries()[i],
                    output,
                    input,
                ),
            },
    {
        let links = self.links.values();
        let mut i: usize = 0;
        while i < links.len()
            invariant
                i <= links@.len(),
                links@ == self.links.entries(),
                keys_increasing(links@),
                seq_map(links@) == self.links@,
                forall|j: int| 0 <= j < i ==> !spec_link_matches(self, #[trigger] links@[j], output, input),
            decreases links@.len() - i,
        {
            let link = links[i];
            if self.port_matches(link.output_port, output) && self.port_matches(link.input_port, input) {
                proof {
                    lemma_seq_map_index(links@, i as int);
                }
                return Some(link);
            }
            i = i + 1;
        }
        proof {
            assert forall|k: u64| #[trigger] self.links@.contains_key(k) implies !spec_link_matches(
                self,
                self.links@[k],
                output,
                input,
            ) by {
                let j = choose|j: int| 0 <= j < links@.len() && links@[j].id_key() == k;
                lemma_seq_map_index(links@, j);
            }
        }
        None
    }

    /// The first port, in id order, that `key` names.
    pub fn resolve_port_key(&self, key: &PortKey) -> (found: Option<PortId>)
        ensures
            match found {
                Some(id) => {
                    &&& spec_port_matches(self, id, key)
                    &&& exists|i: int|
                        0 <= i < self.ports.entries().len() && self.ports.entries()[i].id == id
                            && forall|j: int| 0 <= j < i ==> !spec_port_matches(self, #[trigger] self.ports.entries()[j].id, key)
                },
                None => forall|i: int| 0 <= i < self.ports.entries().len() ==> !spec_port_matches(
                    self,
                    #[trigger] self.ports.entries()[i].id,
                    key,
                ),
            },
    {
        let ports = self.ports.values();
        let mut i: usize = 0;
        while i < ports.len()
            invariant
                i <= ports@.len(),
                ports@ == self.ports.entries(),
                forall|j: int| 0 <= j < i ==> !spec_port_matches(self, #[trigger] ports@[j].id, key),
            decreases ports@.len() - i,
        {
            let id = ports[i].id;
            if self.port_matches(id, key) {
                return Some(id);
            }
            i = i + 1;
        }
        None
    }
}

/// No two links run between the same pair of ports.
pub open spec fn spec_pairs_unique(links: Map<u64, Link>) -> bool {
    forall|a: u64, b: u64|
        #![trigger links[a], links[b]]
        links.contains_key(a) && links.contains_key(b) && a != b ==> !(links[a].output_port
            == links[b].output_port && links[a].input_port == links[b].input_port)
}

/// Every link runs from a source port to a sink port of the same media type.
pub open spec fn spec_links_well_typed(g: &Graph) -> bool {
    forall|k: u64|
        #[trigger] g.links@.contains_key(k) ==> {
            let l = g.links@[k];
            &&& g.ports@.contains_key(l.output_port.0)
            &&& g.ports@.contains_key(l.input_port.0)
            &&& g.ports@[l.output_port.0].direction == Direction::Source
            &&& g.ports@[l.input_port.0].direction == Direction::Sink
            &&& g.ports@[l.output_port.0].port_type == g.ports@[l.input_port.0].port_type
        }
}

/// A link that `add_link` accepts keeps every pair of ports linked at most
/// once and every link running from a source to a sink of one media type.
pub proof fn lemma_add_link_keeps_graph_valid(g: &Graph, link_id: LinkId, output: PortId, input: PortId, after: &Graph)
    requires
        spec_pairs_unique(g.links@),
        spec_links_well_typed(g),
        spec_add_link_error(g, link_id, output, input) is None,
        after.nodes@ == g.nodes@,
        after.ports@ == g.ports@,
        after.links@ == g.links@.insert(link_id.0, Link { id: link_id, output_port: output, input_port: input }),
    ensures
        spec_pairs_unique(after.links@),
        spec_links_well_typed(after),
{
    let l = Link { id: link_id, output_port: output, input_port: input };
    assert forall|a: u64, b: u64|
        #![trigger after.links@[a], after.links@[b]]
        after.links@.contains_key(a) && after.links@.contains_key(b) && a != b implies !(
        after.links@[a].output_port == after.links@[b].output_port && after.links@[a].input_port
            == after.links@[b].input_port) by {
        if a == link_id.0 {
            assert(g.links@.contains_key(b));
            assert(!(g.links@[b].output_port == output && g.links@[b].input_port == input));
        } else if b == link_id.0 {
            assert(g.links@.contains_key(a));
            assert(!(g.links@[a].output_port == output && g.links@[a].input_port == input));
        } else {
            assert(g.links@[a] == after.links@[a] && g.links@[b] == after.links@[b]);
        }
    }
    assert forall|k: u64| #[trigger] after.links@.contains_key(k) implies {
        let m = after.links@[k];
        &&& after.ports@.contains_key(m.output_port.0)
        &&& after.ports@.contains_key(m.input_port.0)
        &&& after.ports@[m.output_port.0].direction == Direction::Source
        &&& after.ports@[m.input_port.0].direction == Direction::Sink
        &&& after.ports@[m.output_port.0].port_type == after.ports@[m.input_port.0].port_type
    } by {
        if k != link_id.0 {
            assert(g.links@.contains_key(k));
        }
    }
}

/// Removing a link keeps both properties.
pub proof fn lemma_remove_link_keeps_graph_valid(g: &Graph, link_id: LinkId, after: &Graph)
    requires
        spec_pairs_unique(g.links@),
        spec_links_well_typed(g),
        after.nodes@ == g.nodes@,
        after.ports@ == g.ports@,
        after.links@ == g.links@.remove(link_id.0),
    ensures
        spec_pairs_unique(after.links@),
        spec_links_well_typed(after),
{
    assert forall|a: u64, b: u64|
        #![trigger after.links@[a], after.links@[b]]
        after.links@.contains_key(a) && after.links@.contains_key(b) && a != b implies !(
        after.links@[a].output_port == after.links@[b].output_port && after.links@[a].input_port
            == after.links@[b].input_port) by {
        assert(g.links@[a] == after.links@[a] && g.links@[b] == after.links@[b]);
    }
    assert forall|k: u64| #[trigger] after.links@.contains_key(k) implies {
        let m = after.links@[k];
        &&& after.ports@.contains_key(m.output_port.0)
        &&& after.ports@.contains_key(m.input_port.0)
        &&& after.ports@[m.output_port.0].direction == Direction::Source
        &&& after.ports@[m.input_port.0].direction == Direction::Sink
        &&& after.ports@[m.output_port.0].port_type == after.ports@[m.input_port.0].port_type
    } by {
        assert(g.links@.contains_key(k));
    }
}

/// Removing the link that was just added gives the links back as they
/// were: what `add_link` (or a static driver's `connect`) inserts under a
/// fresh id, `remove_link` (or `disconnect`) of that id takes out again.
pub proof fn lemma_add_then_remove_restores(links: Map<u64, Link>, link: Link)
    requires
        !links.contains_key(link.id.0),
    ensures
        links.insert(link.id.0, link).remove(link.id.0) == links,
{
    assert(links.insert(link.id.0, link).remove(link.id.0) =~= links);
}

/// `add_link` refuses a second link between the same ports.
pub proof fn lemma_connected_pair_is_refused(g: &Graph, link_id: LinkId, output: PortId, input: PortId)
    requires
        spec_connected(g.links@, output, input),
    ensures
        spec_add_link_error(g, link_id, output, input) is Some,
{
}

} // verus!
