//! Saved connection sets and their activation.
//!
//! A patchbay remembers connections by port ids and, when the graph knows
//! them, by node and port names, so a rule can be re-applied after the
//! backend renumbers its objects between sessions.

use vstd::prelude::*;
use crate::backend::BackendError;
use crate::driver::{resolve_key, spec_key_resolves, GraphDriver};
use crate::graph::{
    key_view, spec_keys_linked, spec_port_key, spec_port_matches, Direction, Graph, KeyView, Link, NodeType,
    PortKey, PortType,
};
use crate::ids::{LinkId, PortId};

verus! {

#[derive(Debug)]
pub struct Patchbay {
    pub version: u32,
    pub name: String,
    pub connections: Vec<PatchConnection>,
}

#[derive(Debug)]
pub struct PatchConnection {
    pub output_port: PortId,
    pub input_port: PortId,
    pub pinned: bool,
    pub node_type: NodeType,
    pub port_type: PortType,
    pub output_node: String,
    pub output_name: String,
    pub input_node: String,
    pub input_name: String,
}

/// What an activation did.
#[derive(Debug)]
pub struct ActivationReport {
    pub connected: usize,
    pub already_present: usize,
    pub disconnected: usize,
    pub failed: Vec<String>,
}

/// A saved connection, as plain values.
pub type ConnView = (PortId, PortId, bool, NodeType, PortType, Seq<char>, Seq<char>, Seq<char>, Seq<char>);

pub open spec fn conn_view(c: PatchConnection) -> ConnView {
    (
        c.output_port,
        c.input_port,
        c.pinned,
        c.node_type,
        c.port_type,
        c.output_node@,
        c.output_name@,
        c.input_node@,
        c.input_name@,
    )
}

pub open spec fn conns_view(s: Seq<PatchConnection>) -> Seq<ConnView> {
    s.map_values(|c: PatchConnection| conn_view(c))
}

/// A rule for a pair of ports known only by id.
pub open spec fn spec_bare_connection(output: PortId, input: PortId, pinned: bool) -> ConnView {
    (output, input, pinned, NodeType::PipeWire, PortType::Audio, Seq::empty(), Seq::empty(), Seq::empty(), Seq::empty())
}

/// A rule moved to a pair of ports, with the given pinning.
pub open spec fn with_ports(c: ConnView, output: PortId, input: PortId, pinned: bool) -> ConnView {
    (output, input, pinned, c.3, c.4, c.5, c.6, c.7, c.8)
}

/// Whether a saved rule is for the pair of ports.
pub open spec fn same_ports(c: ConnView, output: PortId, input: PortId) -> bool {
    c.0 == output && c.1 == input
}

/// The index of the first rule for the pair of ports.
pub open spec fn first_for_ports(conns: Seq<ConnView>, output: PortId, input: PortId) -> int {
    choose|i: int|
        0 <= i < conns.len() && same_ports(conns[i], output, input) && forall|j: int|
            0 <= j < i ==> !same_ports(#[trigger] conns[j], output, input)
}

/// Remember a connection by port ids: a rule already saved for the pair is
/// pinned if asked, otherwise a new rule is appended.
pub open spec fn spec_add_connection(conns: Seq<ConnView>, output: PortId, input: PortId, pinned: bool) -> Seq<ConnView> {
    if exists|i: int| 0 <= i < conns.len() && same_ports(conns[i], output, input) {
        let i = first_for_ports(conns, output, input);
        let c = conns[i];
        conns.update(i, (c.0, c.1, c.2 || pinned, c.3, c.4, c.5, c.6, c.7, c.8))
    } else {
        conns.push(spec_bare_connection(output, input, pinned))
    }
}

/// The names a graph gives a pair of ports: output node, output port,
/// input node, input port; with the output node's type and the output
/// port's media type.
pub open spec fn spec_port_names(g: &Graph, output: PortId, input: PortId) -> Option<(NodeType, PortType, Seq<char>, Seq<char>, Seq<char>, Seq<char>)> {
    if g.ports@.contains_key(output.0) && g.ports@.contains_key(input.0) && g.nodes@.contains_key(
        g.ports@[output.0].node_id.0,
    ) && g.nodes@.contains_key(g.ports@[input.0].node_id.0) {
        let o = g.ports@[output.0];
        let i = g.ports@[input.0];
        let on = g.nodes@[o.node_id.0];
        let inn = g.nodes@[i.node_id.0];
        Some((on.node_type, o.port_type, on.name@, o.name@, inn.name@, i.name@))
    } else {
        None
    }
}

/// Whether a saved rule is for the pair, by ids or by all four names.
pub open spec fn same_pair(c: ConnView, output: PortId, input: PortId, names: (NodeType, PortType, Seq<char>, Seq<char>, Seq<char>, Seq<char>)) -> bool {
    same_ports(c, output, input) || (c.5 == names.2 && c.6 == names.3 && c.7 == names.4 && c.8
        == names.5)
}

pub open spec fn first_for_pair(conns: Seq<ConnView>, output: PortId, input: PortId, names: (NodeType, PortType, Seq<char>, Seq<char>, Seq<char>, Seq<char>)) -> int {
    choose|i: int|
        0 <= i < conns.len() && same_pair(conns[i], output, input, names) && forall|j: int|
            0 <= j < i ==> !same_pair(#[trigger] conns[j], output, input, names)
}

/// Remember a connection by ids and, when the graph knows both ports, by
/// names. A rule matching either way is updated to the current ids.
pub open spec fn spec_add_graph_connection(conns: Seq<ConnView>, g: &Graph, output: PortId, input: PortId, pinned: bool) -> Seq<ConnView> {
    match spec_port_names(g, output, input) {
        None => spec_add_connection(conns, output, input, pinned),
        Some(names) => if exists|i: int| 0 <= i < conns.len() && same_pair(conns[i], output, input, names) {
            let i = first_for_pair(conns, output, input, names);
            let c = conns[i];
            conns.update(i, (output, input, c.2 || pinned, c.3, c.4, c.5, c.6, c.7, c.8))
        } else {
            conns.push((output, input, pinned, names.0, names.1, names.2, names.3, names.4, names.5))
        },
    }
}

/// The rules a snapshot of links leaves, each link added in turn.
pub open spec fn spec_snapshot(conns: Seq<ConnView>, g: &Graph, links: Seq<Link>, pinned: bool) -> Seq<ConnView>
    decreases links.len(),
{
    if links.len() == 0 {
        conns
    } else {
        spec_snapshot(
            spec_add_graph_connection(conns, g, links[0].output_port, links[0].input_port, pinned),
            g,
            links.drop_first(),
            pinned,
        )
    }
}

impl PatchConnection {
    /// A rule for a pair of ports known only by id.
    pub fn bare(output_port: PortId, input_port: PortId, pinned: bool) -> (connection: Self)
        ensures
            conn_view(connection) == spec_bare_connection(output_port, input_port, pinned),
    {
        PatchConnection {
            output_port,
            input_port,
            pinned,
            node_type: NodeType::PipeWire,
            port_type: PortType::Audio,
            output_node: String::new(),
            output_name: String::new(),
            input_node: String::new(),
            input_name: String::new(),
        }
    }
}

impl Patchbay {
    pub fn new(name: &str) -> (patchbay: Self)
        ensures
            patchbay.version == 1,
            patchbay.name@ == name@,
            patchbay.connections@.len() == 0,
    {
        Patchbay { version: 1, name: name.to_owned(), connections: Vec::new() }
    }

    fn find_ports(&self, output_port: PortId, input_port: PortId) -> (found: Option<usize>)
        ensures
            match found {
                Some(i) => i < self.connections@.len() && same_ports(
                    conns_view(self.connections@)[i as int],
                    output_port,
                    input_port,
                ) && forall|j: int|
                    0 <= j < i ==> !same_ports(
                        #[trigger] conns_view(self.connections@)[j],
                        output_port,
                        input_port,
                    ),
                None => forall|j: int|
                    0 <= j < self.connections@.len() ==> !same_ports(
                        #[trigger] conns_view(self.connections@)[j],
                        output_port,
                        input_port,
                    ),
            },
    {
        let ghost v = conns_view(self.connections@);
        let mut i: usize = 0;
        while i < self.connections.len()
            invariant
                i <= self.connections@.len(),
                v == conns_view(self.connections@),
                forall|j: int| 0 <= j < i ==> !same_ports(#[trigger] v[j], output_port, input_port),
            decreases self.connections@.len() - i,
        {
            if self.connections[i].output_port == output_port && self.connections[i].input_port
                == input_port {
                return Some(i);
            }
            i = i + 1;
        }
        None
    }

    /// Set a rule's pinning and ports, keeping its names.
    fn update_rule(&mut self, i: usize, output_port: PortId, input_port: PortId, pinned: bool)
        requires
            i < old(self).connections@.len(),
        ensures
            final(self).version == old(self).version,
            final(self).name == old(self).name,
            conns_view(final(self).connections@) == conns_view(old(self).connections@).update(
                i as int,
                with_ports(conns_view(old(self).connections@)[i as int], output_port, input_port, pinned),
            ),
    {
        let mut connections = Vec::new();
        std::mem::swap(&mut connections, &mut self.connections);
        let ghost before = connections@;
        let mut rule = connections.remove(i);
        rule.output_port = output_port;
        rule.input_port = input_port;
        rule.pinned = pinned;
        connections.insert(i, rule);
        proof {
            assert(conns_view(connections@) =~= conns_view(before).update(
                i as int,
                with_ports(conns_view(before)[i as int], output_port, input_port, pinned),
            ));
        }
        self.connections = connections;
    }

    /// Remember a connection by port ids; an existing rule for the pair is
    /// pinned if asked.
    pub fn add_connection(&mut self, output_port: PortId, input_port: PortId, pinned: bool)
        ensures
            final(self).version == old(self).version,
            final(self).name == old(self).name,
            conns_view(final(self).connections@) == spec_add_connection(
                conns_view(old(self).connections@),
                output_port,
                input_port,
                pinned,
            ),
    {
        let ghost v = conns_view(self.connections@);
        match self.find_ports(output_port, input_port) {
            Some(i) => {
                let now = self.connections[i].pinned || pinned;
                proof {
                    let k = first_for_ports(v, output_port, input_port);
                    assert(0 <= i < v.len() && same_ports(v[i as int], output_port, input_port));
                    if k != i {
                        if k < i {
                            assert(!same_ports(v[k], output_port, input_port));
                        } else {
                            assert(!same_ports(v[i as int], output_port, input_port));
                        }
                    }
                }
                self.update_rule(i, output_port, input_port, now);
            },
            None => {
                let rule = PatchConnection::bare(output_port, input_port, pinned);
                self.connections.push(rule);
                proof {
                    assert(conns_view(self.connections@) =~= v.push(conn_view(rule)));
                }
            },
        }
    }

    fn find_pair(
        &self,
        output_port: PortId,
        input_port: PortId,
        output_node: &String,
        output_name: &String,
        input_node: &String,
        input_name: &String,
    ) -> (found: Option<usize>)
        ensures
            ({
                let names = (
                    NodeType::PipeWire,
                    PortType::Audio,
                    output_node@,
                    output_name@,
                    input_node@,
                    input_name@,
                );
                let v = conns_view(self.connections@);
                match found {
                    Some(i) => i < v.len() && same_pair(v[i as int], output_port, input_port, names)
                        && forall|j: int|
                        0 <= j < i ==> !same_pair(#[trigger] v[j], output_port, input_port, names),
                    None => forall|j: int|
                        0 <= j < v.len() ==> !same_pair(#[trigger] v[j], output_port, input_port, names),
                }
            }),
    {
        let ghost names = (
            NodeType::PipeWire,
            PortType::Audio,
            output_node@,
            output_name@,
            input_node@,
            input_name@,
        );
        let ghost v = conns_view(self.connections@);
        let mut i: usize = 0;
        while i < self.connections.len()
            invariant
                i <= self.connections@.len(),
                v == conns_view(self.connections@),
                names == (
                    NodeType::PipeWire,
                    PortType::Audio,
                    output_node@,
                    output_name@,
                    input_node@,
                    input_name@,
                ),
                forall|j: int| 0 <= j < i ==> !same_pair(#[trigger] v[j], output_port, input_port, names),
            decreases self.connections@.len() - i,
        {
            let c = &self.connections[i];
            let by_ports = c.output_port == output_port && c.input_port == input_port;
            let by_names = c.output_node.eq(output_node) && c.output_name.eq(output_name)
                && c.input_node.eq(input_node) && c.input_name.eq(input_name);
            assert(v[i as int] == conn_view(self.connections@[i as int]));
            if by_ports || by_names {
                return Some(i);
            }
            i = i + 1;
        }
        None
    }

    /// Remember a connection by ids and, when the graph knows both ports, by
    /// node and port names; a rule matching either way is updated to the
    /// current ids.
    pub fn add_graph_connection(&mut self, graph: &Graph, output_port: PortId, input_port: PortId, pinned: bool)
        ensures
            final(self).version == old(self).version,
            final(self).name == old(self).name,
            conns_view(final(self).connections@) == spec_add_graph_connection(
                conns_view(old(self).connections@),
                graph,
                output_port,
                input_port,
                pinned,
            ),
    {
        let output = match graph.port(output_port) {
            Some(port) => port,
            None => {
                self.add_connection(output_port, input_port, pinned);
                return;
            },
        };
        let input = match graph.port(input_port) {
            Some(port) => port,
            None => {
                self.add_connection(output_port, input_port, pinned);
                return;
            },
        };
        let output_node = match graph.node(output.node_id) {
            Some(node) => node,
            None => {
                self.add_connection(output_port, input_port, pinned);
                return;
            },
        };
        let input_node = match graph.node(input.node_id) {
            Some(node) => node,
            None => {
                self.add_connection(output_port, input_port, pinned);
                return;
            },
        };
        let ghost v = conns_view(self.connections@);
        let ghost names = spec_port_names(graph, output_port, input_port).unwrap();
        match self.find_pair(
            output_port,
            input_port,
            &output_node.name,
            &output.name,
            &input_node.name,
            &input.name,
        ) {
            Some(i) => {
                let now = self.connections[i].pinned || pinned;
                proof {
                    let k = first_for_pair(v, output_port, input_port, names);
                    assert(0 <= i < v.len() && same_pair(v[i as int], output_port, input_port, names));
                    if k != i {
                        if k < i {
                            assert(!same_pair(v[k], output_port, input_port, names));
                        } else {
                            assert(!same_pair(v[i as int], output_port, input_port, names));
                        }
                    }
                }
                self.update_rule(i, output_port, input_port, now);
            },
            None => {
                let rule = PatchConnection {
                    output_port,
                    input_port,
                    pinned,
                    node_type: output_node.node_type,
                    port_type: output.port_type,
                    output_node: output_node.name.clone(),
                    output_name: output.name.clone(),
                    input_node: input_node.name.clone(),
                    input_name: input.name.clone(),
                };
                self.connections.push(rule);
                proof {
                    assert(conns_view(self.connections@) =~= v.push(conn_view(rule)));
                }
            },
        }
    }

    /// Forget every rule for the pair of ports; whether any was forgotten.
    pub fn remove_connection(&mut self, output_port: PortId, input_port: PortId) -> (removed: bool)
        ensures
            final(self).version == old(self).version,
            final(self).name == old(self).name,
            conns_view(final(self).connections@) == conns_view(old(self).connections@).filter(
                |c: ConnView| !same_ports(c, output_port, input_port),
            ),
            removed == (final(self).connections@.len() != old(self).connections@.len()),
    {
        let ghost pred = |c: ConnView| !same_ports(c, output_port, input_port);
        let mut connections = Vec::new();
        std::mem::swap(&mut connections, &mut self.connections);
        let ghost all = conns_view(connections@);
        let original_len = connections.len();
        let mut kept: Vec<PatchConnection> = Vec::new();
        let mut i: usize = 0;
        while i < connections.len()
            invariant
                i <= connections@.len(),
                all == conns_view(connections@),
                pred == (|c: ConnView| !same_ports(c, output_port, input_port)),
                conns_view(kept@) == all.subrange(0, i as int).filter(pred),
            decreases connections@.len() - i,
        {
            let c = &connections[i];
            proof {
                assert(all.subrange(0, i + 1) =~= all.subrange(0, i as int).push(all[i as int]));
                all.subrange(0, i as int).lemma_filter_push(all[i as int], pred);
            }
            if c.output_port != output_port || c.input_port != input_port {
                let rule = PatchConnection {
                    output_port: c.output_port,
                    input_port: c.input_port,
                    pinned: c.pinned,
                    node_type: c.node_type,
                    port_type: c.port_type,
                    output_node: c.output_node.clone(),
                    output_name: c.output_name.clone(),
                    input_node: c.input_node.clone(),
                    input_name: c.input_name.clone(),
                };
                let ghost before = kept@;
                kept.push(rule);
                assert(conns_view(kept@) =~= conns_view(before).push(conn_view(rule)));
            }
            i = i + 1;
        }
        assert(all.subrange(0, all.len() as int) =~= all);
        let now = kept.len();
        self.connections = kept;
        original_len != now
    }

    /// Replace the rules with one for each link of the graph, in link id
    /// order.
    pub fn snapshot_graph(&mut self, graph: &Graph, pinned: bool)
        ensures
            final(self).version == old(self).version,
            final(self).name == old(self).name,
            conns_view(final(self).connections@) == spec_snapshot(
                Seq::empty(),
                graph,
                graph.links.entries(),
                pinned,
            ),
    {
        self.connections = Vec::new();
        let links = graph.links.values();
        let mut i: usize = 0;
        assert(conns_view(self.connections@) =~= Seq::<ConnView>::empty());
        assert(links@.subrange(0, links@.len() as int) =~= links@);
        while i < links.len()
            invariant
                i <= links@.len(),
                links@ == graph.links.entries(),
                self.version == old(self).version,
                self.name == old(self).name,
                spec_snapshot(Seq::empty(), graph, links@, pinned) == spec_snapshot(
                    conns_view(self.connections@),
                    graph,
                    links@.subrange(i as int, links@.len() as int),
                    pinned,
                ),
            decreases links@.len() - i,
        {
            let link = links[i];
            let ghost rest = links@.subrange(i as int, links@.len() as int);
            assert(rest.drop_first() =~= links@.subrange(i + 1, links@.len() as int));
            self.add_graph_connection(graph, link.output_port, link.input_port, pinned);
            i = i + 1;
        }
        assert(links@.subrange(i as int, links@.len() as int) =~= Seq::<Link>::empty());
    }
}

/// Whether a port of the graph fits a saved rule's end: its name, the
/// direction of that end, and the rule's media type unless that is unknown.
pub open spec fn spec_port_fits(g: &Graph, id: PortId, name: Seq<char>, direction: Direction, port_type: PortType) -> bool {
    &&& g.ports@.contains_key(id.0)
    &&& g.ports@[id.0].name@ == name
    &&& g.ports@[id.0].direction == direction
    &&& (port_type == PortType::Unknown || g.ports@[id.0].port_type == port_type)
}

/// The first of a node's ports, in its own order, that fits.
pub open spec fn spec_first_port(g: &Graph, ids: Seq<PortId>, name: Seq<char>, direction: Direction, port_type: PortType) -> Option<PortId>
    decreases ids.len(),
{
    if ids.len() == 0 {
        None
    } else if spec_port_fits(g, ids[0], name, direction, port_type) {
        Some(ids[0])
    } else {
        spec_first_port(g, ids.drop_first(), name, direction, port_type)
    }
}

/// The first node, in id order, with this type and name.
pub open spec fn spec_first_node(nodes: Seq<crate::graph::Node>, node_type: NodeType, name: Seq<char>) -> Option<crate::graph::Node>
    decreases nodes.len(),
{
    if nodes.len() == 0 {
        None
    } else if nodes[0].node_type == node_type && nodes[0].name@ == name {
        Some(nodes[0])
    } else {
        spec_first_node(nodes.drop_first(), node_type, name)
    }
}

/// The ports a saved rule names in the graph. A rule with all four names
/// is resolved by names only: the first node of its type with each name,
/// then that node's first fitting port. A rule without names falls back to
/// its port ids, which must still run from a source to a sink.
pub open spec fn spec_resolve(g: &Graph, c: ConnView) -> Option<(PortId, PortId)> {
    let has_names = c.5.len() > 0 && c.6.len() > 0 && c.7.len() > 0 && c.8.len() > 0;
    if has_names {
        match (spec_first_node(g.nodes.entries(), c.3, c.5), spec_first_node(g.nodes.entries(), c.3, c.7)) {
            (Some(on), Some(inn)) => match (
                spec_first_port(g, on.ports@, c.6, Direction::Source, c.4),
                spec_first_port(g, inn.ports@, c.8, Direction::Sink, c.4),
            ) {
                (Some(o), Some(i)) => Some((o, i)),
                _ => None,
            },
            _ => None,
        }
    } else if g.ports@.contains_key(c.0.0) && g.ports@.contains_key(c.1.0) && g.ports@[c.0.0].direction
        == Direction::Source && g.ports@[c.1.0].direction == Direction::Sink {
        Some((c.0, c.1))
    } else {
        None
    }
}

fn first_node<'a>(graph: &'a Graph, node_type: NodeType, name: &String) -> (found: Option<&'a crate::graph::Node>)
    ensures
        match (found, spec_first_node(graph.nodes.entries(), node_type, name@)) {
            (Some(n), Some(m)) => *n == m,
            (None, None) => true,
            _ => false,
        },
{
    let nodes = graph.nodes.values();
    let mut i: usize = 0;
    assert(nodes@.subrange(0, nodes@.len() as int) =~= nodes@);
    while i < nodes.len()
        invariant
            i <= nodes@.len(),
            nodes@ == graph.nodes.entries(),
            spec_first_node(nodes@, node_type, name@) == spec_first_node(
                nodes@.subrange(i as int, nodes@.len() as int),
                node_type,
                name@,
            ),
        decreases nodes@.len() - i,
    {
        let ghost rest = nodes@.subrange(i as int, nodes@.len() as int);
        assert(rest[0] == nodes@[i as int]);
        assert(rest.drop_first() =~= nodes@.subrange(i + 1, nodes@.len() as int));
        let node = &nodes[i];
        if node.node_type == node_type && node.name.eq(name) {
            return Some(node);
        }
        i = i + 1;
    }
    None
}

fn first_port(graph: &Graph, ids: &Vec<PortId>, name: &String, direction: Direction, port_type: PortType) -> (found: Option<PortId>)
    ensures
        found == spec_first_port(graph, ids@, name@, direction, port_type),
{
    let mut i: usize = 0;
    assert(ids@.subrange(0, ids@.len() as int) =~= ids@);
    while i < ids.len()
        invariant
            i <= ids@.len(),
            spec_first_port(graph, ids@, name@, direction, port_type) == spec_first_port(
                graph,
                ids@.subrange(i as int, ids@.len() as int),
                name@,
                direction,
                port_type,
            ),
        decreases ids@.len() - i,
    {
        let ghost rest = ids@.subrange(i as int, ids@.len() as int);
        assert(rest[0] == ids@[i as int]);
        assert(rest.drop_first() =~= ids@.subrange(i + 1, ids@.len() as int));
        match graph.port(ids[i]) {
            Some(port) => {
                if port.name.eq(name) && port.direction == direction && (port_type == PortType::Unknown
                    || port.port_type == port_type) {
                    return Some(ids[i]);
                }
            },
            None => {},
        }
        i = i + 1;
    }
    None
}

impl Patchbay {
    /// The ports a saved rule names in the graph, if they can be found.
    pub fn resolve_connection(&self, graph: &Graph, connection: &PatchConnection) -> (ports: Option<(PortId, PortId)>)
        ensures
            ports == spec_resolve(graph, conn_view(*connection)),
    {
        let has_names = !connection.output_node.as_str().is_empty()
            && !connection.output_name.as_str().is_empty()
            && !connection.input_node.as_str().is_empty()
            && !connection.input_name.as_str().is_empty();
        if has_names {
            let output_node = match first_node(graph, connection.node_type, &connection.output_node) {
                Some(node) => node,
                None => return None,
            };
            let input_node = match first_node(graph, connection.node_type, &connection.input_node) {
                Some(node) => node,
                None => return None,
            };
            let output = match first_port(
                graph,
                &output_node.ports,
                &connection.output_name,
                Direction::Source,
                connection.port_type,
            ) {
                Some(id) => id,
                None => return None,
            };
            let input = match first_port(
                graph,
                &input_node.ports,
                &connection.input_name,
                Direction::Sink,
                connection.port_type,
            ) {
                Some(id) => id,
                None => return None,
            };
            return Some((output, input));
        }
        let output = match graph.port(connection.output_port) {
            Some(port) => port,
            None => return None,
        };
        let input = match graph.port(connection.input_port) {
            Some(port) => port,
            None => return None,
        };
        if output.direction == Direction::Source && input.direction == Direction::Sink {
            Some((output.id, input.id))
        } else {
            None
        }
    }
}

/// The keys of the two ports a rule resolves to in `g`, when it resolves
/// and both ports have keys.
pub open spec fn spec_rule_keys(g: &Graph, c: ConnView) -> Option<(KeyView, KeyView)> {
    match spec_resolve(g, c) {
        Some((o, i)) => match (spec_port_key(g, o), spec_port_key(g, i)) {
            (Some(a), Some(b)) => Some((a, b)),
            _ => None,
        },
        None => None,
    }
}

/// Whether some link of `g` runs from a port with key `a` to one with key `b`.
pub open spec fn spec_views_linked(g: &Graph, a: KeyView, b: KeyView) -> bool {
    exists|k: u64|
        #[trigger] g.links@.contains_key(k) && spec_port_key(g, g.links@[k].output_port) == Some(a)
            && spec_port_key(g, g.links@[k].input_port) == Some(b)
}

/// Whether every rule that resolves in `g` is linked there.
pub open spec fn spec_rules_linked(rules: Seq<ConnView>, g: &Graph) -> bool {
    forall|r: int|
        0 <= r < rules.len() ==> match spec_rule_keys(g, #[trigger] rules[r]) {
            Some((a, b)) => spec_views_linked(g, a, b),
            None => true,
        }
}

/// Where a node's ports are looked up depends only on the ports.
proof fn lemma_first_port_on_same_ports(
    g1: &Graph,
    g2: &Graph,
    ids: Seq<PortId>,
    name: Seq<char>,
    direction: Direction,
    port_type: PortType,
)
    requires
        g1.ports == g2.ports,
    ensures
        spec_first_port(g1, ids, name, direction, port_type) == spec_first_port(g2, ids, name, direction, port_type),
    decreases ids.len(),
{
    if ids.len() > 0 {
        lemma_first_port_on_same_ports(g1, g2, ids.drop_first(), name, direction, port_type);
    }
}

/// How a rule resolves depends only on the nodes and the ports.
proof fn lemma_rule_keys_on_same_nodes_and_ports(g1: &Graph, g2: &Graph, c: ConnView)
    requires
        g1.nodes == g2.nodes,
        g1.ports == g2.ports,
    ensures
        spec_rule_keys(g1, c) == spec_rule_keys(g2, c),
{
    let n1 = spec_first_node(g1.nodes.entries(), c.3, c.5);
    let n2 = spec_first_node(g1.nodes.entries(), c.3, c.7);
    if n1 is Some {
        lemma_first_port_on_same_ports(g1, g2, n1->0.ports@, c.6, Direction::Source, c.4);
    }
    if n2 is Some {
        lemma_first_port_on_same_ports(g1, g2, n2->0.ports@, c.8, Direction::Sink, c.4);
    }
    assert(spec_resolve(g1, c) == spec_resolve(g2, c));
}

/// Two keys taken from ports are linked exactly when a link runs between
/// ports with those keys.
proof fn lemma_keys_linked_as_views(g: &Graph, a: &PortKey, b: &PortKey)
    requires
        a.node_serial is None && a.channel is None,
        b.node_serial is None && b.channel is None,
    ensures
        spec_keys_linked(g, a, b) == spec_views_linked(g, key_view(*a), key_view(*b)),
{
    if spec_keys_linked(g, a, b) {
        let k = choose|k: u64|
            #[trigger] g.links@.contains_key(k) && crate::graph::spec_link_matches(g, g.links@[k], a, b);
        assert(spec_port_key(g, g.links@[k].output_port) == Some(key_view(*a)));
        assert(spec_port_key(g, g.links@[k].input_port) == Some(key_view(*b)));
    }
    if spec_views_linked(g, key_view(*a), key_view(*b)) {
        let k = choose|k: u64|
            #[trigger] g.links@.contains_key(k) && spec_port_key(g, g.links@[k].output_port) == Some(
                key_view(*a),
            ) && spec_port_key(g, g.links@[k].input_port) == Some(key_view(*b));
        assert(crate::graph::spec_link_matches(g, g.links@[k], a, b));
    }
}

/// What an activation that succeeded did on a driver whose graph only it
/// changes, without auto-disconnect: nodes and ports are as they were; if no
/// rule failed, every rule that resolves is linked; and if every rule was
/// linked already and nothing was to be disconnected, nothing was connected
/// and the graph is as it was.
pub open spec fn spec_activated(
    rules: Seq<ConnView>,
    before: Graph,
    after: Graph,
    report: ActivationReport,
    exclusive: bool,
) -> bool {
    &&& after.nodes == before.nodes
    &&& after.ports == before.ports
    &&& report.failed@.len() == 0 ==> spec_rules_linked(rules, &after)
    &&& !exclusive && spec_rules_linked(rules, &before) ==> report.connected == 0 && after == before
}

/// The keys of a link's two ports, when both resolve.
pub open spec fn spec_link_keys(g: &Graph, link: Link) -> Option<(KeyView, KeyView)> {
    match (spec_port_key(g, link.output_port), spec_port_key(g, link.input_port)) {
        (Some(a), Some(b)) => Some((a, b)),
        _ => None,
    }
}

/// Whether a link runs between the ports some rule that resolves in `g`
/// names.
pub open spec fn spec_link_named(rules: Seq<ConnView>, g: &Graph, link: Link) -> bool {
    exists|c: int|
        0 <= c < rules.len() && spec_link_keys(g, link) is Some && #[trigger] spec_rule_keys(g, rules[c])
            == spec_link_keys(g, link)
}

/// Whether a link runs between the ports of one of the key pairs.
pub open spec fn spec_named_by(pairs: Seq<(KeyView, KeyView)>, g: &Graph, link: Link) -> bool {
    exists|r: int| 0 <= r < pairs.len() && Some(#[trigger] pairs[r]) == spec_link_keys(g, link)
}

/// Whether a link runs into a port whose key is the input key of some rule
/// that resolves in `g`.
pub open spec fn spec_into_rule_input(rules: Seq<ConnView>, g: &Graph, link: Link) -> bool {
    exists|c: int|
        0 <= c < rules.len() && #[trigger] spec_rule_keys(g, rules[c]) is Some && spec_port_key(
            g,
            link.input_port,
        ) == Some(spec_rule_keys(g, rules[c])->Some_0.1)
}

/// Whether a link runs into a port with the input key of one of the pairs.
pub open spec fn spec_into_input_of(pairs: Seq<(KeyView, KeyView)>, g: &Graph, link: Link) -> bool {
    exists|r: int| 0 <= r < pairs.len() && Some((#[trigger] pairs[r]).1) == spec_port_key(g, link.input_port)
}

/// A port a key without serial or channel names has that key.
proof fn lemma_port_key_of_match(g: &Graph, p: PortId, key: &PortKey)
    requires
        spec_port_matches(g, p, key),
        key.node_serial is None,
        key.channel is None,
    ensures
        spec_port_key(g, p) == Some(key_view(*key)),
{
}

/// How many rules resolve to a pair of ports in `g`.
pub open spec fn spec_resolving(rules: Seq<ConnView>, g: &Graph) -> nat
    decreases rules.len(),
{
    if rules.len() == 0 {
        0
    } else {
        spec_resolving(rules.drop_last(), g) + if spec_rule_keys(g, rules.last()) is Some {
            1nat
        } else {
            0nat
        }
    }
}

/// Activating saved rules twice in a row connects nothing the second time:
/// after an activation in which no rule failed, every rule that resolves is
/// linked, and an activation of linked rules connects nothing and leaves the
/// links as they are. This holds on a driver whose graph only it changes,
/// without exclusivity and without auto-disconnect.
pub proof fn lemma_activation_is_idempotent(
    rules: Seq<ConnView>,
    g0: Graph,
    g1: Graph,
    g2: Graph,
    first: ActivationReport,
    second: ActivationReport,
)
    requires
        spec_activated(rules, g0, g1, first, false),
        spec_activated(rules, g1, g2, second, false),
        first.failed@.len() == 0,
    ensures
        second.connected == 0,
        g2 == g1,
{
}

impl ActivationReport {
    pub fn new() -> (report: Self)
        ensures
            report.connected == 0,
            report.already_present == 0,
            report.disconnected == 0,
            report.failed@.len() == 0,
    {
        ActivationReport { connected: 0, already_present: 0, disconnected: 0, failed: Vec::new() }
    }
}

impl Patchbay {
    /// Connect every saved rule. Rules are resolved against the current
    /// registry by name, so ids may have changed between sessions. With
    /// `exclusive`, live links that no rule names are disconnected first;
    /// with `auto_disconnect`, a rule's input is cleared of other links
    /// before it is connected. A rule that cannot be connected is reported
    /// in `failed`; a refused disconnection stops the activation.
    pub fn activate<D: GraphDriver>(&self, driver: &mut D, exclusive: bool, auto_disconnect: bool) -> (result:
        Result<ActivationReport, BackendError>)
        ensures
            final(driver).spec_is_static() == old(driver).spec_is_static(),
            old(driver).spec_is_static() ==> final(driver).spec_graph().nodes == old(driver).spec_graph().nodes
                && final(driver).spec_graph().ports == old(driver).spec_graph().ports,
            old(driver).spec_is_static() && !exclusive && !auto_disconnect ==> result is Ok,
            old(driver).spec_is_static() ==> (result matches Ok(report) ==> report.connected
                + report.already_present + report.failed@.len() == spec_resolving(
                conns_view(self.connections@),
                &old(driver).spec_graph(),
            )),
            old(driver).spec_is_static() && exclusive ==> (result matches Ok(_) ==> forall|k: u64|
                #[trigger] final(driver).spec_graph().links@.contains_key(k) ==> spec_link_named(
                    conns_view(self.connections@),
                    &final(driver).spec_graph(),
                    final(driver).spec_graph().links@[k],
                )),
            old(driver).spec_is_static() && !exclusive ==> (result matches Ok(_) ==> forall|k: u64|
                #[trigger] old(driver).spec_graph().links@.contains_key(k) && !final(driver).spec_graph().links@.contains_key(k)
                    ==> spec_into_rule_input(
                    conns_view(self.connections@),
                    &old(driver).spec_graph(),
                    old(driver).spec_graph().links@[k],
                )),
            old(driver).spec_is_static() && !exclusive && spec_rules_linked(
                conns_view(self.connections@),
                &old(driver).spec_graph(),
            ) ==> (result matches Ok(report) && report.failed@.len() == 0 && report.connected == 0
                && final(driver).spec_graph() == old(driver).spec_graph()),
            result matches Ok(report) ==> {
                &&& report.connected + report.already_present + report.failed@.len()
                    <= self.connections@.len()
                &&& (!exclusive && !auto_disconnect ==> report.disconnected == 0)
            },
            old(driver).spec_is_static() && !auto_disconnect ==> (result matches Ok(report)
                ==> spec_activated(
                conns_view(self.connections@),
                old(driver).spec_graph(),
                final(driver).spec_graph(),
                report,
                exclusive,
            )),
    {
        let ghost rules = conns_view(self.connections@);
        let ghost g0 = driver.spec_graph();
        let ghost is_static = driver.spec_is_static();
        match driver.refresh() {
            Ok(_) => {},
            Err(error) => return Err(error),
        }
        let ghost gr = driver.spec_graph();
        let mut report = ActivationReport::new();
        let mut resolved: Vec<(PortKey, PortKey)> = Vec::new();
        let ghost mut slot: Seq<int> = Seq::empty();
        let ghost mut origin: Seq<int> = Seq::empty();
        let mut i: usize = 0;
        while i < self.connections.len()
            invariant
                i <= self.connections@.len(),
                resolved@.len() <= i,
                resolved@.len() == spec_resolving(rules.subrange(0, i as int), &gr),
                forall|r: int| 0 <= r < resolved@.len() ==> spec_key_resolves(&gr, &(#[trigger] resolved@[r]).1),
                rules == conns_view(self.connections@),
                gr == driver.spec_graph(),
                slot.len() == i,
                origin.len() == resolved@.len(),
                forall|r: int|
                    0 <= r < resolved@.len() ==> (#[trigger] resolved@[r]).0.node_serial is None
                        && resolved@[r].0.channel is None && resolved@[r].1.node_serial is None
                        && resolved@[r].1.channel is None,
                forall|c: int|
                    0 <= c < i ==> ((#[trigger] slot[c] >= 0) == spec_rule_keys(&gr, rules[c]) is Some),
                forall|c: int|
                    0 <= c < i && #[trigger] slot[c] >= 0 ==> slot[c] < resolved@.len() && spec_rule_keys(
                        &gr,
                        rules[c],
                    ) == Some((key_view(resolved@[slot[c]].0), key_view(resolved@[slot[c]].1))),
                forall|r: int|
                    0 <= r < resolved@.len() ==> 0 <= #[trigger] origin[r] < i && spec_rule_keys(
                        &gr,
                        rules[origin[r]],
                    ) == Some((key_view(resolved@[r].0), key_view(resolved@[r].1))),
            decreases self.connections@.len() - i,
        {
            let mut taken = false;
            match self.resolve_connection(driver.graph(), &self.connections[i]) {
                Some((output, input)) => match (driver.graph().port_key(output), driver.graph().port_key(input)) {
                    (Some(a), Some(b)) => {
                        proof {
                            slot = slot.push(resolved@.len() as int);
                            origin = origin.push(i as int);
                            assert(spec_port_matches(&gr, input, &b));
                        }
                        resolved.push((a, b));
                        taken = true;
                    },
                    _ => {},
                },
                None => {},
            }
            if !taken {
                proof {
                    slot = slot.push(-1);
                }
            }
            proof {
                assert(rules[i as int] == conn_view(self.connections@[i as int]));
                assert(rules.subrange(0, i + 1).drop_last() =~= rules.subrange(0, i as int));
            }
            i = i + 1;
        }
        proof {
            assert(rules.subrange(0, rules.len() as int) =~= rules);
        }
        let ghost rv = resolved@.map_values(|p: (PortKey, PortKey)| (key_view(p.0), key_view(p.1)));
        if exclusive {
            let mut live: Vec<Link> = Vec::new();
            let links = driver.graph().links.values();
            let mut k: usize = 0;
            while k < links.len()
                invariant
                    k <= links@.len(),
                    live@ == links@.subrange(0, k as int),
                decreases links@.len() - k,
            {
                live.push(links[k]);
                k = k + 1;
                assert(live@ =~= links@.subrange(0, k as int));
            }
            assert(live@ =~= links@);
            let mut j: usize = 0;
            while j < live.len()
                invariant
                    j <= live@.len(),
                    crate::id_map::keys_increasing(live@),
                    crate::id_map::seq_map(live@) == gr.links@,
                    rv == resolved@.map_values(|p: (PortKey, PortKey)| (key_view(p.0), key_view(p.1))),
                    forall|r: int|
                        0 <= r < resolved@.len() ==> (#[trigger] resolved@[r]).0.node_serial is None
                            && resolved@[r].0.channel is None && resolved@[r].1.node_serial is None
                            && resolved@[r].1.channel is None,
                    is_static ==> forall|k: u64|
                        #[trigger] driver.spec_graph().links@.contains_key(k) ==> gr.links@.contains_key(k)
                            && driver.spec_graph().links@[k] == gr.links@[k],
                    is_static ==> forall|m: int|
                        0 <= m < j && driver.spec_graph().links@.contains_key((#[trigger] live@[m]).id.0)
                            ==> spec_named_by(rv, &gr, live@[m]),
                    resolved@.len() <= self.connections@.len(),
                    report.connected == 0 && report.already_present == 0 && report.failed@.len() == 0,
                    exclusive,
                    driver.spec_is_static() == is_static,
                    is_static == old(driver).spec_is_static(),
                    is_static ==> driver.spec_graph().nodes == gr.nodes && driver.spec_graph().ports
                        == gr.ports,
                    is_static ==> gr.nodes == old(driver).spec_graph().nodes && gr.ports == old(
                        driver,
                    ).spec_graph().ports,
                decreases live@.len() - j,
            {
                let link = live[j];
                let ghost gj = driver.spec_graph();
                let mut saved = false;
                let mut r: usize = 0;
                while r < resolved.len()
                    invariant
                        r <= resolved@.len(),
                        gj == driver.spec_graph(),
                        rv == resolved@.map_values(|p: (PortKey, PortKey)| (key_view(p.0), key_view(p.1))),
                        forall|r: int|
                            0 <= r < resolved@.len() ==> (#[trigger] resolved@[r]).0.node_serial is None
                                && resolved@[r].0.channel is None && resolved@[r].1.node_serial is None
                                && resolved@[r].1.channel is None,
                        saved ==> spec_named_by(rv, &gj, link),
                    decreases resolved@.len() - r,
                {
                    match driver.graph().find_link_by_keys(&resolved[r].0, &resolved[r].1) {
                        Some(found) => {
                            if found.output_port == link.output_port && found.input_port == link.input_port {
                                proof {
                                    lemma_port_key_of_match(&gj, found.output_port, &resolved@[r as int].0);
                                    lemma_port_key_of_match(&gj, found.input_port, &resolved@[r as int].1);
                                    assert(rv[r as int] == (key_view(resolved@[r as int].0), key_view(resolved@[r as int].1)));
                                }
                                saved = true;
                            }
                        },
                        None => {},
                    }
                    r = r + 1;
                }
                proof {
                    if is_static && saved {
                        let r = choose|r: int| 0 <= r < rv.len() && Some(#[trigger] rv[r]) == spec_link_keys(&gj, link);
                        assert(spec_link_keys(&gj, link) == spec_link_keys(&gr, link));
                    }
                }
                if !saved {
                    match driver.disconnect(link.id) {
                        Ok(_) => {},
                        Err(error) => return Err(error),
                    }
                    report.disconnected = report.disconnected.saturating_add(1);
                }
                proof {
                    if is_static {
                        let gn = driver.spec_graph();
                        assert forall|m: int|
                            0 <= m < j + 1 && gn.links@.contains_key((#[trigger] live@[m]).id.0)
                                implies spec_named_by(rv, &gr, live@[m]) by {
                            if m == j {
                                if saved {
                                    let r = choose|r: int| 0 <= r < rv.len() && Some(#[trigger] rv[r]) == spec_link_keys(&gj, link);
                                    assert(spec_link_keys(&gj, link) == spec_link_keys(&gr, link));
                                }
                            }
                        }
                    }
                }
                j = j + 1;
            }
            proof {
                if is_static {
                    let gx = driver.spec_graph();
                    assert forall|k: u64| #[trigger] gx.links@.contains_key(k) implies spec_named_by(rv, &gr, gx.links@[k]) by {
                        assert(crate::id_map::seq_has_key(live@, k));
                        let m = choose|m: int| 0 <= m < live@.len() && live@[m].id.0 == k;
                        crate::id_map::lemma_seq_map_index(live@, m);
                    }
                }
            }
        }
        let ghost gl = driver.spec_graph();
        let ghost all_linked = is_static && (forall|r: int|
            0 <= r < resolved@.len() ==> spec_views_linked(
                &gl,
                key_view((#[trigger] resolved@[r]).0),
                key_view(resolved@[r].1),
            ));
        proof {
            if is_static && !exclusive && spec_rules_linked(rules, &gr) {
                assert forall|r: int| 0 <= r < resolved@.len() implies spec_views_linked(
                    &gl,
                    key_view((#[trigger] resolved@[r]).0),
                    key_view(resolved@[r].1),
                ) by {
                    let c = origin[r];
                    assert(spec_rule_keys(&gr, rules[c]) is Some);
                }
            }
        }
        let mut n: usize = 0;
        while n < resolved.len()
            invariant
                n <= resolved@.len(),
                resolved@.len() <= self.connections@.len(),
                report.connected + report.already_present + report.failed@.len() <= n,
                is_static ==> report.connected + report.already_present + report.failed@.len() == n,
                resolved@.len() == spec_resolving(rules, &gr),
                forall|r: int| 0 <= r < resolved@.len() ==> spec_key_resolves(&gr, &(#[trigger] resolved@[r]).1),
                is_static ==> gr == old(driver).spec_graph(),
                !exclusive && !auto_disconnect ==> report.disconnected == 0,
                driver.spec_is_static() == is_static,
                is_static == old(driver).spec_is_static(),
                is_static ==> driver.spec_graph().nodes == gr.nodes && driver.spec_graph().ports == gr.ports,
                is_static ==> gr.nodes == old(driver).spec_graph().nodes && gr.ports == old(
                    driver,
                ).spec_graph().ports,
                is_static && !exclusive ==> gl == gr,
                forall|r: int|
                    0 <= r < resolved@.len() ==> (#[trigger] resolved@[r]).0.node_serial is None
                        && resolved@[r].0.channel is None && resolved@[r].1.node_serial is None
                        && resolved@[r].1.channel is None,
                is_static && !auto_disconnect ==> forall|k: u64|
                    #[trigger] gl.links@.contains_key(k) ==> driver.spec_graph().links@.contains_key(k)
                        && driver.spec_graph().links@[k] == gl.links@[k],
                is_static && !auto_disconnect && report.failed@.len() == 0 ==> forall|r: int|
                    0 <= r < n ==> spec_views_linked(
                        &driver.spec_graph(),
                        key_view((#[trigger] resolved@[r]).0),
                        key_view(resolved@[r].1),
                    ),
                all_linked == (is_static && (forall|r: int|
                    0 <= r < resolved@.len() ==> spec_views_linked(
                        &gl,
                        key_view((#[trigger] resolved@[r]).0),
                        key_view(resolved@[r].1),
                    ))),
                all_linked ==> report.connected == 0 && report.failed@.len() == 0 && driver.spec_graph() == gl,
                is_static && !exclusive && spec_rules_linked(rules, &gr) ==> all_linked,
                rules == conns_view(self.connections@),
                rv == resolved@.map_values(|p: (PortKey, PortKey)| (key_view(p.0), key_view(p.1))),
                is_static && exclusive ==> forall|k: u64|
                    #[trigger] driver.spec_graph().links@.contains_key(k) ==> spec_named_by(
                        rv,
                        &gr,
                        driver.spec_graph().links@[k],
                    ),
                is_static && !exclusive ==> forall|k: u64|
                    #[trigger] gr.links@.contains_key(k) ==> (driver.spec_graph().links@.contains_key(k)
                        && driver.spec_graph().links@[k] == gr.links@[k]) || spec_into_input_of(rv, &gr, gr.links@[k]),
                n < resolved@.len() ==> rv[n as int] == (key_view(resolved@[n as int].0), key_view(resolved@[n as int].1)),
                rv.len() == resolved@.len(),
            decreases resolved@.len() - n,
        {
            let output = &resolved[n].0;
            let input = &resolved[n].1;
            let ghost gb = driver.spec_graph();
            proof {
                lemma_keys_linked_as_views(&gb, output, input);
            }
            if driver.graph().find_link_by_keys(output, input).is_some() {
                report.already_present = report.already_present + 1;
            } else {
                let mut skip = false;
                proof {
                    if all_linked {
                        assert(spec_views_linked(&gl, key_view(resolved@[n as int].0), key_view(resolved@[n as int].1)));
                    }
                }
                if auto_disconnect {
                    match resolve_key(driver.graph(), input) {
                        Some(input_port) => {
                            let ghost gs = driver.spec_graph();
                            let all = driver.graph().links.values();
                            let ghost entries = all@;
                            let touching = driver.graph().links_for_port(input_port);
                            let mut stale: Vec<LinkId> = Vec::new();
                            let mut t: usize = 0;
                            while t < touching.len()
                                invariant
                                    t <= touching@.len(),
                                    touching@ == entries.filter(|l: Link| crate::graph::spec_link_touches(l, input_port)),
                                    crate::id_map::keys_increasing(entries),
                                    crate::id_map::seq_map(entries) == gs.links@,
                                    forall|m: int|
                                        0 <= m < stale@.len() ==> gs.links@.contains_key((#[trigger] stale@[m]).0)
                                            && gs.links@[stale@[m].0].input_port == input_port,
                                decreases touching@.len() - t,
                            {
                                if touching[t].input_port == input_port {
                                    proof {
                                        let pred = |l: Link| crate::graph::spec_link_touches(l, input_port);
                                        assert(touching@.contains(touching@[t as int]));
                                        entries.lemma_filter_contains_rev(pred, touching@[t as int]);
                                        let j = choose|j: int| 0 <= j < entries.len() && entries[j] == touching@[t as int];
                                        crate::id_map::lemma_seq_map_index(entries, j);
                                    }
                                    stale.push(touching[t].id);
                                }
                                t = t + 1;
                            }
                            proof {
                                if is_static {
                                    lemma_port_key_of_match(&gs, input_port, input);
                                    assert(spec_port_key(&gr, input_port) == spec_port_key(&gs, input_port));
                                    assert(spec_port_key(&gr, input_port) == Some(rv[n as int].1));
                                }
                            }
                            let mut d: usize = 0;
                            while d < stale.len()
                                invariant
                                    d <= stale@.len(),
                                    report.connected + report.already_present + report.failed@.len() <= n,
                                    is_static ==> report.connected + report.already_present + report.failed@.len() == n,
                                    !all_linked,
                                    !(is_static && !exclusive && spec_rules_linked(rules, &gr)),
                                    is_static ==> gr == old(driver).spec_graph(),
                                    rules == conns_view(self.connections@),
                                    auto_disconnect,
                                    driver.spec_is_static() == is_static,
                                    is_static == old(driver).spec_is_static(),
                                    is_static ==> driver.spec_graph().nodes == gr.nodes
                                        && driver.spec_graph().ports == gr.ports,
                                    is_static ==> gr.nodes == old(driver).spec_graph().nodes
                                        && gr.ports == old(driver).spec_graph().ports,
                                    rv == resolved@.map_values(|p: (PortKey, PortKey)| (key_view(p.0), key_view(p.1))),
                                    is_static && exclusive ==> forall|k: u64|
                                        #[trigger] driver.spec_graph().links@.contains_key(k) ==> spec_named_by(
                                            rv,
                                            &gr,
                                            driver.spec_graph().links@[k],
                                        ),
                                    is_static && !exclusive ==> forall|k: u64|
                                        #[trigger] gr.links@.contains_key(k) ==> (driver.spec_graph().links@.contains_key(k)
                                            && driver.spec_graph().links@[k] == gr.links@[k]) || spec_into_input_of(rv, &gr, gr.links@[k]),
                                    is_static ==> forall|k: u64|
                                        #[trigger] driver.spec_graph().links@.contains_key(k) ==> gs.links@.contains_key(k)
                                            && driver.spec_graph().links@[k] == gs.links@[k],
                                    forall|m: int|
                                        0 <= m < stale@.len() ==> gs.links@.contains_key((#[trigger] stale@[m]).0)
                                            && gs.links@[stale@[m].0].input_port == input_port,
                                    is_static ==> spec_port_key(&gr, input_port) == Some(rv[n as int].1),
                                    rv.len() == resolved@.len(),
                                    n < resolved@.len(),
                                decreases stale@.len() - d,
                            {
                                let ghost gd = driver.spec_graph();
                                match driver.disconnect(stale[d]) {
                                    Ok(_) => {
                                        proof {
                                            if is_static && !exclusive {
                                                let ga = driver.spec_graph();
                                                let id = stale@[d as int].0;
                                                assert forall|k: u64| #[trigger] gr.links@.contains_key(k) implies (ga.links@.contains_key(k)
                                                    && ga.links@[k] == gr.links@[k]) || spec_into_input_of(rv, &gr, gr.links@[k]) by {
                                                    if k == id && gd.links@.contains_key(k) && gd.links@[k] == gr.links@[k] {
                                                        assert(Some(rv[n as int].1) == spec_port_key(&gr, gr.links@[k].input_port));
                                                    }
                                                }
                                            }
                                        }
                                    },
                                    Err(error) => return Err(error),
                                }
                                report.disconnected = report.disconnected.saturating_add(1);
                                d = d + 1;
                            }
                        },
                        None => {
                            proof {
                                if is_static {
                                    let cur = driver.spec_graph();
                                    let p = choose|p: u64| #[trigger] spec_port_matches(&gr, PortId(p), input);
                                    assert(spec_port_matches(&cur, PortId(p), input));
                                }
                            }
                            skip = true;
                        },
                    }
                }
                if !skip {
                    let ghost gc = driver.spec_graph();
                    match driver.connect_by_key_if_missing(output, input) {
                        Ok(Some(made)) => {
                            proof {
                                if is_static && !exclusive {
                                    let ga = driver.spec_graph();
                                    assert forall|k: u64| #[trigger] gr.links@.contains_key(k) implies (ga.links@.contains_key(k)
                                        && ga.links@[k] == gr.links@[k]) || spec_into_input_of(rv, &gr, gr.links@[k]) by {
                                        if k != made.id.0 && gc.links@.contains_key(k) {
                                            assert(ga.links@[k] == gc.links@[k]);
                                        }
                                    }
                                }
                                if is_static && exclusive {
                                    let ga = driver.spec_graph();
                                    lemma_port_key_of_match(&ga, made.output_port, output);
                                    lemma_port_key_of_match(&ga, made.input_port, input);
                                    assert(rv[n as int] == (key_view(resolved@[n as int].0), key_view(resolved@[n as int].1)));
                                    assert(spec_link_keys(&ga, made) == spec_link_keys(&gr, made));
                                    assert forall|k: u64| #[trigger] ga.links@.contains_key(k) implies spec_named_by(
                                        rv,
                                        &gr,
                                        ga.links@[k],
                                    ) by {
                                        if k != made.id.0 {
                                            assert(gc.links@.contains_key(k));
                                        }
                                    }
                                }
                            }
                            report.connected = report.connected + 1;
                        },
                        Ok(None) => {
                            report.already_present = report.already_present + 1;
                        },
                        Err(error) => {
                            report.failed.push(error.message());
                        },
                    }
                }
            }
            proof {
                if is_static && !auto_disconnect {
                    let ga = driver.spec_graph();
                    lemma_keys_linked_as_views(&ga, output, input);
                    assert forall|r: int| 0 <= r < n + 1 && report.failed@.len() == 0 implies spec_views_linked(
                        &ga,
                        key_view((#[trigger] resolved@[r]).0),
                        key_view(resolved@[r].1),
                    ) by {
                        if r < n {
                            let k = choose|k: u64|
                                #[trigger] gb.links@.contains_key(k) && spec_port_key(
                                    &gb,
                                    gb.links@[k].output_port,
                                ) == Some(key_view(resolved@[r].0)) && spec_port_key(
                                    &gb,
                                    gb.links@[k].input_port,
                                ) == Some(key_view(resolved@[r].1));
                            assert(ga.links@.contains_key(k));
                        }
                    }
                }
            }
            n = n + 1;
        }
        proof {
            if is_static && !auto_disconnect {
                let gf = driver.spec_graph();
                if report.failed@.len() == 0 {
                    assert forall|c: int| 0 <= c < rules.len() implies match spec_rule_keys(
                        &gf,
                        #[trigger] rules[c],
                    ) {
                        Some((a, b)) => spec_views_linked(&gf, a, b),
                        None => true,
                    } by {
                        lemma_rule_keys_on_same_nodes_and_ports(&gf, &gr, rules[c]);
                        if slot[c] >= 0 {
                            let r = slot[c];
                            assert(spec_views_linked(&gf, key_view(resolved@[r].0), key_view(resolved@[r].1)));
                        }
                    }
                }
            }
            if is_static && !exclusive {
                let gf = driver.spec_graph();
                assert forall|k: u64| #[trigger] gr.links@.contains_key(k) && !gf.links@.contains_key(k) implies spec_into_rule_input(
                    rules,
                    &gr,
                    gr.links@[k],
                ) by {
                    let r = choose|r: int| 0 <= r < rv.len() && Some((#[trigger] rv[r]).1) == spec_port_key(&gr, gr.links@[k].input_port);
                    let c = origin[r];
                    assert(rv[r] == (key_view(resolved@[r].0), key_view(resolved@[r].1)));
                    assert(spec_rule_keys(&gr, rules[c]) is Some);
                }
            }
            if is_static && exclusive {
                let gf = driver.spec_graph();
                assert forall|k: u64| #[trigger] gf.links@.contains_key(k) implies spec_link_named(rules, &gf, gf.links@[k]) by {
                    let link = gf.links@[k];
                    let r = choose|r: int| 0 <= r < rv.len() && Some(#[trigger] rv[r]) == spec_link_keys(&gr, link);
                    let c = origin[r];
                    assert(rv[r] == (key_view(resolved@[r].0), key_view(resolved@[r].1)));
                    lemma_rule_keys_on_same_nodes_and_ports(&gf, &gr, rules[c]);
                    assert(spec_link_keys(&gf, link) == spec_link_keys(&gr, link));
                    assert(spec_rule_keys(&gf, rules[c]) == spec_link_keys(&gf, link));
                }
            }
        }
        Ok(report)
    }
}

/// A matching rule has a first matching rule.
proof fn lemma_first_for_ports_exists(conns: Seq<ConnView>, output: PortId, input: PortId, k: int)
    requires
        0 <= k < conns.len(),
        same_ports(conns[k], output, input),
    ensures
        exists|i: int|
            0 <= i < conns.len() && same_ports(conns[i], output, input) && forall|j: int|
                0 <= j < i ==> !same_ports(#[trigger] conns[j], output, input),
    decreases k,
{
    if exists|j: int| 0 <= j < k && same_ports(conns[j], output, input) {
        let j = choose|j: int| 0 <= j < k && same_ports(conns[j], output, input);
        lemma_first_for_ports_exists(conns, output, input, j);
    } else {
        assert(forall|j: int| 0 <= j < k ==> !same_ports(#[trigger] conns[j], output, input));
    }
}

/// Saving the same connection twice leaves the same rules as saving it
/// once.
pub proof fn lemma_add_connection_idempotent(conns: Seq<ConnView>, output: PortId, input: PortId, pinned: bool)
    ensures
        spec_add_connection(spec_add_connection(conns, output, input, pinned), output, input, pinned)
            == spec_add_connection(conns, output, input, pinned),
{
    let once = spec_add_connection(conns, output, input, pinned);
    if exists|i: int| 0 <= i < conns.len() && same_ports(conns[i], output, input) {
        let w = choose|i: int| 0 <= i < conns.len() && same_ports(conns[i], output, input);
        lemma_first_for_ports_exists(conns, output, input, w);
        let i = first_for_ports(conns, output, input);
        assert(0 <= i < once.len() && same_ports(once[i], output, input));
        lemma_first_for_ports_exists(once, output, input, i);
        let k = first_for_ports(once, output, input);
        if k != i {
            if k < i {
                assert(once[k] == conns[k]);
            } else {
                assert(!same_ports(once[i], output, input));
            }
        }
        assert(spec_add_connection(once, output, input, pinned) =~= once);
    } else {
        let n = conns.len() as int;
        assert(0 <= n < once.len() && same_ports(once[n], output, input));
        lemma_first_for_ports_exists(once, output, input, n);
        let k = first_for_ports(once, output, input);
        if k != n {
            if k < n {
                assert(once[k] == conns[k]);
            } else {
                assert(!same_ports(once[n], output, input));
            }
        }
        assert(spec_add_connection(once, output, input, pinned) =~= once);
    }
}

/// Forgetting a pair that was just saved for the first time gives the rules
/// back as they were.
pub proof fn lemma_add_then_remove_connection(conns: Seq<ConnView>, output: PortId, input: PortId, pinned: bool)
    requires
        forall|i: int| 0 <= i < conns.len() ==> !same_ports(#[trigger] conns[i], output, input),
    ensures
        spec_add_connection(conns, output, input, pinned).filter(
            |c: ConnView| !same_ports(c, output, input),
        ) == conns,
{
    let pred = |c: ConnView| !same_ports(c, output, input);
    let added = spec_add_connection(conns, output, input, pinned);
    assert(added == conns.push(spec_bare_connection(output, input, pinned)));
    conns.lemma_filter_push(spec_bare_connection(output, input, pinned), pred);
    assert(conns.filter(pred) =~= conns) by {
        lemma_filter_keeps_all(conns, pred);
    }
}

proof fn lemma_filter_keeps_all<A>(s: Seq<A>, pred: spec_fn(A) -> bool)
    requires
        forall|i: int| 0 <= i < s.len() ==> pred(#[trigger] s[i]),
    ensures
        s.filter(pred) == s,
    decreases s.len(),
{
    if s.len() > 0 {
        lemma_filter_keeps_all(s.drop_last(), pred);
        assert(s.drop_last().push(s.last()) =~= s);
        s.drop_last().lemma_filter_push(s.last(), pred);
    } else {
        assert(s.filter(pred) =~= s);
    }
}


proof fn lemma_first_for_pair_exists(
    conns: Seq<ConnView>,
    output: PortId,
    input: PortId,
    names: (NodeType, PortType, Seq<char>, Seq<char>, Seq<char>, Seq<char>),
    k: int,
)
    requires
        0 <= k < conns.len(),
        same_pair(conns[k], output, input, names),
    ensures
        exists|i: int|
            0 <= i < conns.len() && same_pair(conns[i], output, input, names) && forall|j: int|
                0 <= j < i ==> !same_pair(#[trigger] conns[j], output, input, names),
    decreases k,
{
    if exists|j: int| 0 <= j < k && same_pair(conns[j], output, input, names) {
        let j = choose|j: int| 0 <= j < k && same_pair(conns[j], output, input, names);
        lemma_first_for_pair_exists(conns, output, input, names, j);
    } else {
        assert(forall|j: int| 0 <= j < k ==> !same_pair(#[trigger] conns[j], output, input, names));
    }
}

/// A rule saved by names is found again after the backend renumbers its
/// objects. When the graph knows both ports and saved rule `k` has the
/// node and port names of both ends, adding the pair adds no rule; and when
/// no earlier rule is for the pair by ids or by names, rule `k` itself now
/// carries the given ids and keeps its names and settings.
pub proof fn lemma_renamed_rule_is_reused(
    conns: Seq<ConnView>,
    g: &Graph,
    output: PortId,
    input: PortId,
    pinned: bool,
    k: int,
)
    requires
        g.ports@.contains_key(output.0),
        g.ports@.contains_key(input.0),
        g.nodes@.contains_key(g.ports@[output.0].node_id.0),
        g.nodes@.contains_key(g.ports@[input.0].node_id.0),
        0 <= k < conns.len(),
        conns[k].5 == g.nodes@[g.ports@[output.0].node_id.0].name@,
        conns[k].6 == g.ports@[output.0].name@,
        conns[k].7 == g.nodes@[g.ports@[input.0].node_id.0].name@,
        conns[k].8 == g.ports@[input.0].name@,
    ensures
        spec_add_graph_connection(conns, g, output, input, pinned).len() == conns.len(),
        (forall|j: int|
            0 <= j < k ==> !(conns[j].0 == output && conns[j].1 == input) && !(#[trigger] conns[j].5
                == conns[k].5 && conns[j].6 == conns[k].6 && conns[j].7 == conns[k].7 && conns[j].8
                == conns[k].8)) ==> {
            let r = spec_add_graph_connection(conns, g, output, input, pinned)[k];
            &&& r.0 == output
            &&& r.1 == input
            &&& r.2 == (conns[k].2 || pinned)
            &&& r.3 == conns[k].3
            &&& r.4 == conns[k].4
            &&& r.5 == conns[k].5
            &&& r.6 == conns[k].6
            &&& r.7 == conns[k].7
            &&& r.8 == conns[k].8
        },
{
    let names = spec_port_names(g, output, input)->Some_0;
    assert(same_pair(conns[k], output, input, names));
    lemma_first_for_pair_exists(conns, output, input, names, k);
    let i = first_for_pair(conns, output, input, names);
    if forall|j: int|
        0 <= j < k ==> !(conns[j].0 == output && conns[j].1 == input) && !(#[trigger] conns[j].5 == conns[k].5
            && conns[j].6 == conns[k].6 && conns[j].7 == conns[k].7 && conns[j].8 == conns[k].8) {
        if i < k {
            assert(same_pair(conns[i], output, input, names));
            assert(!(conns[i].5 == conns[k].5 && conns[i].6 == conns[k].6 && conns[i].7 == conns[k].7
                && conns[i].8 == conns[k].8));
        }
        assert(i == k);
    }
}


/// A pair no saved rule is for, by ids or by names, becomes one new rule at
/// the end, named after the graph's nodes and ports; the others stay.
pub proof fn lemma_new_pair_is_named(conns: Seq<ConnView>, g: &Graph, output: PortId, input: PortId, pinned: bool)
    requires
        g.ports@.contains_key(output.0),
        g.ports@.contains_key(input.0),
        g.nodes@.contains_key(g.ports@[output.0].node_id.0),
        g.nodes@.contains_key(g.ports@[input.0].node_id.0),
        forall|j: int|
            #![trigger conns[j]]
            0 <= j < conns.len() ==> !(conns[j].0 == output && conns[j].1 == input) && !(conns[j].5
                == g.nodes@[g.ports@[output.0].node_id.0].name@ && conns[j].6 == g.ports@[output.0].name@
                && conns[j].7 == g.nodes@[g.ports@[input.0].node_id.0].name@ && conns[j].8
                == g.ports@[input.0].name@),
    ensures
        ({
            let r = spec_add_graph_connection(conns, g, output, input, pinned);
            let o = g.ports@[output.0];
            let i = g.ports@[input.0];
            &&& r.len() == conns.len() + 1
            &&& r.subrange(0, conns.len() as int) == conns
            &&& r.last() == (
                output,
                input,
                pinned,
                g.nodes@[o.node_id.0].node_type,
                o.port_type,
                g.nodes@[o.node_id.0].name@,
                o.name@,
                g.nodes@[i.node_id.0].name@,
                i.name@,
            )
        }),
{
    let r = spec_add_graph_connection(conns, g, output, input, pinned);
    let names = spec_port_names(g, output, input)->Some_0;
    assert forall|i: int| 0 <= i < conns.len() implies !same_pair(conns[i], output, input, names) by {
        assert(!(conns[i].0 == output && conns[i].1 == input));
        assert(!(conns[i].5 == names.2 && conns[i].6 == names.3 && conns[i].7 == names.4 && conns[i].8 == names.5));
    }
    assert(r.subrange(0, conns.len() as int) =~= conns);
}

} // verus!
