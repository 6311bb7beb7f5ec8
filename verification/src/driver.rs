//! The driver abstraction every graph backend implements.
//!
//! A driver owns a graph snapshot and the native operations that change it.
//! The stable-key helpers are shared by every backend: they connect or
//! disconnect the ports two [`PortKey`]s name, whatever ids the backend gave
//! them this time round.

use vstd::prelude::*;
use crate::backend::{BackendError, BackendResult};
use crate::graph::{
    spec_keys_linked, spec_link_matches, spec_port_matches, Direction, Graph, GraphError, Link, Node,
    PortKey,
};
use crate::graph::{NodeType, PortType};
use crate::id_map::Keyed;
use crate::metering::{BackendCapabilities, NodeAudioState, NodeCapabilities};
use crate::ids::{LinkId, NodeId, PortId};
use crate::text::{append_str, string_from_chars};

verus! {

/// `{what} port {node}:{port} is no longer available`.
pub open spec fn spec_unavailable_message(what: Seq<char>, key: PortKey) -> Seq<char> {
    what + " port "@ + key.node_name@ + ":"@ + key.port_name@ + " is no longer available"@
}

/// The error for a stable key that no longer names a port.
pub fn port_unavailable(what: &str, key: &PortKey) -> (error: BackendError)
    ensures
        error matches BackendError::Native(m) && m@ == spec_unavailable_message(what@, *key),
{
    let mut t: Vec<char> = Vec::new();
    append_str(&mut t, what);
    append_str(&mut t, " port ");
    append_str(&mut t, key.node_name.as_str());
    append_str(&mut t, ":");
    append_str(&mut t, key.port_name.as_str());
    append_str(&mut t, " is no longer available");
    BackendError::Native(string_from_chars(t.as_slice()))
}

/// Whether some port of the graph is the one `key` names.
pub open spec fn spec_key_resolves(g: &Graph, key: &PortKey) -> bool {
    exists|p: u64| #[trigger] spec_port_matches(g, PortId(p), key)
}

/// Whether `id` is the port with the least id that `key` names: what
/// `Graph::resolve_port_key` finds, walking the ports in id order.
pub open spec fn spec_resolves_to(g: &Graph, key: &PortKey, id: PortId) -> bool {
    &&& spec_port_matches(g, id, key)
    &&& forall|p: u64| #[trigger] spec_port_matches(g, PortId(p), key) ==> id.0 <= p
}

/// Every port id of the graph is the id of some entry of `entries`.
pub open spec fn spec_covers(g: &Graph, entries: Seq<crate::graph::Port>) -> bool {
    forall|p: u64|
        #[trigger] spec_port_present(g, p) ==> exists|j: int| 0 <= j < entries.len() && entries[j].id.0 == p
}

/// Whether the graph has a port with id `p`.
pub open spec fn spec_port_present(g: &Graph, p: u64) -> bool {
    g.ports@.contains_key(p)
}

/// The first port in id order that a key names has the least id of all
/// that it names.
proof fn lemma_found_is_least(g: &Graph, entries: Seq<crate::graph::Port>, key: &PortKey, id: PortId)
    requires
        crate::id_map::keys_increasing(entries),
        spec_covers(g, entries),
        spec_port_matches(g, id, key),
        exists|i: int|
            0 <= i < entries.len() && entries[i].id == id && forall|j: int|
                0 <= j < i ==> !spec_port_matches(g, #[trigger] entries[j].id, key),
    ensures
        spec_resolves_to(g, key, id),
{
    let i = choose|i: int|
        0 <= i < entries.len() && entries[i].id == id && forall|j: int|
            0 <= j < i ==> !spec_port_matches(g, #[trigger] entries[j].id, key);
    assert forall|p: u64| #[trigger] spec_port_matches(g, PortId(p), key) implies id.0 <= p by {
        assert(spec_port_present(g, p));
        let j = choose|j: int| 0 <= j < entries.len() && entries[j].id.0 == p;
        assert(entries[j].id == PortId(p));
        if j < i {
            assert(!spec_port_matches(g, entries[j].id, key));
        } else if j > i {
            assert(entries[i].id_key() < entries[j].id_key());
        }
    }
}

/// A key that names no port, walking the ports in id order, names none.
proof fn lemma_no_match(g: &Graph, entries: Seq<crate::graph::Port>, key: &PortKey)
    requires
        spec_covers(g, entries),
        forall|i: int| 0 <= i < entries.len() ==> !spec_port_matches(g, #[trigger] entries[i].id, key),
    ensures
        !spec_key_resolves(g, key),
{
    assert forall|p: u64| !(#[trigger] spec_port_matches(g, PortId(p), key)) by {
        if spec_port_matches(g, PortId(p), key) {
            assert(spec_port_present(g, p));
            let j = choose|j: int| 0 <= j < entries.len() && entries[j].id.0 == p;
            assert(entries[j].id == PortId(p));
        }
    }
}

/// The port with the least id that `key` names, if any.
pub fn resolve_key(graph: &Graph, key: &PortKey) -> (found: Option<PortId>)
    ensures
        match found {
            Some(id) => spec_resolves_to(graph, key, id),
            None => !spec_key_resolves(graph, key),
        },
{
    let ports = graph.ports.ordered_values();
    proof {
        assert forall|p: u64| #[trigger] spec_port_present(graph, p) implies exists|j: int|
            0 <= j < ports@.len() && ports@[j].id.0 == p by {
            assert(graph.ports@.contains_key(p));
            let j = choose|j: int| 0 <= j < ports@.len() && ports@[j].id_key() == p;
            assert(ports@[j].id.0 == p);
        }
    }
    match graph.resolve_port_key(key) {
        Some(id) => {
            proof {
                lemma_found_is_least(graph, ports@, key, id);
            }
            Some(id)
        },
        None => {
            proof {
                lemma_no_match(graph, ports@, key);
            }
            None
        },
    }
}

/// Why the two saved endpoints of an effect cannot be used, checked in this
/// order: 1 the source key names no port, 2 the destination key names no
/// port, 3 the source key names no source port, 4 the destination key names
/// no sink port; 0 when both can be used.
pub open spec fn spec_endpoint_fault(g: &Graph, source: &PortKey, destination: &PortKey) -> int {
    if !spec_key_resolves(g, source) {
        1
    } else if !spec_key_resolves(g, destination) {
        2
    } else if source.direction != Direction::Source {
        3
    } else if destination.direction != Direction::Sink {
        4
    } else {
        0
    }
}

/// What resolving two endpoints gives when neither key is missing: the
/// direction error, or both ports.
pub open spec fn spec_resolved_endpoints<T>(
    g: &Graph,
    source: &PortKey,
    destination: &PortKey,
    result: BackendResult<T>,
    ports: spec_fn(T) -> (PortId, PortId),
) -> bool {
    &&& spec_endpoint_fault(g, source, destination) == 3 ==> (result matches Err(
        BackendError::Graph(GraphError::NotSource(p)),
    ) && spec_resolves_to(g, source, p))
    &&& spec_endpoint_fault(g, source, destination) == 4 ==> (result matches Err(
        BackendError::Graph(GraphError::NotSink(p)),
    ) && spec_resolves_to(g, destination, p))
    &&& (result matches Ok(v) ==> spec_endpoint_fault(g, source, destination) == 0
        && spec_resolves_to(g, source, ports(v).0) && spec_resolves_to(g, destination, ports(v).1))
}

/// What a node supports, from its audio state and whether its backend
/// meters: the control half of a readable state (nothing when the state
/// cannot be read) and both meters where the backend meters at all.
pub open spec fn spec_node_capabilities_from(
    state: BackendResult<NodeAudioState>,
    meters: bool,
) -> NodeCapabilities {
    let controls = match state {
        Ok(s) => NodeCapabilities {
            volume_read: s.volume_readable,
            volume_write: s.volume_writable,
            mute_read: s.mute_readable,
            mute_write: s.mute_writable,
            meter_peak: false,
            meter_rms: false,
        },
        Err(_) => NodeCapabilities {
            volume_read: false,
            volume_write: false,
            mute_read: false,
            mute_write: false,
            meter_peak: false,
            meter_rms: false,
        },
    };
    if meters {
        NodeCapabilities { meter_peak: true, meter_rms: true, ..controls }
    } else {
        controls
    }
}

/// Two graphs with the same nodes, ports and links.
pub open spec fn same_graph(a: Graph, b: Graph) -> bool {
    &&& a.nodes@ == b.nodes@
    &&& a.ports@ == b.ports@
    &&& a.links@ == b.links@
}

pub trait GraphDriver {
    /// The graph as the driver currently presents it.
    spec fn spec_graph(&self) -> Graph;

    /// Whether a link is a user-mutable native connection, as opposed to an
    /// observed relationship the backend only reports.
    spec fn spec_link_mutable(&self, link: LinkId) -> bool;

    /// Whether the graph changes only through this driver's own operations
    /// (no other program edits it behind the driver's back).
    spec fn spec_is_static(&self) -> bool;

    /// What the backend can do somewhere in its graph.
    spec fn spec_capabilities(&self) -> BackendCapabilities;

    /// The audio state the backend reports for a node.
    spec fn spec_node_audio_state(&self, node: NodeId) -> BackendResult<NodeAudioState>;

    fn graph(&self) -> (graph: &Graph)
        ensures
            *graph == self.spec_graph(),
    ;

    /// What the backend can do somewhere in its graph.
    fn capabilities(&self) -> (capabilities: BackendCapabilities)
        ensures
            capabilities == self.spec_capabilities(),
    ;

    /// The audio state of one node. A backend that cannot read a node
    /// reports it unsupported; an error is for a node that does not exist or
    /// a backend that failed to answer.
    fn node_audio_state(&self, node: NodeId) -> (state: BackendResult<NodeAudioState>)
        ensures
            state == self.spec_node_audio_state(node),
    ;

    /// What one node supports, for deciding which controls to draw. By
    /// default the control half comes from its audio state and the meters
    /// from whether the backend meters at all.
    fn node_capabilities(&self, node: NodeId) -> (capabilities: NodeCapabilities)
        default_ensures
            capabilities == spec_node_capabilities_from(
                self.spec_node_audio_state(node),
                self.spec_capabilities().meters,
            ),
    {
        let mut capabilities = match self.node_audio_state(node) {
            Ok(state) => state.control_capabilities(),
            Err(_) => NodeCapabilities::none(),
        };
        if self.capabilities().meters {
            capabilities.meter_peak = true;
            capabilities.meter_rms = true;
        }
        capabilities
    }

    /// Mute or unmute a node. The graph itself does not change. A backend
    /// without mute control refuses.
    fn set_node_mute(&mut self, node: NodeId, muted: bool) -> (result: BackendResult<()>)
        ensures
            final(self).spec_is_static() == old(self).spec_is_static(),
            same_graph(final(self).spec_graph(), old(self).spec_graph()),
        default_ensures
            result matches Err(BackendError::Unsupported(m)) && m@
                == "node "@ + "mute"@ + " is not supported by this backend"@,
    {
        Err(crate::backend::unsupported_node_op("mute"))
    }

    /// Set a node's linear volume, given as the bits of an `f32` the caller
    /// has already limited to the backend's range. The graph itself does not
    /// change. A backend without volume control refuses.
    fn set_node_volume(&mut self, node: NodeId, volume_bits: u32) -> (result: BackendResult<()>)
        ensures
            final(self).spec_is_static() == old(self).spec_is_static(),
            same_graph(final(self).spec_graph(), old(self).spec_graph()),
        default_ensures
            result matches Err(BackendError::Unsupported(m)) && m@
                == "node "@ + "volume"@ + " is not supported by this backend"@,
    {
        Err(crate::backend::unsupported_node_op("volume"))
    }

    /// Whether registry state changed since the last refresh; a backend
    /// without an event-driven registry never says so.
    fn graph_dirty(&self) -> (dirty: bool)
        default_ensures
            !dirty,
    {
        false
    }

    /// Whether nodes of this type belong to the backend: PipeWire and effect
    /// nodes unless the backend says otherwise.
    fn is_node_type(&self, node_type: NodeType) -> (belongs: bool)
        default_ensures
            belongs == (node_type == NodeType::PipeWire || node_type == NodeType::Effect),
    {
        match node_type {
            NodeType::PipeWire => true,
            NodeType::Effect => true,
            _ => false,
        }
    }

    /// Whether ports of this media type belong to the backend: audio, video
    /// and JACK MIDI unless the backend says otherwise.
    fn is_port_type(&self, port_type: PortType) -> (belongs: bool)
        default_ensures
            belongs == (port_type == PortType::Audio || port_type == PortType::Video || port_type
                == PortType::MidiJack),
    {
        match port_type {
            PortType::Audio => true,
            PortType::Video => true,
            PortType::MidiJack => true,
            _ => false,
        }
    }

    /// Re-read the backend's registry. Other programs may have changed the
    /// graph in the meantime, so nothing is promised of the new graph unless
    /// the driver is static.
    fn refresh(&mut self) -> (nodes: BackendResult<Vec<Node>>)
        ensures
            final(self).spec_is_static() == old(self).spec_is_static(),
            old(self).spec_is_static() ==> nodes is Ok && final(self).spec_graph() == old(
                self,
            ).spec_graph(),
            old(self).spec_is_static() ==> forall|link: LinkId| #[trigger] final(self).spec_link_mutable(link)
                == old(self).spec_link_mutable(link),
    ;

    /// Link two ports. A link that is reported made is in the graph and runs
    /// between exactly those ports. On a static driver it is a new link and
    /// the only change, and a refusal changes nothing.
    fn connect(&mut self, src: PortId, dst: PortId) -> (result: BackendResult<Link>)
        ensures
            final(self).spec_is_static() == old(self).spec_is_static(),
            old(self).spec_is_static() ==> final(self).spec_graph().nodes == old(self).spec_graph().nodes
                && final(self).spec_graph().ports == old(self).spec_graph().ports,
            result matches Ok(link) ==> {
                &&& link.output_port == src
                &&& link.input_port == dst
                &&& final(self).spec_graph().links@.contains_key(link.id.0)
                &&& final(self).spec_graph().links@[link.id.0] == link
                &&& final(self).spec_graph().nodes@ == old(self).spec_graph().nodes@
                &&& final(self).spec_graph().ports@ == old(self).spec_graph().ports@
            },
            old(self).spec_is_static() ==> match result {
                Ok(link) => {
                    &&& !old(self).spec_graph().links@.contains_key(link.id.0)
                    &&& final(self).spec_graph().links@ == old(self).spec_graph().links@.insert(
                        link.id.0,
                        link,
                    )
                },
                Err(_) => same_graph(final(self).spec_graph(), old(self).spec_graph()),
            },
    ;

    /// Remove a link. A link that is reported removed is gone from the
    /// graph. On a static driver that is the only change, and a refusal
    /// changes nothing.
    fn disconnect(&mut self, link: LinkId) -> (result: BackendResult<Link>)
        ensures
            old(self).spec_is_static() ==> forall|l: LinkId|
                #[trigger] final(self).spec_graph().links@.contains_key(l.0) ==> final(self).spec_link_mutable(l)
                    == old(self).spec_link_mutable(l),
            final(self).spec_is_static() == old(self).spec_is_static(),
            old(self).spec_is_static() ==> final(self).spec_graph().nodes == old(self).spec_graph().nodes
                && final(self).spec_graph().ports == old(self).spec_graph().ports,
            result matches Ok(removed) ==> removed.id == link
                && !final(self).spec_graph().links@.contains_key(link.0),
            old(self).spec_is_static() ==> match result {
                Ok(removed) => {
                    &&& old(self).spec_graph().links@.contains_key(link.0)
                    &&& removed == old(self).spec_graph().links@[link.0]
                    &&& final(self).spec_graph().links@ == old(self).spec_graph().links@.remove(link.0)
                    &&& final(self).spec_graph().nodes@ == old(self).spec_graph().nodes@
                    &&& final(self).spec_graph().ports@ == old(self).spec_graph().ports@
                },
                Err(error) => {
                    &&& same_graph(final(self).spec_graph(), old(self).spec_graph())
                    &&& (error matches BackendError::Graph(GraphError::MissingLink(_))
                        ==> !old(self).spec_graph().links@.contains_key(link.0))
                },
            },
    ;

    fn is_link_mutable(&self, link: LinkId) -> (mutable: bool)
        ensures
            mutable == self.spec_link_mutable(link),
    ;

    /// Native drivers may keep a short-lived suppression rule after a manual
    /// disconnect. An explicit connect or undo clears that rule.
    fn allow_connection(&mut self, output: &PortKey, input: &PortKey)
        ensures
            old(self).spec_is_static() ==> forall|l: LinkId|
                #[trigger] final(self).spec_graph().links@.contains_key(l.0) ==> final(self).spec_link_mutable(l)
                    == old(self).spec_link_mutable(l),
            final(self).spec_is_static() == old(self).spec_is_static(),
            old(self).spec_is_static() ==> final(self).spec_graph().nodes == old(self).spec_graph().nodes
                && final(self).spec_graph().ports == old(self).spec_graph().ports,
            same_graph(final(self).spec_graph(), old(self).spec_graph()),
    {
    }

    /// Remember a manual deletion even if the link vanished during the
    /// refresh that preceded the operation.
    fn suppress_connection(&mut self, output: &PortKey, input: &PortKey)
        ensures
            old(self).spec_is_static() ==> forall|l: LinkId|
                #[trigger] final(self).spec_graph().links@.contains_key(l.0) ==> final(self).spec_link_mutable(l)
                    == old(self).spec_link_mutable(l),
            final(self).spec_is_static() == old(self).spec_is_static(),
            old(self).spec_is_static() ==> final(self).spec_graph().nodes == old(self).spec_graph().nodes
                && final(self).spec_graph().ports == old(self).spec_graph().ports,
            same_graph(final(self).spec_graph(), old(self).spec_graph()),
    {
    }

    /// Connect the ports two stable keys name, returning `None` when they
    /// are already linked. A suppression rule for the pair is cleared only
    /// when a connection is actually attempted. The registry is refreshed
    /// first: an action may be based on a graph that has since changed.
    fn connect_by_key_if_missing(&mut self, output: &PortKey, input: &PortKey) -> (result:
        BackendResult<Option<Link>>)
        ensures
            final(self).spec_is_static() == old(self).spec_is_static(),
            old(self).spec_is_static() ==> final(self).spec_graph().nodes == old(self).spec_graph().nodes
                && final(self).spec_graph().ports == old(self).spec_graph().ports,
            match result {
                Ok(None) => spec_keys_linked(&final(self).spec_graph(), output, input),
                Ok(Some(link)) => {
                    &&& final(self).spec_graph().links@.contains_key(link.id.0)
                    &&& final(self).spec_graph().links@[link.id.0] == link
                    &&& spec_link_matches(&final(self).spec_graph(), link, output, input)
                },
                Err(_) => true,
            },
            old(self).spec_is_static() ==> match result {
                Ok(Some(link)) => {
                    &&& !spec_keys_linked(&old(self).spec_graph(), output, input)
                    &&& !old(self).spec_graph().links@.contains_key(link.id.0)
                    &&& final(self).spec_graph().links@ == old(self).spec_graph().links@.insert(
                        link.id.0,
                        link,
                    )
                    &&& final(self).spec_graph().nodes@ == old(self).spec_graph().nodes@
                    &&& final(self).spec_graph().ports@ == old(self).spec_graph().ports@
                },
                _ => same_graph(final(self).spec_graph(), old(self).spec_graph()),
            },
            old(self).spec_is_static() && spec_keys_linked(&old(self).spec_graph(), output, input) ==> result
                == Ok::<Option<Link>, BackendError>(None),
            old(self).spec_is_static() && !spec_keys_linked(&old(self).spec_graph(), output, input)
                && !spec_key_resolves(&old(self).spec_graph(), output) ==> (result matches Err(
                BackendError::Native(m),
            ) && m@ == spec_unavailable_message("source"@, *output)),
            old(self).spec_is_static() && !spec_keys_linked(&old(self).spec_graph(), output, input)
                && spec_key_resolves(&old(self).spec_graph(), output) && !spec_key_resolves(
                &old(self).spec_graph(),
                input,
            ) ==> (result matches Err(BackendError::Native(m)) && m@ == spec_unavailable_message(
                "destination"@,
                *input,
            )),
    {
        match self.refresh() {
            Ok(_) => {},
            Err(error) => return Err(error),
        }
        if self.graph().find_link_by_keys(output, input).is_some() {
            return Ok(None);
        }
        let ghost before = self.spec_graph();
        self.allow_connection(output, input);
        proof {
            let after = self.spec_graph();
            assert forall|p: u64| #[trigger] spec_port_matches(&after, PortId(p), output) == spec_port_matches(
                &before,
                PortId(p),
                output,
            ) && spec_port_matches(&after, PortId(p), input) == spec_port_matches(&before, PortId(p), input) by {}
            if spec_key_resolves(&before, output) {
                let p = choose|p: u64| #[trigger] spec_port_matches(&before, PortId(p), output);
                assert(spec_port_matches(&after, PortId(p), output));
            }
            if spec_key_resolves(&before, input) {
                let p = choose|p: u64| #[trigger] spec_port_matches(&before, PortId(p), input);
                assert(spec_port_matches(&after, PortId(p), input));
            }
            if spec_key_resolves(&after, output) {
                let p = choose|p: u64| #[trigger] spec_port_matches(&after, PortId(p), output);
                assert(spec_port_matches(&before, PortId(p), output));
            }
            if spec_key_resolves(&after, input) {
                let p = choose|p: u64| #[trigger] spec_port_matches(&after, PortId(p), input);
                assert(spec_port_matches(&before, PortId(p), input));
            }
            assert(spec_key_resolves(&after, output) == spec_key_resolves(&before, output));
            assert(spec_key_resolves(&after, input) == spec_key_resolves(&before, input));
        }
        let output_id = match resolve_key(self.graph(), output) {
            Some(id) => id,
            None => return Err(port_unavailable("source", output)),
        };
        let input_id = match resolve_key(self.graph(), input) {
            Some(id) => id,
            None => return Err(port_unavailable("destination", input)),
        };
        match self.connect(output_id, input_id) {
            Ok(link) => Ok(Some(link)),
            Err(BackendError::Graph(GraphError::DuplicateConnection(_, _))) => {
                match self.refresh() {
                    Ok(_) => {},
                    Err(error) => return Err(error),
                }
                if self.graph().find_link_by_keys(output, input).is_some() {
                    Ok(None)
                } else {
                    Err(BackendError::Graph(GraphError::DuplicateConnection(output_id, input_id)))
                }
            },
            Err(error) => Err(error),
        }
    }

    /// Disconnect the link two stable keys name, returning `None` when it has
    /// already vanished; a vanished pair is suppressed so a native backend
    /// does not bring it back.
    fn disconnect_by_key_if_present(&mut self, output: &PortKey, input: &PortKey) -> (result:
        BackendResult<Option<Link>>)
        ensures
            old(self).spec_is_static() ==> forall|l: LinkId|
                #[trigger] final(self).spec_graph().links@.contains_key(l.0) ==> final(self).spec_link_mutable(l)
                    == old(self).spec_link_mutable(l),
            final(self).spec_is_static() == old(self).spec_is_static(),
            result matches Ok(Some(removed)) ==> !final(self).spec_graph().links@.contains_key(
                removed.id.0,
            ),
            old(self).spec_is_static() ==> match result {
                Ok(Some(removed)) => {
                    &&& old(self).spec_graph().links@.contains_key(removed.id.0)
                    &&& old(self).spec_graph().links@[removed.id.0] == removed
                    &&& spec_link_matches(&old(self).spec_graph(), removed, output, input)
                    &&& final(self).spec_graph().links@ == old(self).spec_graph().links@.remove(
                        removed.id.0,
                    )
                    &&& final(self).spec_graph().nodes@ == old(self).spec_graph().nodes@
                    &&& final(self).spec_graph().ports@ == old(self).spec_graph().ports@
                },
                Ok(None) => same_graph(final(self).spec_graph(), old(self).spec_graph()) && !spec_keys_linked(
                    &old(self).spec_graph(),
                    output,
                    input,
                ),
                Err(_) => same_graph(final(self).spec_graph(), old(self).spec_graph()),
            },
            old(self).spec_is_static() ==> ((result == Ok::<Option<Link>, BackendError>(None)) == !spec_keys_linked(
                &old(self).spec_graph(),
                output,
                input,
            )),
    {
        match self.refresh() {
            Ok(_) => {},
            Err(error) => return Err(error),
        }
        let link = match self.graph().find_link_by_keys(output, input) {
            Some(link) => link,
            None => {
                self.suppress_connection(output, input);
                return Ok(None);
            },
        };
        match self.disconnect(link.id) {
            Ok(removed) => Ok(Some(removed)),
            Err(BackendError::Graph(GraphError::MissingLink(_))) => {
                self.suppress_connection(output, input);
                Ok(None)
            },
            Err(error) => Err(error),
        }
    }

    /// As [`Self::disconnect_by_key_if_present`], but leaves suppression
    /// rules alone: a rollback must not invent one.
    fn disconnect_by_key_if_present_without_suppression(
        &mut self,
        output: &PortKey,
        input: &PortKey,
    ) -> (result: BackendResult<Option<Link>>)
        ensures
            final(self).spec_is_static() == old(self).spec_is_static(),
            result matches Ok(Some(removed)) ==> !final(self).spec_graph().links@.contains_key(
                removed.id.0,
            ),
            old(self).spec_is_static() ==> match result {
                Ok(Some(removed)) => {
                    &&& old(self).spec_graph().links@.contains_key(removed.id.0)
                    &&& old(self).spec_graph().links@[removed.id.0] == removed
                    &&& spec_link_matches(&old(self).spec_graph(), removed, output, input)
                    &&& final(self).spec_graph().links@ == old(self).spec_graph().links@.remove(
                        removed.id.0,
                    )
                    &&& final(self).spec_graph().nodes@ == old(self).spec_graph().nodes@
                    &&& final(self).spec_graph().ports@ == old(self).spec_graph().ports@
                },
                Ok(None) => same_graph(final(self).spec_graph(), old(self).spec_graph()) && !spec_keys_linked(
                    &old(self).spec_graph(),
                    output,
                    input,
                ),
                Err(_) => same_graph(final(self).spec_graph(), old(self).spec_graph()),
            },
            old(self).spec_is_static() ==> ((result == Ok::<Option<Link>, BackendError>(None)) == !spec_keys_linked(
                &old(self).spec_graph(),
                output,
                input,
            )),
    {
        match self.refresh() {
            Ok(_) => {},
            Err(error) => return Err(error),
        }
        let link = match self.graph().find_link_by_keys(output, input) {
            Some(link) => link,
            None => return Ok(None),
        };
        match self.disconnect(link.id) {
            Ok(removed) => Ok(Some(removed)),
            Err(BackendError::Graph(GraphError::MissingLink(_))) => Ok(None),
            Err(error) => Err(error),
        }
    }

    /// Resolve both saved endpoints of an effect by key and check their
    /// directions, returning their ids.
    fn effect_resolve_and_validate_endpoints(
        &self,
        source: &PortKey,
        destination: &PortKey,
        source_error: BackendError,
        destination_error: BackendError,
    ) -> (result: BackendResult<(PortId, PortId)>)
        ensures
            spec_endpoint_fault(&self.spec_graph(), source, destination) == 1 ==> result == Err::<
                (PortId, PortId),
                BackendError,
            >(source_error),
            spec_endpoint_fault(&self.spec_graph(), source, destination) == 2 ==> result == Err::<
                (PortId, PortId),
                BackendError,
            >(destination_error),
            (spec_endpoint_fault(&self.spec_graph(), source, destination) == 0) == (result is Ok),
            spec_resolved_endpoints(
                &self.spec_graph(),
                source,
                destination,
                result,
                |v: (PortId, PortId)| v,
            ),
            result matches Ok((o, i)) ==> spec_resolves_to(&self.spec_graph(), source, o)
                && spec_resolves_to(&self.spec_graph(), destination, i),
    {
        let graph = self.graph();
        let output = match resolve_key(graph, source) {
            Some(id) => id,
            None => {
                return Err(source_error);
            },
        };
        let input = match resolve_key(graph, destination) {
            Some(id) => id,
            None => {
                return Err(destination_error);
            },
        };
        let output_port = match graph.port(output) {
            Some(port) => port,
            None => {
                return Err(BackendError::Graph(GraphError::MissingPort(output)));
            },
        };
        let input_port = match graph.port(input) {
            Some(port) => port,
            None => {
                return Err(BackendError::Graph(GraphError::MissingPort(input)));
            },
        };
        if !output_port.direction.is_source() {
            return Err(BackendError::Graph(GraphError::NotSource(output)));
        }
        if !input_port.direction.is_sink() {
            return Err(BackendError::Graph(GraphError::NotSink(input)));
        }
        Ok((output, input))
    }

    /// The two endpoints of the link an effect is about to replace, and that
    /// link: the first, in id order, that runs between them.
    fn effect_link_endpoints(&self, source: &PortKey, destination: &PortKey) -> (result:
        BackendResult<(PortId, PortId, Link)>)
        ensures
            spec_endpoint_fault(&self.spec_graph(), source, destination) == 1 ==> (result matches Err(
                BackendError::Native(m),
            ) && m@ == "effect source port is unavailable"@),
            spec_endpoint_fault(&self.spec_graph(), source, destination) == 2 ==> (result matches Err(
                BackendError::Native(m),
            ) && m@ == "effect destination port is unavailable"@),
            spec_resolved_endpoints(
                &self.spec_graph(),
                source,
                destination,
                result,
                |v: (PortId, PortId, Link)| (v.0, v.1),
            ),
            result matches Ok((o, i, link)) ==> {
                &&& spec_endpoint_fault(&self.spec_graph(), source, destination) == 0
                &&& spec_resolves_to(&self.spec_graph(), source, o)
                &&& spec_resolves_to(&self.spec_graph(), destination, i)
                &&& self.spec_graph().links@.contains_key(link.id.0)
                &&& self.spec_graph().links@[link.id.0] == link
                &&& link.output_port == o
                &&& link.input_port == i
                &&& forall|k: u64|
                    #[trigger] self.spec_graph().links@.contains_key(k) && self.spec_graph().links@[k].output_port == o
                        && self.spec_graph().links@[k].input_port == i ==> link.id.0 <= k
            },
            spec_endpoint_fault(&self.spec_graph(), source, destination) == 0 ==> match result {
                Ok(_) => true,
                Err(error) => {
                    &&& error matches BackendError::Native(m) && m@
                        == "effect source and destination are not linked"@
                    &&& forall|o: PortId, i: PortId|
                        spec_resolves_to(&self.spec_graph(), source, o) && spec_resolves_to(
                            &self.spec_graph(),
                            destination,
                            i,
                        ) ==> !crate::graph::spec_connected(self.spec_graph().links@, o, i)
                },
            },
    {
        let source_error = BackendError::effect_source_unavailable();
        let destination_error = BackendError::effect_destination_unavailable();
        let (output, input) = match self.effect_resolve_and_validate_endpoints(
            source,
            destination,
            source_error,
            destination_error,
        ) {
            Ok(pair) => pair,
            Err(error) => {
                return Err(error);
            },
        };
        let links = self.graph().links.values();
        let mut k: usize = 0;
        while k < links.len()
            invariant
                k <= links@.len(),
                spec_endpoint_fault(&self.spec_graph(), source, destination) == 0,
                spec_resolves_to(&self.spec_graph(), source, output),
                spec_resolves_to(&self.spec_graph(), destination, input),
                links@ == self.spec_graph().links.entries(),
                crate::id_map::seq_map(links@) == self.spec_graph().links@,
                crate::id_map::keys_increasing(links@),
                forall|j: int|
                    0 <= j < k ==> !((#[trigger] links@[j]).output_port == output
                        && links@[j].input_port == input),
            decreases links@.len() - k,
        {
            if links[k].output_port == output && links[k].input_port == input {
                proof {
                    crate::id_map::lemma_seq_map_index(links@, k as int);
                }
                return Ok((output, input, links[k]));
            }
            k = k + 1;
        }
        proof {
            assert forall|key: u64| #[trigger] self.spec_graph().links@.contains_key(key) implies !(
            self.spec_graph().links@[key].output_port == output
                && self.spec_graph().links@[key].input_port == input) by {
                let j = choose|j: int| 0 <= j < links@.len() && links@[j].id_key() == key;
                crate::id_map::lemma_seq_map_index(links@, j);
            }
        }
        Err(BackendError::effect_not_linked())
    }

    /// The saved endpoints of an inserted effect, resolved again so that its
    /// original connection can be restored when it is removed.
    fn effect_restore_endpoints(&self, source: &PortKey, destination: &PortKey) -> (result:
        BackendResult<(PortId, PortId)>)
        ensures
            spec_endpoint_fault(&self.spec_graph(), source, destination) == 1 ==> (result matches Err(
                BackendError::Native(m),
            ) && m@ == "effect source disappeared while removing effect"@),
            spec_endpoint_fault(&self.spec_graph(), source, destination) == 2 ==> (result matches Err(
                BackendError::Native(m),
            ) && m@ == "effect destination disappeared while removing effect"@),
            (spec_endpoint_fault(&self.spec_graph(), source, destination) == 0) == (result is Ok),
            spec_resolved_endpoints(
                &self.spec_graph(),
                source,
                destination,
                result,
                |v: (PortId, PortId)| v,
            ),
            result matches Ok((o, i)) ==> spec_resolves_to(&self.spec_graph(), source, o)
                && spec_resolves_to(&self.spec_graph(), destination, i),
    {
        let source_error = BackendError::effect_source_disappeared();
        let destination_error = BackendError::effect_destination_disappeared();
        self.effect_resolve_and_validate_endpoints(source, destination, source_error, destination_error)
    }
}

/// Whether pair `a` comes before pair `b`: by output port id, then by input port id.
pub open spec fn pair_before(a: (PortId, PortId), b: (PortId, PortId)) -> bool {
    a.0.0 < b.0.0 || (a.0.0 == b.0.0 && a.1.0 < b.1.0)
}

/// The port pairs the driver's links connect, each once and in increasing
/// order, so that patchbay activation does not link a pair twice.
pub fn existing_connections<D: GraphDriver>(driver: &D) -> (pairs: Vec<(PortId, PortId)>)
    ensures
        forall|i: int, j: int|
            #![trigger pairs@[i], pairs@[j]]
            0 <= i < j < pairs@.len() ==> pair_before(pairs@[i], pairs@[j]),
        forall|p: (PortId, PortId)|
            #[trigger] pairs@.contains(p) <==> crate::graph::spec_connected(
                driver.spec_graph().links@,
                p.0,
                p.1,
            ),
{
    let links = driver.graph().links.values();
    let mut pairs: Vec<(PortId, PortId)> = Vec::new();
    let mut i: usize = 0;
    while i < links.len()
        invariant
            i <= links@.len(),
            crate::id_map::seq_map(links@) == driver.spec_graph().links@,
            crate::id_map::keys_increasing(links@),
            forall|a: int, b: int|
                #![trigger pairs@[a], pairs@[b]]
                0 <= a < b < pairs@.len() ==> pair_before(pairs@[a], pairs@[b]),
            forall|p: (PortId, PortId)|
                #[trigger] pairs@.contains(p) <==> exists|j: int|
                    0 <= j < i && (#[trigger] links@[j]).output_port == p.0 && links@[j].input_port
                        == p.1,
        decreases links@.len() - i,
    {
        let pair = (links[i].output_port, links[i].input_port);
        let mut at: usize = 0;
        while at < pairs.len() && pair_is_before(pairs[at], pair)
            invariant
                at <= pairs@.len(),
                forall|j: int| 0 <= j < at ==> pair_before(#[trigger] pairs@[j], pair),
            decreases pairs@.len() - at,
        {
            at = at + 1;
        }
        let ghost before = pairs@;
        if at < pairs.len() && pairs[at].0 == pair.0 && pairs[at].1 == pair.1 {
            proof {
                assert(pairs@[at as int] == pair);
                assert forall|p: (PortId, PortId)| #[trigger] pairs@.contains(p) <==> exists|j: int|
                    0 <= j < i + 1 && (#[trigger] links@[j]).output_port == p.0 && links@[j].input_port
                        == p.1 by {
                    if p == pair {
                        assert(links@[i as int].output_port == p.0);
                    }
                    if exists|j: int|
                        0 <= j < i + 1 && (#[trigger] links@[j]).output_port == p.0 && links@[j].input_port
                            == p.1 {
                        let j = choose|j: int|
                            0 <= j < i + 1 && (#[trigger] links@[j]).output_port == p.0 && links@[j].input_port
                                == p.1;
                        if j < i {
                            assert(exists|j: int|
                                0 <= j < i && (#[trigger] links@[j]).output_port == p.0 && links@[j].input_port
                                    == p.1);
                        } else {
                            assert(p == pair);
                        }
                    }
                }
            }
        } else {
            pairs.insert(at, pair);
            proof {
                assert(pairs@ == before.insert(at as int, pair));
                assert(at < before.len() ==> !pair_before(before[at as int], pair) && before[at as int]
                    != pair);
                assert forall|a: int, b: int|
                    #![trigger pairs@[a], pairs@[b]]
                    0 <= a < b < pairs@.len() implies pair_before(pairs@[a], pairs@[b]) by {
                    if a < at && b == at {
                    } else if a == at && b > at {
                        assert(pairs@[b] == before[b - 1]);
                        if b - 1 > at {
                            assert(pair_before(before[at as int], before[b - 1]));
                        }
                    } else if a < at && b > at {
                        assert(pairs@[a] == before[a]);
                        assert(pairs@[b] == before[b - 1]);
                    } else if a > at {
                        assert(pairs@[a] == before[a - 1]);
                        assert(pairs@[b] == before[b - 1]);
                    } else {
                        assert(pairs@[a] == before[a]);
                        assert(pairs@[b] == before[b]);
                    }
                }
                assert forall|p: (PortId, PortId)| #[trigger] pairs@.contains(p) <==> exists|j: int|
                    0 <= j < i + 1 && (#[trigger] links@[j]).output_port == p.0 && links@[j].input_port
                        == p.1 by {
                    if pairs@.contains(p) {
                        let k = choose|k: int| 0 <= k < pairs@.len() && pairs@[k] == p;
                        if k == at {
                            assert(links@[i as int].output_port == p.0);
                        } else if k < at {
                            assert(before[k] == p);
                            assert(before.contains(p));
                        } else {
                            assert(before[k - 1] == p);
                            assert(before.contains(p));
                        }
                    }
                    if exists|j: int|
                        0 <= j < i + 1 && (#[trigger] links@[j]).output_port == p.0 && links@[j].input_port
                            == p.1 {
                        let j = choose|j: int|
                            0 <= j < i + 1 && (#[trigger] links@[j]).output_port == p.0 && links@[j].input_port
                                == p.1;
                        if j < i {
                            assert(exists|j: int|
                                0 <= j < i && (#[trigger] links@[j]).output_port == p.0 && links@[j].input_port
                                    == p.1);
                            assert(before.contains(p));
                            let k = choose|k: int| 0 <= k < before.len() && before[k] == p;
                            if k < at {
                                assert(pairs@[k] == p);
                            } else {
                                assert(pairs@[k + 1] == p);
                            }
                        } else {
                            assert(p == pair);
                            assert(pairs@[at as int] == p);
                        }
                    }
                }
            }
        }
        i = i + 1;
    }
    proof {
        assert forall|p: (PortId, PortId)| #[trigger] pairs@.contains(p) <==> crate::graph::spec_connected(
            driver.spec_graph().links@,
            p.0,
            p.1,
        ) by {
            if pairs@.contains(p) {
                let j = choose|j: int|
                    0 <= j < links@.len() && (#[trigger] links@[j]).output_port == p.0 && links@[j].input_port
                        == p.1;
                crate::id_map::lemma_seq_map_index(links@, j);
                assert(driver.spec_graph().links@.contains_key(links@[j].id.0));
            }
            if crate::graph::spec_connected(driver.spec_graph().links@, p.0, p.1) {
                let k = choose|k: u64|
                    #[trigger] driver.spec_graph().links@.contains_key(k) && driver.spec_graph().links@[k].output_port
                        == p.0 && driver.spec_graph().links@[k].input_port == p.1;
                let j = choose|j: int| 0 <= j < links@.len() && links@[j].id_key() == k;
                crate::id_map::lemma_seq_map_index(links@, j);
                assert(links@[j].output_port == p.0);
            }
        }
    }
    pairs
}

/// Whether pair `a` comes before pair `b`.
fn pair_is_before(a: (PortId, PortId), b: (PortId, PortId)) -> (before: bool)
    ensures
        before == pair_before(a, b),
{
    a.0.0 < b.0.0 || (a.0.0 == b.0.0 && a.1.0 < b.1.0)
}

} // verus!
