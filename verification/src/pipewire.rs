//! Decisions the PipeWire backend makes from registry metadata.

use vstd::prelude::*;
use crate::backend::{BackendError, BackendResult, EffectNodeRequest};
use crate::graph::{
    key_view, spec_connected, spec_port_key, Direction, Graph, GraphError, KeyView, Link, PortKey, PortType,
};
use crate::ids::{NodeId, PortId};
use crate::metering::{nodes_to_meter, spec_nodes_to_meter, MeterPolicy};
use crate::text::{
    append_str, chars_of, contains_seq, contains_str, lower, lowered, string_from_chars, trim,
    trim_chars,
};

verus! {

/// A port's media type: its own `format.dsp`/media metadata first, then the
/// media class of its node, matched case-insensitively; MIDI before video
/// before audio.
pub open spec fn spec_classify_port_type(media_type: Seq<char>, node_media_class: Seq<char>) -> PortType {
    let media = lower(media_type);
    let class = lower(node_media_class);
    if contains_seq(media, "midi"@) {
        PortType::MidiJack
    } else if contains_seq(media, "video"@) {
        PortType::Video
    } else if contains_seq(media, "audio"@) {
        PortType::Audio
    } else if contains_seq(class, "midi"@) {
        PortType::MidiJack
    } else if contains_seq(class, "video"@) {
        PortType::Video
    } else if contains_seq(class, "audio"@) {
        PortType::Audio
    } else {
        PortType::Unknown
    }
}

pub fn classify_port_type(media_type: &str, node_media_class: Option<&str>) -> (port_type: PortType)
    ensures
        port_type == spec_classify_port_type(
            media_type@,
            match node_media_class {
                Some(class) => class@,
                None => Seq::empty(),
            },
        ),
{
    let media = lowered(media_type);
    let class = match node_media_class {
        Some(class) => lowered(class),
        None => {
            assert(lower(Seq::<char>::empty()) =~= Seq::<char>::empty());
            Vec::new()
        },
    };
    if contains_str(media.as_slice(), "midi") {
        PortType::MidiJack
    } else if contains_str(media.as_slice(), "video") {
        PortType::Video
    } else if contains_str(media.as_slice(), "audio") {
        PortType::Audio
    } else if contains_str(class.as_slice(), "midi") {
        PortType::MidiJack
    } else if contains_str(class.as_slice(), "video") {
        PortType::Video
    } else if contains_str(class.as_slice(), "audio") {
        PortType::Audio
    } else {
        PortType::Unknown
    }
}

/// Text handed to PipeWire is a C string, so it may not hold a NUL.
pub fn validate_pipewire_text(label: &str, value: &str) -> (result: BackendResult<()>)
    ensures
        match result {
            Ok(()) => !value@.contains('\0'),
            Err(error) => value@.contains('\0') && (error matches BackendError::Native(m) && m@
                == label@ + " contains a NUL byte and cannot be passed to PipeWire"@),
        },
{
    let chars = crate::text::chars_of(value);
    let mut i: usize = 0;
    while i < chars.len()
        invariant
            chars@ == value@,
            i <= chars@.len(),
            forall|j: int| 0 <= j < i ==> chars@[j] != '\0',
        decreases chars@.len() - i,
    {
        if chars[i] == '\0' {
            let mut t: Vec<char> = Vec::new();
            append_str(&mut t, label);
            append_str(&mut t, " contains a NUL byte and cannot be passed to PipeWire");
            return Err(BackendError::Native(string_from_chars(t.as_slice())));
        }
        i = i + 1;
    }
    Ok(())
}

/// Check an effect request before anything is created for it: the
/// instance id may not be blank, and neither id may hold a NUL.
pub fn validate_request(request: &EffectNodeRequest) -> (result: BackendResult<()>)
    ensures
        trim(request.instance_id@).len() == 0 ==> (result matches Err(BackendError::Native(m)) && m@
            == "effect instance id cannot be empty"@),
        trim(request.instance_id@).len() > 0 && request.instance_id@.contains('\0') ==> (
        result matches Err(BackendError::Native(m)) && m@ == "effect instance id"@
            + " contains a NUL byte and cannot be passed to PipeWire"@),
        trim(request.instance_id@).len() > 0 && !request.instance_id@.contains('\0')
            && request.effect_id@.contains('\0') ==> (result matches Err(BackendError::Native(m)) && m@
            == "effect id"@ + " contains a NUL byte and cannot be passed to PipeWire"@),
        result is Ok <==> trim(request.instance_id@).len() > 0 && !request.instance_id@.contains('\0')
            && !request.effect_id@.contains('\0'),
{
    let chars = chars_of(request.instance_id.as_str());
    let trimmed = trim_chars(chars.as_slice());
    if trimmed.len() == 0 {
        return Err(BackendError::native("effect instance id cannot be empty"));
    }
    match validate_pipewire_text("effect instance id", request.instance_id.as_str()) {
        Ok(()) => {},
        Err(error) => {
            return Err(error);
        },
    }
    validate_pipewire_text("effect id", request.effect_id.as_str())
}

/// Whether two keys name the same port for a blocking rule: every part but
/// the node serial agrees, and a key without a channel matches any channel.
pub open spec fn spec_keys_equal(a: KeyView, b: KeyView) -> bool {
    &&& a.0 == b.0
    &&& a.2 == b.2
    &&& a.3 == b.3
    &&& (a.4 is None || b.4 is None || a.4 == b.4)
    &&& a.5 == b.5
    &&& a.6 == b.6
}

/// Whether two keys name the same port for a blocking rule.
pub fn port_keys_equal(left: &PortKey, right: &PortKey) -> (equal: bool)
    ensures
        equal == spec_keys_equal(key_view(*left), key_view(*right)),
{
    let channels = match (&left.channel, &right.channel) {
        (Some(a), Some(b)) => *a == *b,
        _ => true,
    };
    left.node_name == right.node_name && left.node_type == right.node_type && left.port_name
        == right.port_name && channels && left.direction == right.direction && left.port_type
        == right.port_type
}

/// Whether a rule blocks the pair of keys.
pub open spec fn spec_pair_blocked(rule: (PortKey, PortKey), output: KeyView, input: KeyView) -> bool {
    spec_keys_equal(key_view(rule.0), output) && spec_keys_equal(key_view(rule.1), input)
}

/// Pairs of ports a manual disconnect keeps apart: a session manager that
/// relinks them is undone until an explicit connect allows them again.
pub struct BlockedConnections {
    rules: Vec<(PortKey, PortKey)>,
}

impl BlockedConnections {
    /// The rules, oldest first.
    pub closed spec fn rules(&self) -> Seq<(PortKey, PortKey)> {
        self.rules@
    }

    /// Whether some rule blocks the pair.
    pub open spec fn spec_is_blocked(&self, output: KeyView, input: KeyView) -> bool {
        exists|i: int| 0 <= i < self.rules().len() && spec_pair_blocked(#[trigger] self.rules()[i], output, input)
    }

    pub fn new() -> (blocked: Self)
        ensures
            blocked.rules() == Seq::<(PortKey, PortKey)>::empty(),
    {
        BlockedConnections { rules: Vec::new() }
    }

    /// Whether some rule blocks the pair of keys.
    pub fn is_blocked_pair(&self, output: &PortKey, input: &PortKey) -> (blocked: bool)
        ensures
            blocked == self.spec_is_blocked(key_view(*output), key_view(*input)),
    {
        let mut i: usize = 0;
        while i < self.rules.len()
            invariant
                i <= self.rules@.len(),
                forall|j: int| 0 <= j < i ==> !spec_pair_blocked(#[trigger] self.rules()[j], key_view(*output), key_view(*input)),
            decreases self.rules@.len() - i,
        {
            if port_keys_equal(&self.rules[i].0, output) && port_keys_equal(&self.rules[i].1, input) {
                assert(spec_pair_blocked(self.rules()[i as int], key_view(*output), key_view(*input)));
                return true;
            }
            i = i + 1;
        }
        false
    }

    /// Whether a link of the graph runs between a blocked pair. A link
    /// whose ports or nodes are gone is not blocked.
    pub fn connection_is_blocked(&self, graph: &Graph, link: &Link) -> (blocked: bool)
        ensures
            blocked == match (spec_port_key(graph, link.output_port), spec_port_key(graph, link.input_port)) {
                (Some(output), Some(input)) => self.spec_is_blocked(output, input),
                _ => false,
            },
    {
        let output = match graph.port_key(link.output_port) {
            Some(key) => key,
            None => {
                return false;
            },
        };
        let input = match graph.port_key(link.input_port) {
            Some(key) => key,
            None => {
                return false;
            },
        };
        self.is_blocked_pair(&output, &input)
    }

    /// Drop every rule that blocks the pair.
    pub fn allow_blocked_connection(&mut self, output: &PortKey, input: &PortKey)
        ensures
            final(self).rules() == old(self).rules().filter(
                |rule: (PortKey, PortKey)| !spec_pair_blocked(rule, key_view(*output), key_view(*input)),
            ),
    {
        let ghost keep = |rule: (PortKey, PortKey)| !spec_pair_blocked(rule, key_view(*output), key_view(*input));
        let mut kept: Vec<(PortKey, PortKey)> = Vec::new();
        let mut i: usize = 0;
        while i < self.rules.len()
            invariant
                i <= self.rules@.len(),
                keep == (|rule: (PortKey, PortKey)| !spec_pair_blocked(rule, key_view(*output), key_view(*input))),
                kept@ == self.rules@.subrange(0, i as int).filter(keep),
            decreases self.rules@.len() - i,
        {
            let rule = &self.rules[i];
            proof {
                assert(self.rules@.subrange(0, i + 1) =~= self.rules@.subrange(0, i as int).push(
                    self.rules@[i as int],
                ));
                self.rules@.subrange(0, i as int).lemma_filter_push(self.rules@[i as int], keep);
            }
            if !(port_keys_equal(&rule.0, output) && port_keys_equal(&rule.1, input)) {
                kept.push((rule.0.clone(), rule.1.clone()));
            }
            i = i + 1;
        }
        assert(self.rules@.subrange(0, self.rules@.len() as int) =~= self.rules@);
        self.rules = kept;
    }

    /// Add a rule for the pair a link of the graph runs between, unless one
    /// already blocks it or the link's ports or nodes are gone.
    pub fn block_connection(&mut self, graph: &Graph, link: &Link)
        ensures
            match (spec_port_key(graph, link.output_port), spec_port_key(graph, link.input_port)) {
                (Some(output), Some(input)) => if old(self).spec_is_blocked(output, input) {
                    final(self).rules() == old(self).rules()
                } else {
                    final(self).rules().len() == old(self).rules().len() + 1
                        && final(self).rules().drop_last() == old(self).rules()
                        && key_view(final(self).rules().last().0) == output
                        && key_view(final(self).rules().last().1) == input
                },
                _ => final(self).rules() == old(self).rules(),
            },
    {
        let output = match graph.port_key(link.output_port) {
            Some(key) => key,
            None => {
                return;
            },
        };
        let input = match graph.port_key(link.input_port) {
            Some(key) => key,
            None => {
                return;
            },
        };
        if !self.is_blocked_pair(&output, &input) {
            self.rules.push((output, input));
            assert(self.rules@.drop_last() =~= old(self).rules@);
        }
    }
}

/// Whether a node has a port in the graph that is an audio source.
pub open spec fn spec_has_audio_source(graph: &Graph, ports: Seq<crate::ids::PortId>) -> bool {
    exists|i: int|
        0 <= i < ports.len() && graph.ports@.contains_key(#[trigger] ports[i].0)
            && graph.ports@[ports[i].0].direction == Direction::Source
            && graph.ports@[ports[i].0].port_type == PortType::Audio
}

/// The nodes that can be measured, in id order: those with an audio
/// source port.
pub fn measurable_nodes(graph: &Graph) -> (nodes: Vec<NodeId>)
    ensures
        nodes@ == graph.nodes.entries().filter(|n: crate::graph::Node| spec_has_audio_source(graph, n.ports@)).map_values(
            |n: crate::graph::Node| n.id,
        ),
{
    let values = graph.nodes.values();
    let ghost pred = |n: crate::graph::Node| spec_has_audio_source(graph, n.ports@);
    let mut nodes: Vec<NodeId> = Vec::new();
    let mut i: usize = 0;
    while i < values.len()
        invariant
            i <= values@.len(),
            values@ == graph.nodes.entries(),
            pred == (|n: crate::graph::Node| spec_has_audio_source(graph, n.ports@)),
            nodes@ == values@.subrange(0, i as int).filter(pred).map_values(|n: crate::graph::Node| n.id),
        decreases values@.len() - i,
    {
        let node = &values[i];
        let mut found = false;
        let mut j: usize = 0;
        while j < node.ports.len()
            invariant
                j <= node.ports@.len(),
                found == exists|k: int|
                    0 <= k < j && graph.ports@.contains_key(#[trigger] node.ports@[k].0)
                        && graph.ports@[node.ports@[k].0].direction == Direction::Source
                        && graph.ports@[node.ports@[k].0].port_type == PortType::Audio,
            decreases node.ports@.len() - j,
        {
            match graph.port(node.ports[j]) {
                Some(port) => {
                    if port.direction.is_source() && port.port_type == PortType::Audio {
                        found = true;
                    }
                },
                None => {},
            }
            j = j + 1;
        }
        proof {
            assert(values@.subrange(0, i + 1) =~= values@.subrange(0, i as int).push(values@[i as int]));
            values@.subrange(0, i as int).lemma_filter_push(values@[i as int], pred);
            assert(found == pred(values@[i as int]));
        }
        if found {
            nodes.push(node.id);
        }
        proof {
            let before = values@.subrange(0, i as int).filter(pred);
            let after = values@.subrange(0, i + 1).filter(pred);
            if found {
                assert(after == before.push(values@[i as int]));
                assert(after.map_values(|n: crate::graph::Node| n.id) =~= before.map_values(
                    |n: crate::graph::Node| n.id,
                ).push(values@[i as int].id));
            } else {
                assert(after == before);
            }
        }
        i = i + 1;
    }
    assert(values@.subrange(0, values@.len() as int) =~= values@);
    nodes
}

/// The nodes that should own a metering stream now: none when metering is
/// off, every measurable node when it is always on, and otherwise those the
/// interface asked for that can be measured.
pub fn wanted_meter_nodes(policy: MeterPolicy, graph: &Graph, requested: &[NodeId]) -> (wanted: Vec<NodeId>)
    ensures
        wanted@ == spec_nodes_to_meter(
            policy,
            graph.nodes.entries().filter(|n: crate::graph::Node| spec_has_audio_source(graph, n.ports@)).map_values(
                |n: crate::graph::Node| n.id,
            ),
            requested@,
        ),
{
    let measurable = measurable_nodes(graph);
    nodes_to_meter(policy, measurable.as_slice(), requested)
}

/// One step of the xorshift generator that feeds a dangling effect input
/// with a faint diagnostic signal: shifts of 13 left, 17 right, 5 left,
/// each folded in with exclusive or.
pub open spec fn spec_xorshift32(x: u32) -> u32 {
    let a = x ^ ((x << 13u32) as u32);
    let b = a ^ (a >> 17u32);
    b ^ ((b << 5u32) as u32)
}

/// The next state of the diagnostic-signal generator.
pub fn xorshift32(state: u32) -> (next: u32)
    ensures
        next == spec_xorshift32(state),
{
    let mut next = state;
    next = next ^ (next << 13u32);
    next = next ^ (next >> 17u32);
    next = next ^ (next << 5u32);
    next
}

/// Why the PipeWire backend refuses to link two ports, checked in this
/// order; `None` when it goes ahead. A port whose media type is unknown may
/// be linked to a port of any type, since the daemon negotiates the format.
pub open spec fn spec_native_link_error(g: &Graph, src: PortId, dst: PortId) -> Option<GraphError> {
    if !g.ports@.contains_key(src.0) {
        Some(GraphError::MissingPort(src))
    } else if !g.ports@.contains_key(dst.0) {
        Some(GraphError::MissingPort(dst))
    } else if g.ports@[src.0].direction != Direction::Source {
        Some(GraphError::NotSource(src))
    } else if g.ports@[dst.0].direction != Direction::Sink {
        Some(GraphError::NotSink(dst))
    } else if g.ports@[src.0].port_type != g.ports@[dst.0].port_type && g.ports@[src.0].port_type
        != PortType::Unknown && g.ports@[dst.0].port_type != PortType::Unknown {
        Some(GraphError::IncompatiblePorts(src, dst))
    } else if spec_connected(g.links@, src, dst) {
        Some(GraphError::DuplicateConnection(src, dst))
    } else {
        None
    }
}

/// Check a connection request against the PipeWire backend's rules.
pub fn native_link_error(graph: &Graph, src: PortId, dst: PortId) -> (error: Option<GraphError>)
    ensures
        error == spec_native_link_error(graph, src, dst),
{
    let output = match graph.port(src) {
        Some(port) => port,
        None => return Some(GraphError::MissingPort(src)),
    };
    let input = match graph.port(dst) {
        Some(port) => port,
        None => return Some(GraphError::MissingPort(dst)),
    };
    if !output.direction.is_source() {
        return Some(GraphError::NotSource(src));
    }
    if !input.direction.is_sink() {
        return Some(GraphError::NotSink(dst));
    }
    if output.port_type != input.port_type && output.port_type != PortType::Unknown && input.port_type
        != PortType::Unknown {
        return Some(GraphError::IncompatiblePorts(src, dst));
    }
    if graph.is_connected(src, dst) {
        return Some(GraphError::DuplicateConnection(src, dst));
    }
    None
}


/// The most frames one effect callback processes.
pub const MAX_DSP_FRAMES: u32 = 16384;

/// The frames an effect callback may process in a cycle of `duration`
/// frames: none for an empty cycle or one longer than `MAX_DSP_FRAMES`,
/// which the callback reports as a processor failure and leaves alone.
pub fn dsp_frames(duration: u64) -> (frames: Option<u32>)
    ensures
        match frames {
            Some(f) => 0 < duration <= MAX_DSP_FRAMES && f == duration,
            None => duration == 0 || duration > MAX_DSP_FRAMES,
        },
{
    if duration == 0 || duration > 16384 {
        None
    } else {
        Some(duration as u32)
    }
}

} // verus!
