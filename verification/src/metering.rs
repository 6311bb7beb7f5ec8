//! Which nodes a backend may meter, and what each node or backend can do.

use vstd::prelude::*;
use crate::ids::NodeId;
use crate::text::{
    append_chars, append_str, chars_eq_str, chars_of, contains_seq, contains_str, decimal_chars, lower, lowered,
    normal_form, normalized, spec_decimal_chars, string_from_chars,
};

verus! {

/// How freely a backend may open helper streams to measure audio levels.
///
/// Measuring a node means connecting a real capture stream to it, which can
/// resume suspended devices, so metering defaults to `OnDemand`: only nodes
/// the UI currently asks about.
#[derive(Clone, Copy, Debug, PartialEq, Eq, Structural)]
pub enum MeterPolicy {
    Disabled,
    OnDemand,
    Always,
}

impl Default for MeterPolicy {
    fn default() -> (policy: Self)
        ensures
            policy == MeterPolicy::OnDemand,
    {
        MeterPolicy::OnDemand
    }
}

/// The stable name of each policy.
pub open spec fn spec_policy_name(policy: MeterPolicy) -> Seq<char> {
    match policy {
        MeterPolicy::Disabled => "off"@,
        MeterPolicy::OnDemand => "on-demand"@,
        MeterPolicy::Always => "always"@,
    }
}

/// The policy a normalised (trimmed, lower-cased) name selects. Anything not
/// recognised falls back to the default, so an old or hand-edited config still
/// starts without metering everything.
pub open spec fn spec_policy_from_normal(name: Seq<char>) -> MeterPolicy {
    if name == "off"@ || name == "disabled"@ || name == "none"@ {
        MeterPolicy::Disabled
    } else if name == "always"@ || name == "all"@ {
        MeterPolicy::Always
    } else {
        MeterPolicy::OnDemand
    }
}

impl MeterPolicy {
    /// All variants, in declaration order.
    pub const ALL: [MeterPolicy; 3] = [MeterPolicy::Disabled, MeterPolicy::OnDemand, MeterPolicy::Always];

    /// Stable string representation of each variant.
    pub fn as_str(self) -> (name: &'static str)
        ensures
            name@ == spec_policy_name(self),
    {
        match self {
            MeterPolicy::Disabled => "off",
            MeterPolicy::OnDemand => "on-demand",
            MeterPolicy::Always => "always",
        }
    }

    /// Parse a policy name, accepting aliases, ignoring case and surrounding
    /// whitespace; unknown names give the default.
    pub fn parse(value: &str) -> (policy: Self)
        ensures
            policy == spec_policy_from_normal(normal_form(value@)),
    {
        let name = normalized(value);
        let name = name.as_slice();
        if chars_eq_str(name, "off") || chars_eq_str(name, "disabled") || chars_eq_str(name, "none") {
            MeterPolicy::Disabled
        } else if chars_eq_str(name, "always") || chars_eq_str(name, "all") {
            MeterPolicy::Always
        } else {
            MeterPolicy::OnDemand
        }
    }
}

/// Reading a policy's own name gives the policy back.
pub proof fn lemma_policy_name_round_trip(policy: MeterPolicy)
    ensures
        spec_policy_from_normal(normal_form(spec_policy_name(policy))) == policy,
{
    reveal_strlit("off");
    reveal_strlit("on-demand");
    reveal_strlit("always");
    reveal_strlit("disabled");
    reveal_strlit("none");
    reveal_strlit("all");
    let name = spec_policy_name(policy);
    assert(crate::text::trim_start(name) == name);
    assert(crate::text::trim_end(name) == name);
    assert(normal_form(name) =~= name);
}

/// Operations a backend can perform on the resources it exposes.
#[derive(Clone, Copy, Debug, Default, PartialEq, Eq, Structural)]
pub struct BackendCapabilities {
    pub topology: bool,
    pub connect: bool,
    pub disconnect: bool,
    pub volume: bool,
    pub mute: bool,
    pub meters: bool,
    pub effects: bool,
    pub relay: bool,
}

impl BackendCapabilities {
    /// Combine capabilities when a composite exposes several child drivers:
    /// each capability is present if either side has it.
    pub fn union(self, other: Self) -> (both: Self)
        ensures
            both.topology == (self.topology || other.topology),
            both.connect == (self.connect || other.connect),
            both.disconnect == (self.disconnect || other.disconnect),
            both.volume == (self.volume || other.volume),
            both.mute == (self.mute || other.mute),
            both.meters == (self.meters || other.meters),
            both.effects == (self.effects || other.effects),
            both.relay == (self.relay || other.relay),
    {
        BackendCapabilities {
            topology: self.topology || other.topology,
            connect: self.connect || other.connect,
            disconnect: self.disconnect || other.disconnect,
            volume: self.volume || other.volume,
            mute: self.mute || other.mute,
            meters: self.meters || other.meters,
            effects: self.effects || other.effects,
            relay: self.relay || other.relay,
        }
    }
}

/// What one node can do, as opposed to what its backend can do somewhere.
#[derive(Clone, Copy, Debug, Default, PartialEq, Eq, Structural)]
pub struct NodeCapabilities {
    pub volume_read: bool,
    pub volume_write: bool,
    pub mute_read: bool,
    pub mute_write: bool,
    pub meter_peak: bool,
    pub meter_rms: bool,
}

impl NodeCapabilities {
    /// Nothing is supported: the answer for a node the backend does not
    /// recognise.
    pub fn none() -> (caps: Self)
        ensures
            !caps.volume_read && !caps.volume_write && !caps.mute_read && !caps.mute_write
                && !caps.meter_peak && !caps.meter_rms,
    {
        NodeCapabilities {
            volume_read: false,
            volume_write: false,
            mute_read: false,
            mute_write: false,
            meter_peak: false,
            meter_rms: false,
        }
    }

    /// Full read/write control plus both meter kinds.
    pub fn full() -> (caps: Self)
        ensures
            caps.volume_read && caps.volume_write && caps.mute_read && caps.mute_write
                && caps.meter_peak && caps.meter_rms,
    {
        NodeCapabilities {
            volume_read: true,
            volume_write: true,
            mute_read: true,
            mute_write: true,
            meter_peak: true,
            meter_rms: true,
        }
    }

    /// Whether any audio control at all should be drawn for this node.
    pub fn has_any_control(self) -> (any: bool)
        ensures
            any == (self.volume_read || self.volume_write || self.mute_read || self.mute_write),
    {
        self.volume_read || self.volume_write || self.mute_read || self.mute_write
    }

    /// Whether any meter should be drawn for this node.
    pub fn has_any_meter(self) -> (any: bool)
        ensures
            any == (self.meter_peak || self.meter_rms),
    {
        self.meter_peak || self.meter_rms
    }
}

/// A media class names a playback device (its lower-cased form contains
/// "sink").
pub open spec fn spec_is_playback_sink(media_class: Seq<char>) -> bool {
    contains_seq(lower(media_class), "sink"@)
}

/// Whether a media class names a playback device whose output can be
/// observed through its monitor ports.
pub fn media_class_is_playback_sink(media_class: &str) -> (sink: bool)
    ensures
        sink == spec_is_playback_sink(media_class@),
{
    let lowered_class = lowered(media_class);
    contains_str(lowered_class.as_slice(), "sink")
}

/// Whether a node can be metered: it has an audio source port, or it is a
/// playback sink with audio input ports (read through its monitor).
pub fn is_measurable_audio_node(
    media_class: &str,
    has_audio_source_port: bool,
    has_audio_sink_port: bool,
) -> (measurable: bool)
    ensures
        measurable == (has_audio_source_port || (spec_is_playback_sink(media_class@)
            && has_audio_sink_port)),
{
    if has_audio_source_port {
        return true;
    }
    media_class_is_playback_sink(media_class) && has_audio_sink_port
}

/// The nodes that should own a meter under a policy: none when disabled,
/// every measurable node always, and on demand the requested nodes that are
/// measurable, in request order.
pub open spec fn spec_nodes_to_meter(
    policy: MeterPolicy,
    measurable: Seq<NodeId>,
    requested: Seq<NodeId>,
) -> Seq<NodeId> {
    match policy {
        MeterPolicy::Disabled => Seq::empty(),
        MeterPolicy::Always => measurable,
        MeterPolicy::OnDemand => requested.filter(|n: NodeId| measurable.contains(n)),
    }
}

fn contains_node(nodes: &[NodeId], node: NodeId) -> (found: bool)
    ensures
        found == nodes@.contains(node),
{
    let mut i: usize = 0;
    while i < nodes.len()
        invariant
            i <= nodes@.len(),
            forall|j: int| 0 <= j < i ==> nodes@[j] != node,
        decreases nodes@.len() - i,
    {
        if nodes[i] == node {
            assert(nodes@[i as int] == node);
            return true;
        }
        i = i + 1;
    }
    false
}

/// Which nodes should own a meter right now, given a policy.
pub fn nodes_to_meter(policy: MeterPolicy, measurable: &[NodeId], requested: &[NodeId]) -> (meter: Vec<NodeId>)
    ensures
        meter@ == spec_nodes_to_meter(policy, measurable@, requested@),
{
    match policy {
        MeterPolicy::Disabled => Vec::new(),
        MeterPolicy::Always => {
            let mut all: Vec<NodeId> = Vec::new();
            let mut i: usize = 0;
            while i < measurable.len()
                invariant
                    i <= measurable@.len(),
                    all@ == measurable@.subrange(0, i as int),
                decreases measurable@.len() - i,
            {
                all.push(measurable[i]);
                i = i + 1;
                assert(all@ =~= measurable@.subrange(0, i as int));
            }
            assert(measurable@.subrange(0, measurable@.len() as int) =~= measurable@);
            all
        },
        MeterPolicy::OnDemand => {
            let ghost pred = |n: NodeId| measurable@.contains(n);
            let mut chosen: Vec<NodeId> = Vec::new();
            let mut i: usize = 0;
            while i < requested.len()
                invariant
                    i <= requested@.len(),
                    pred == (|n: NodeId| measurable@.contains(n)),
                    chosen@ == requested@.subrange(0, i as int).filter(pred),
                decreases requested@.len() - i,
            {
                let node = requested[i];
                proof {
                    assert(requested@.subrange(0, i + 1) =~= requested@.subrange(0, i as int).push(node));
                    requested@.subrange(0, i as int).lemma_filter_push(node, pred);
                }
                if contains_node(measurable, node) {
                    chosen.push(node);
                }
                i = i + 1;
            }
            assert(requested@.subrange(0, requested@.len() as int) =~= requested@);
            chosen
        },
    }
}

/// Whether a node is missing from `b`.
pub open spec fn not_in(b: Seq<NodeId>) -> spec_fn(NodeId) -> bool {
    |n: NodeId| !b.contains(n)
}

/// The nodes of `a` that `b` does not hold, in the order of `a`.
fn nodes_missing_from(a: &[NodeId], b: &[NodeId]) -> (out: Vec<NodeId>)
    ensures
        out@ == a@.filter(not_in(b@)),
{
    let ghost pred = not_in(b@);
    let mut out: Vec<NodeId> = Vec::new();
    let mut i: usize = 0;
    while i < a.len()
        invariant
            i <= a@.len(),
            pred == not_in(b@),
            out@ == a@.subrange(0, i as int).filter(pred),
        decreases a@.len() - i,
    {
        let node = a[i];
        proof {
            assert(a@.subrange(0, i + 1) =~= a@.subrange(0, i as int).push(node));
            a@.subrange(0, i as int).lemma_filter_push(node, pred);
        }
        if !contains_node(b, node) {
            out.push(node);
        }
        i = i + 1;
    }
    assert(a@.subrange(0, a@.len() as int) =~= a@);
    out
}

/// How to bring the live meter streams to the wanted set: the streams to
/// release (live but no longer wanted, in live order) and the nodes to open
/// one for (wanted but not live, in wanted order). Applying both leaves
/// exactly the wanted nodes metered.
pub fn meter_plan(wanted: &[NodeId], live: &[NodeId]) -> (plan: (Vec<NodeId>, Vec<NodeId>))
    ensures
        plan.0@ == live@.filter(not_in(wanted@)),
        plan.1@ == wanted@.filter(not_in(live@)),
        forall|n: NodeId|
            (live@.contains(n) && !plan.0@.contains(n)) || plan.1@.contains(n) <==> wanted@.contains(n),
{
    let release = nodes_missing_from(live, wanted);
    let create = nodes_missing_from(wanted, live);
    let ghost pr = not_in(wanted@);
    let ghost pc = not_in(live@);
    assert forall|n: NodeId|
        (live@.contains(n) && !release@.contains(n)) || create@.contains(n) <==> wanted@.contains(n) by {
        if wanted@.contains(n) && !live@.contains(n) {
            let k = choose|k: int| 0 <= k < wanted@.len() && wanted@[k] == n;
            wanted@.lemma_filter_contains(pc, k);
        }
        if live@.contains(n) && wanted@.contains(n) && release@.contains(n) {
            let j = choose|j: int| 0 <= j < release@.len() && release@[j] == n;
            live@.lemma_filter_pred(pr, j);
        }
        if live@.contains(n) && !wanted@.contains(n) {
            let k = choose|k: int| 0 <= k < live@.len() && live@[k] == n;
            live@.lemma_filter_contains(pr, k);
        }
        if create@.contains(n) {
            wanted@.lemma_filter_contains_rev(pc, n);
        }
    }
    (release, create)
}

/// The name of the stream that meters a node.
pub open spec fn spec_meter_stream_name(node: NodeId) -> Seq<char> {
    "qpwgraph-rs meter "@ + spec_decimal_chars(node.0 as nat)
}

/// What a meter stream aims at: the node's daemon serial where it has one,
/// which names it uniquely, else its name.
pub open spec fn spec_meter_target(serial: Option<u64>, name: Seq<char>) -> Seq<char> {
    match serial {
        Some(s) => spec_decimal_chars(s as nat),
        None => name,
    }
}

/// The name of a node's meter stream.
pub fn meter_stream_name(node: NodeId) -> (name: String)
    ensures
        name@ == spec_meter_stream_name(node),
{
    let mut t: Vec<char> = Vec::new();
    append_str(&mut t, "qpwgraph-rs meter ");
    let digits = decimal_chars(node.0);
    append_chars(&mut t, digits.as_slice());
    string_from_chars(t.as_slice())
}

/// The description a node's meter stream shows.
pub fn meter_description(node_name: &str) -> (description: String)
    ensures
        description@ == "Level meter: "@ + node_name@,
{
    let mut t: Vec<char> = Vec::new();
    append_str(&mut t, "Level meter: ");
    append_str(&mut t, node_name);
    string_from_chars(t.as_slice())
}

/// The object a node's meter stream targets.
pub fn meter_target(serial: Option<u64>, name: &str) -> (target: String)
    ensures
        target@ == spec_meter_target(serial, name@),
{
    match serial {
        Some(s) => {
            let digits = decimal_chars(s);
            string_from_chars(digits.as_slice())
        },
        None => {
            let chars = chars_of(name);
            string_from_chars(chars.as_slice())
        },
    }
}

/// The IEEE-754 bits of a volume of 1.0, unity gain.
pub const UNITY_VOLUME_BITS: u32 = 0x3f80_0000;

/// The audio controls of one node. The volume is a linear gain, held as the
/// bits of its `f32` value; 1.0 is unity gain.
#[derive(Clone, Copy, Debug, PartialEq, Eq, Structural)]
pub struct NodeAudioControl {
    pub muted: bool,
    pub volume_bits: u32,
}

impl Default for NodeAudioControl {
    /// Unmuted at unity gain.
    fn default() -> (control: Self)
        ensures
            control == (NodeAudioControl { muted: false, volume_bits: UNITY_VOLUME_BITS }),
    {
        NodeAudioControl { muted: false, volume_bits: UNITY_VOLUME_BITS }
    }
}

/// The audio state of one node, as the backend that owns it reports it.
/// `None` means the backend cannot tell, which is not the same as a reading.
/// The volume is held as the bits of its `f32` value.
#[derive(Clone, Copy, Debug, PartialEq, Eq, Structural)]
pub struct NodeAudioState {
    pub volume_bits: Option<u32>,
    pub muted: Option<bool>,
    pub volume_readable: bool,
    pub volume_writable: bool,
    pub mute_readable: bool,
    pub mute_writable: bool,
}

impl NodeAudioState {
    /// A node whose backend exposes no audio controls at all.
    pub fn unsupported() -> (state: Self)
        ensures
            state == (NodeAudioState {
                volume_bits: None,
                muted: None,
                volume_readable: false,
                volume_writable: false,
                mute_readable: false,
                mute_writable: false,
            }),
    {
        NodeAudioState {
            volume_bits: None,
            muted: None,
            volume_readable: false,
            volume_writable: false,
            mute_readable: false,
            mute_writable: false,
        }
    }

    /// A fully controllable node with both values read.
    pub fn readable(volume_bits: u32, muted: bool) -> (state: Self)
        ensures
            state == (NodeAudioState {
                volume_bits: Some(volume_bits),
                muted: Some(muted),
                volume_readable: true,
                volume_writable: true,
                mute_readable: true,
                mute_writable: true,
            }),
    {
        NodeAudioState {
            volume_bits: Some(volume_bits),
            muted: Some(muted),
            volume_readable: true,
            volume_writable: true,
            mute_readable: true,
            mute_writable: true,
        }
    }

    /// Whether the node exposes any audio control.
    pub fn is_supported(&self) -> (supported: bool)
        ensures
            supported == (self.volume_readable || self.volume_writable || self.mute_readable
                || self.mute_writable),
    {
        self.volume_readable || self.volume_writable || self.mute_readable || self.mute_writable
    }

    /// The control half of the node's capabilities; meters are left off.
    pub fn control_capabilities(&self) -> (caps: NodeCapabilities)
        ensures
            caps == (NodeCapabilities {
                volume_read: self.volume_readable,
                volume_write: self.volume_writable,
                mute_read: self.mute_readable,
                mute_write: self.mute_writable,
                meter_peak: false,
                meter_rms: false,
            }),
    {
        NodeCapabilities {
            volume_read: self.volume_readable,
            volume_write: self.volume_writable,
            mute_read: self.mute_readable,
            mute_write: self.mute_writable,
            meter_peak: false,
            meter_rms: false,
        }
    }
}

/// The last levels a meter stream published, with when: the levels are
/// the bits of `f32` values; a reading never published has no time.
#[derive(Clone, Copy, Debug, PartialEq, Eq, Structural)]
pub struct MeterReading {
    pub rms_bits: u32,
    pub peak_bits: u32,
    pub updated_at_ms: Option<u64>,
}

/// How old a reading taken at `at_ms` is at `now_ms`, in milliseconds: zero
/// for a reading from the future, and at most `u32::MAX`.
pub open spec fn spec_age_ms(now_ms: u64, at_ms: u64) -> u32 {
    if now_ms <= at_ms {
        0
    } else if now_ms - at_ms > u32::MAX {
        u32::MAX
    } else {
        (now_ms - at_ms) as u32
    }
}

impl MeterReading {
    /// A meter that has published nothing yet.
    pub fn new() -> (reading: Self)
        ensures
            reading == (MeterReading { rms_bits: 0, peak_bits: 0, updated_at_ms: None }),
    {
        MeterReading { rms_bits: 0, peak_bits: 0, updated_at_ms: None }
    }

    /// Publish levels measured at `at_ms`.
    pub fn store_levels(&mut self, rms_bits: u32, peak_bits: u32, at_ms: u64)
        ensures
            *final(self) == (MeterReading { rms_bits, peak_bits, updated_at_ms: Some(at_ms) }),
    {
        self.rms_bits = rms_bits;
        self.peak_bits = peak_bits;
        self.updated_at_ms = Some(at_ms);
    }

    /// The published levels and their age at `now_ms`, or `None` before the
    /// first publication.
    pub fn levels(&self, now_ms: u64) -> (levels: Option<(u32, u32, u32)>)
        ensures
            levels == match self.updated_at_ms {
                None => None,
                Some(at_ms) => Some((self.rms_bits, self.peak_bits, spec_age_ms(now_ms, at_ms))),
            },
    {
        match self.updated_at_ms {
            None => None,
            Some(at_ms) => {
                let elapsed = now_ms.saturating_sub(at_ms);
                let age_ms: u32 = if elapsed > 0xffff_ffff {
                    0xffff_ffff
                } else {
                    elapsed as u32
                };
                Some((self.rms_bits, self.peak_bits, age_ms))
            },
        }
    }
}


/// Which nodes get a meter: none when metering is off; every measurable node
/// when it is always on; and on demand exactly the requested nodes that are
/// measurable, each as often and in the order it was requested.
pub proof fn lemma_nodes_to_meter_members(policy: MeterPolicy, measurable: Seq<NodeId>, requested: Seq<NodeId>)
    ensures
        policy == MeterPolicy::Disabled ==> spec_nodes_to_meter(policy, measurable, requested).len() == 0,
        policy == MeterPolicy::Always ==> spec_nodes_to_meter(policy, measurable, requested) == measurable,
        policy == MeterPolicy::OnDemand ==> forall|n: NodeId|
            #[trigger] spec_nodes_to_meter(policy, measurable, requested).contains(n) <==> requested.contains(n)
                && measurable.contains(n),
        policy == MeterPolicy::OnDemand ==> spec_nodes_to_meter(policy, measurable, requested).len() <= requested.len(),
{
    if policy == MeterPolicy::OnDemand {
        let pred = |n: NodeId| measurable.contains(n);
        let out = spec_nodes_to_meter(policy, measurable, requested);
        assert(out == requested.filter(pred));
        requested.lemma_filter_len(pred);
        assert forall|n: NodeId| #[trigger] out.contains(n) <==> requested.contains(n) && measurable.contains(n) by {
            if out.contains(n) {
                let j = choose|j: int| 0 <= j < out.len() && out[j] == n;
                requested.lemma_filter_pred(pred, j);
                requested.lemma_filter_contains_rev(pred, n);
            }
            if requested.contains(n) && measurable.contains(n) {
                let k = choose|k: int| 0 <= k < requested.len() && requested[k] == n;
                requested.lemma_filter_contains(pred, k);
            }
        }
    }
}

} // verus!
