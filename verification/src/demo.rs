//! A deterministic in-memory backend for demo mode and tests.
//!
//! It behaves like a PipeWire registry from the application's side: links
//! are created and removed in its own graph, links can be marked as observed
//! (reported but not user-mutable), and manual disconnects can be
//! suppressed. Failures can be injected for chosen operations, which is how
//! the rollback paths of the graph commands are exercised.

use vstd::prelude::*;
use crate::backend::{
    effect_create_failed, BackendError, BackendResult, EffectInsertRequest, EffectInstance,
    EffectNodeRequest,
};
use crate::effects::{builtin_effect_name, EffectInstanceConfig};
use crate::driver::{same_graph, spec_endpoint_fault, spec_resolves_to, GraphDriver};
use crate::graph::{
    key_view, spec_add_link_error, Direction, Graph, GraphError, Link, Node, NodeType, Port, PortKey,
    PortType,
};
use crate::id_map::{IdMap, Keyed};
use crate::ids::{LinkId, NodeId, PortId};
use crate::metering::{
    BackendCapabilities, NodeAudioControl, NodeAudioState, NodeCapabilities, UNITY_VOLUME_BITS,
};
use crate::text::{
    append_str, chars_before, chars_of, lemma_name_before_irreflexive, lemma_name_before_total,
    lemma_name_before_transitive, name_before, string_from_chars,
};

verus! {

/// A pair of stable keys, as plain values.
pub open spec fn pair_view(pair: (PortKey, PortKey)) -> (
    (Seq<char>, Option<u64>, NodeType, Seq<char>, Option<Seq<char>>, Direction, PortType),
    (Seq<char>, Option<u64>, NodeType, Seq<char>, Option<Seq<char>>, Direction, PortType),
) {
    (key_view(pair.0), key_view(pair.1))
}

/// Instance ids strictly increase along the sequence.
pub open spec fn instances_in_id_order(s: Seq<EffectInstance>) -> bool {
    forall|i: int, j: int|
        #![trigger s[i], s[j]]
        0 <= i < j < s.len() ==> name_before(s[i].config.instance_id@, s[j].config.instance_id@)
}

/// Whether some instance of `s` has this id.
pub open spec fn has_instance(s: Seq<EffectInstance>, instance_id: Seq<char>) -> bool {
    exists|i: int| 0 <= i < s.len() && (#[trigger] s[i]).config.instance_id@ == instance_id
}

/// Effect instances, at most one per instance id, kept in id order.
#[derive(Debug)]
pub struct EffectInstances {
    entries: Vec<EffectInstance>,
}

impl EffectInstances {
    #[verifier::type_invariant]
    closed spec fn ordered(&self) -> bool {
        instances_in_id_order(self.entries@)
    }

    /// The instances in id order.
    pub closed spec fn entries(&self) -> Seq<EffectInstance> {
        self.entries@
    }

    pub fn new() -> (instances: Self)
        ensures
            instances.entries() == Seq::<EffectInstance>::empty(),
    {
        EffectInstances { entries: Vec::new() }
    }

    /// The instances, in increasing id order.
    pub fn values(&self) -> (values: &[EffectInstance])
        ensures
            values@ == self.entries(),
            instances_in_id_order(values@),
    {
        proof {
            use_type_invariant(self);
        }
        self.entries.as_slice()
    }

    /// Where the instance with this id is.
    pub fn position(&self, instance_id: &str) -> (found: Option<usize>)
        ensures
            match found {
                Some(i) => i < self.entries().len() && self.entries()[i as int].config.instance_id@
                    == instance_id@,
                None => !has_instance(self.entries(), instance_id@),
            },
    {
        let wanted = chars_of(instance_id);
        let mut i: usize = 0;
        while i < self.entries.len()
            invariant
                i <= self.entries@.len(),
                wanted@ == instance_id@,
                forall|j: int| 0 <= j < i ==> (#[trigger] self.entries@[j]).config.instance_id@ != instance_id@,
            decreases self.entries@.len() - i,
        {
            let here = chars_of(self.entries[i].config.instance_id.as_str());
            if crate::text::chars_eq(here.as_slice(), wanted.as_slice()) {
                return Some(i);
            }
            i = i + 1;
        }
        None
    }

    /// Add an instance whose id is not present yet, at its place in id order.
    pub fn insert(&mut self, instance: EffectInstance) -> (at: usize)
        requires
            !has_instance(old(self).entries(), instance.config.instance_id@),
        ensures
            at <= old(self).entries().len(),
            final(self).entries() == old(self).entries().insert(at as int, instance),
    {
        proof {
            use_type_invariant(&*self);
        }
        let ghost id = instance.config.instance_id@;
        let wanted = chars_of(instance.config.instance_id.as_str());
        let mut at: usize = 0;
        while at < self.entries.len()
            invariant
                at <= self.entries@.len(),
                wanted@ == id,
                id == instance.config.instance_id@,
                instances_in_id_order(self.entries@),
                !has_instance(self.entries@, id),
                forall|j: int| 0 <= j < at ==> name_before((#[trigger] self.entries@[j]).config.instance_id@, id),
            ensures
                at <= self.entries@.len(),
                at < self.entries@.len() ==> name_before(id, self.entries@[at as int].config.instance_id@),
                forall|j: int| 0 <= j < at ==> name_before((#[trigger] self.entries@[j]).config.instance_id@, id),
            decreases self.entries@.len() - at,
        {
            let here = chars_of(self.entries[at].config.instance_id.as_str());
            if chars_before(wanted.as_slice(), here.as_slice()) {
                break;
            }
            proof {
                let other = self.entries@[at as int].config.instance_id@;
                if other != id {
                    lemma_name_before_total(other, id);
                } else {
                    assert(has_instance(self.entries@, id));
                }
            }
            at = at + 1;
        }
        let ghost before = self.entries@;
        let ghost after = before.insert(at as int, instance);
        proof {
            assert(at < before.len() ==> name_before(id, before[at as int].config.instance_id@));
            assert forall|i: int, j: int| 0 <= i < j < after.len() implies name_before(
                (#[trigger] after[i]).config.instance_id@,
                (#[trigger] after[j]).config.instance_id@,
            ) by {
                if i < at && j == at {
                } else if i == at && j > at {
                    if j - 1 > at {
                        lemma_name_before_transitive(
                            id,
                            before[at as int].config.instance_id@,
                            before[j - 1].config.instance_id@,
                        );
                    }
                } else if i < at && j > at {
                    assert(before[i] == after[i]);
                    assert(before[j - 1] == after[j]);
                } else if i > at {
                    assert(before[i - 1] == after[i]);
                    assert(before[j - 1] == after[j]);
                }
            }
        }
        let mut entries: Vec<EffectInstance> = Vec::new();
        std::mem::swap(&mut entries, &mut self.entries);
        entries.insert(at, instance);
        self.entries = entries;
        at
    }

    /// Take out the instance at `at`.
    pub fn remove(&mut self, at: usize) -> (removed: EffectInstance)
        requires
            at < old(self).entries().len(),
        ensures
            removed == old(self).entries()[at as int],
            final(self).entries() == old(self).entries().remove(at as int),
    {
        proof {
            use_type_invariant(&*self);
            let before = self.entries@;
            let after = before.remove(at as int);
            assert forall|i: int, j: int| 0 <= i < j < after.len() implies name_before(
                (#[trigger] after[i]).config.instance_id@,
                (#[trigger] after[j]).config.instance_id@,
            ) by {
                let bi = if i < at { i } else { i + 1 };
                let bj = if j < at { j } else { j + 1 };
                assert(after[i] == before[bi]);
                assert(after[j] == before[bj]);
            }
        }
        let mut entries: Vec<EffectInstance> = Vec::new();
        std::mem::swap(&mut entries, &mut self.entries);
        let removed = entries.remove(at);
        self.entries = entries;
        removed
    }

    /// Put `instance` in place of the instance with the same id at `at`.
    pub fn replace(&mut self, at: usize, instance: EffectInstance)
        requires
            at < old(self).entries().len(),
            instance.config.instance_id@ == old(self).entries()[at as int].config.instance_id@,
        ensures
            final(self).entries() == old(self).entries().update(at as int, instance),
    {
        proof {
            use_type_invariant(&*self);
            let after = self.entries@.update(at as int, instance);
            assert forall|i: int, j: int| 0 <= i < j < after.len() implies name_before(
                (#[trigger] after[i]).config.instance_id@,
                (#[trigger] after[j]).config.instance_id@,
            ) by {
                assert(self.entries@[i].config.instance_id@ == after[i].config.instance_id@);
                assert(self.entries@[j].config.instance_id@ == after[j].config.instance_id@);
            }
        }
        let mut entries: Vec<EffectInstance> = Vec::new();
        std::mem::swap(&mut entries, &mut self.entries);
        entries.set(at, instance);
        self.entries = entries;
    }
}

pub struct DemoDriver {
    graph: Graph,
    next_link_id: u64,
    observed_links: Vec<LinkId>,
    suppressed: Vec<(PortKey, PortKey)>,
    failing_connects: Vec<(PortId, PortId)>,
    failing_disconnects: Vec<LinkId>,
    failing_disconnect_pairs: Vec<(PortId, PortId)>,
    effects: EffectInstances,
    next_effect_id: u64,
    audio_controls: IdMap<NodeAudioRecord>,
}

/// The audio controls the demo driver keeps for one node.
#[derive(Debug)]
pub struct NodeAudioRecord {
    pub node: NodeId,
    pub control: NodeAudioControl,
}

impl Keyed for NodeAudioRecord {
    open spec fn id_key(&self) -> u64 {
        self.node.0
    }

    fn key(&self) -> (k: u64) {
        self.node.0
    }
}

/// The name an effect node is shown under: the effect's name and the
/// instance id, so several copies of one effect stay apart when a patchbay
/// or an undo finds them again by name.
pub open spec fn spec_effect_node_name(effect_name: Seq<char>, instance_id: Seq<char>) -> Seq<char> {
    effect_name + " ("@ + instance_id + ")"@
}

/// Whether `g` holds the node and the two ports of an effect whose node id
/// is `n`: the node named `name`, of type `Effect`, with the input port
/// `n + 1` (an audio sink) and the output port `n + 2` (an audio source).
pub open spec fn spec_effect_node_in(g: Graph, n: u64, name: Seq<char>) -> bool {
    &&& g.nodes@.contains_key(n)
    &&& g.nodes@[n].id == NodeId(n)
    &&& g.nodes@[n].name@ == name
    &&& g.nodes@[n].node_type == NodeType::Effect
    &&& g.nodes@[n].ports@ == seq![PortId((n + 1) as u64), PortId((n + 2) as u64)]
    &&& g.ports@.contains_key((n + 1) as u64)
    &&& g.ports@[(n + 1) as u64].id == PortId((n + 1) as u64)
    &&& g.ports@[(n + 1) as u64].node_id == NodeId(n)
    &&& g.ports@[(n + 1) as u64].name@ == "input"@
    &&& g.ports@[(n + 1) as u64].direction == Direction::Sink
    &&& g.ports@[(n + 1) as u64].port_type == PortType::Audio
    &&& g.ports@.contains_key((n + 2) as u64)
    &&& g.ports@[(n + 2) as u64].id == PortId((n + 2) as u64)
    &&& g.ports@[(n + 2) as u64].node_id == NodeId(n)
    &&& g.ports@[(n + 2) as u64].name@ == "output"@
    &&& g.ports@[(n + 2) as u64].direction == Direction::Source
    &&& g.ports@[(n + 2) as u64].port_type == PortType::Audio
}

/// Whether a link leaves an effect's output or enters its input.
pub open spec fn spec_touches_effect(link: Link, instance: EffectInstance) -> bool {
    link.output_port == instance.output_port || link.input_port == instance.input_port
}

/// The links of `links` that do not touch the effect.
pub open spec fn spec_links_without_effect(links: Map<u64, Link>, instance: EffectInstance) -> Map<
    u64,
    Link,
> {
    Map::new(|k: u64| links.contains_key(k) && !spec_touches_effect(links[k], instance), |k: u64| links[k])
}

/// `after` is `before` with an effect's node and ports added and nothing
/// else changed.
pub open spec fn spec_effect_node_added(before: Graph, after: Graph, n: u64, name: Seq<char>) -> bool {
    &&& !before.nodes@.contains_key(n)
    &&& !before.ports@.contains_key((n + 1) as u64)
    &&& !before.ports@.contains_key((n + 2) as u64)
    &&& spec_effect_node_in(after, n, name)
    &&& after.nodes@ == before.nodes@.insert(n, after.nodes@[n])
    &&& after.ports@ == before.ports@.insert((n + 1) as u64, after.ports@[(n + 1) as u64]).insert(
        (n + 2) as u64,
        after.ports@[(n + 2) as u64],
    )
}

/// `after` is `before` with the link `original` replaced by two links through
/// the effect whose node id is `n`: link `l` from the link's source to the
/// effect's input, and link `l + 1` from the effect's output to the link's
/// sink, under ids no other link has.
pub open spec fn spec_link_rerouted(
    before: Map<u64, Link>,
    after: Map<u64, Link>,
    original: Link,
    n: u64,
    l: u64,
) -> bool {
    &&& l < u64::MAX
    &&& !before.remove(original.id.0).contains_key(l)
    &&& !before.remove(original.id.0).contains_key((l + 1) as u64)
    &&& after == before.remove(original.id.0).insert(
        l,
        Link { id: LinkId(l), output_port: original.output_port, input_port: PortId((n + 1) as u64) },
    ).insert(
        (l + 1) as u64,
        Link {
            id: LinkId((l + 1) as u64),
            output_port: PortId((n + 2) as u64),
            input_port: original.input_port,
        },
    )
}

/// Whether `original` is the link an effect inserted between `source` and
/// `destination` replaces: the first link, in id order, between the ports
/// the two keys name.
pub open spec fn spec_replaced_link(g: Graph, source: PortKey, destination: PortKey, original: Link) -> bool {
    &&& g.links@.contains_key(original.id.0)
    &&& g.links@[original.id.0] == original
    &&& spec_resolves_to(&g, &source, original.output_port)
    &&& spec_resolves_to(&g, &destination, original.input_port)
    &&& forall|k: u64|
        #[trigger] g.links@.contains_key(k) && g.links@[k].output_port == original.output_port
            && g.links@[k].input_port == original.input_port ==> original.id.0 <= k
}

/// `instance` with its enabled flag set to `enabled`.
pub open spec fn spec_with_enabled(instance: EffectInstance, enabled: bool) -> EffectInstance {
    EffectInstance {
        config: EffectInstanceConfig {
            instance_id: instance.config.instance_id,
            effect_id: instance.config.effect_id,
            module_file: instance.config.module_file,
            enabled,
        },
        node_id: instance.node_id,
        input_port: instance.input_port,
        output_port: instance.output_port,
        source: instance.source,
        destination: instance.destination,
        error: instance.error,
    }
}

/// What a successful insertion of an effect does, from the driver `before`
/// to the driver `after`: the effect's node and ports are added under the
/// ids the effect counter hands out, the link the saved keys name is
/// replaced by two links through the effect, and the instance, which keeps
/// the keys, joins the others.
pub open spec fn spec_inserted(
    before: DemoDriver,
    after: DemoDriver,
    request: EffectInsertRequest,
    instance: EffectInstance,
) -> bool {
                let g0 = before.spec_graph();
                let n = before.spec_next_effect_id();
                &&& spec_endpoint_fault(&g0, &request.source, &request.destination) == 0
                &&& instance.node_id == NodeId(n)
                &&& instance.input_port == PortId((n + 1) as u64)
                &&& instance.output_port == PortId((n + 2) as u64)
                &&& instance.config.instance_id == request.instance_id
                &&& instance.config.effect_id == request.effect_id
                &&& instance.config.module_file == request.module_file
                &&& instance.config.enabled == request.enabled
                &&& instance.source == Some(request.source)
                &&& instance.destination == Some(request.destination)
                &&& instance.error is None
                &&& spec_effect_node_added(
                    g0,
                    after.spec_graph(),
                    n,
                    spec_effect_node_name("Noise Gate"@, request.instance_id@),
                )
                &&& exists|original: Link|
                    spec_replaced_link(g0, request.source, request.destination, original)
                        && spec_link_rerouted(
                        g0.links@,
                        after.spec_graph().links@,
                        original,
                        n,
                        before.spec_next_link_id(),
                    )
                &&& exists|at: int|
                    0 <= at <= before.effect_list().len() && after.effect_list() == before.effect_list().insert(at, instance)
            }

/// What a successful removal of the effect instance `instance_id` does,
/// from the driver `before` to the driver `after`: the instance leaves, its
/// node and ports go with every link touching them, and an instance that
/// was inserted into a link gets that link back between the ports its
/// saved keys name.
pub open spec fn spec_removed(before: DemoDriver, after: DemoDriver, instance_id: Seq<char>) -> bool {
    forall|i: int|
        0 <= i < before.effect_list().len() && (#[trigger] before.effect_list()[i]).config.instance_id@
            == instance_id ==> {
                    let instance = before.effect_list()[i];
                    let g0 = before.spec_graph();
                    let g1 = after.spec_graph();
                    let without = spec_links_without_effect(g0.links@, instance);
                    &&& after.effect_list() == before.effect_list().remove(i)
                    &&& g1.nodes@ == g0.nodes@.remove(instance.node_id.0)
                    &&& g1.ports@ == g0.ports@.remove(instance.input_port.0).remove(
                        instance.output_port.0,
                    )
                    &&& instance.source is None ==> g1.links@ == without
                    &&& instance.source is Some && instance.destination is Some ==> exists|
                        o: PortId,
                        d: PortId,
                    |
                        spec_resolves_to(&g0, &instance.source->0, o) && spec_resolves_to(
                            &g0,
                            &instance.destination->0,
                            d,
                        )
                            && g1.links@ == without.insert(
                            before.spec_next_link_id(),
                            Link { id: LinkId(before.spec_next_link_id()), output_port: o, input_port: d },
                        )
                
        }
}

/// The ports that name the same port in `before` and in `after`, where
/// `after` only adds an effect node named `name` and its two ports.
proof fn lemma_effect_node_names_no_other_port(
    before: Graph,
    after: Graph,
    n: u64,
    name: Seq<char>,
    key: PortKey,
)
    requires
        spec_effect_node_added(before, after, n, name),
        key.node_name@ != name,
    ensures
        forall|p: u64|
            #[trigger] crate::graph::spec_port_matches(&after, PortId(p), &key)
                == crate::graph::spec_port_matches(&before, PortId(p), &key),
{
    assert forall|p: u64|
        #[trigger] crate::graph::spec_port_matches(&after, PortId(p), &key)
            == crate::graph::spec_port_matches(&before, PortId(p), &key) by {
        if before.ports@.contains_key(p) {
            assert(p != n + 1 && p != n + 2);
            assert(after.ports@[p] == before.ports@[p]);
            let q = before.ports@[p].node_id.0;
            if q != n {
                assert(after.nodes@.contains_key(q) == before.nodes@.contains_key(q));
                if before.nodes@.contains_key(q) {
                    assert(after.nodes@[q] == before.nodes@[q]);
                }
            }
        }
    }
}

/// Removing an effect right after inserting it gives the graph back: the
/// same nodes and ports, and the replaced link back between the same two
/// ports, under the next link id. This holds when no link touches the
/// ids the effect's ports get, and neither saved key names a node called
/// as the effect node is.
pub proof fn lemma_insert_then_remove_restores(
    d0: DemoDriver,
    d1: DemoDriver,
    d2: DemoDriver,
    request: EffectInsertRequest,
    instance: EffectInstance,
)
    requires
        spec_inserted(d0, d1, request, instance),
        spec_removed(d1, d2, instance.config.instance_id@),
        forall|k: u64|
            #[trigger] d0.spec_graph().links@.contains_key(k) ==> d0.spec_graph().links@[k].input_port
                != instance.input_port && d0.spec_graph().links@[k].output_port != instance.output_port,
        request.source.node_name@ != spec_effect_node_name("Noise Gate"@, request.instance_id@),
        request.destination.node_name@ != spec_effect_node_name("Noise Gate"@, request.instance_id@),
    ensures
        d2.spec_graph().nodes@ == d0.spec_graph().nodes@,
        d2.spec_graph().ports@ == d0.spec_graph().ports@,
        d2.effect_list() == d0.effect_list(),
        exists|original: Link|
            spec_replaced_link(d0.spec_graph(), request.source, request.destination, original)
                && d2.spec_graph().links@ == d0.spec_graph().links@.remove(original.id.0).insert(
                d1.spec_next_link_id(),
                Link {
                    id: LinkId(d1.spec_next_link_id()),
                    output_port: original.output_port,
                    input_port: original.input_port,
                },
            ),
{
    let g0 = d0.spec_graph();
    let g1 = d1.spec_graph();
    let g2 = d2.spec_graph();
    let n = d0.spec_next_effect_id();
    let l = d0.spec_next_link_id();
    let name = spec_effect_node_name("Noise Gate"@, request.instance_id@);
    let at = choose|at: int|
        0 <= at <= d0.effect_list().len() && d1.effect_list() == d0.effect_list().insert(at, instance);
    let original = choose|original: Link|
        spec_replaced_link(g0, request.source, request.destination, original) && spec_link_rerouted(
            g0.links@,
            g1.links@,
            original,
            n,
            l,
        );
    assert(d1.effect_list()[at] == instance);
    assert(d2.effect_list() =~= d0.effect_list());
    assert(g2.nodes@ =~= g0.nodes@);
    assert(g2.ports@ =~= g0.ports@);
    let o = choose|o: PortId, d: PortId|
        spec_resolves_to(&g1, &instance.source->0, o) && spec_resolves_to(&g1, &instance.destination->0, d)
            && g2.links@ == spec_links_without_effect(g1.links@, instance).insert(
            d1.spec_next_link_id(),
            Link { id: LinkId(d1.spec_next_link_id()), output_port: o, input_port: d },
        );
    lemma_effect_node_names_no_other_port(g0, g1, n, name, request.source);
    lemma_effect_node_names_no_other_port(g0, g1, n, name, request.destination);
    let (out, inp) = o;
    assert(out == original.output_port) by {
        assert(crate::graph::spec_port_matches(&g1, PortId(original.output_port.0), &request.source));
        assert(crate::graph::spec_port_matches(&g0, PortId(out.0), &request.source));
    }
    assert(inp == original.input_port) by {
        assert(crate::graph::spec_port_matches(&g1, PortId(original.input_port.0), &request.destination));
        assert(crate::graph::spec_port_matches(&g0, PortId(inp.0), &request.destination));
    }
    assert(spec_links_without_effect(g1.links@, instance) =~= g0.links@.remove(original.id.0)) by {
        assert forall|k: u64| #[trigger] spec_links_without_effect(g1.links@, instance).contains_key(k)
            <==> g0.links@.remove(original.id.0).contains_key(k) by {
            if k == l || k == l + 1 {
            } else if g0.links@.remove(original.id.0).contains_key(k) {
                assert(g1.links@[k] == g0.links@[k]);
            }
        }
    }
}

/// What creating an effect node does, from the driver `before` to the
/// driver `after`: the instance id must be new, the effect known, and the
/// three ids the effect counter hands out free; a failure leaves the graph
/// and the instances as they were.
pub open spec fn spec_created(
    before: DemoDriver,
    after: DemoDriver,
    request: EffectNodeRequest,
    result: BackendResult<EffectInstance>,
) -> bool {
                let g0 = before.spec_graph();
                let g1 = after.spec_graph();
                let n = before.spec_next_effect_id();
                let known = !has_instance(before.effect_list(), request.instance_id@)
                    && request.effect_id@ == crate::effects::NOISE_GATE_ID@;
                &&& has_instance(before.effect_list(), request.instance_id@) ==> (result matches Err(
                    BackendError::Native(m),
                ) && m@ == "effect instance "@ + request.instance_id@ + " already exists"@)
                &&& !has_instance(before.effect_list(), request.instance_id@) && request.effect_id@
                    != crate::effects::NOISE_GATE_ID@ ==> (result matches Err(BackendError::Native(m))
                    && m@ == "could not create effect: "@ + ("unknown effect: "@ + request.effect_id@))
                &&& known && n > u64::MAX - 3 ==> (result matches Err(BackendError::Native(m)) && m@
                    == "the demo driver has no effect ids left"@)
                &&& known && n <= u64::MAX - 3 ==> {
                    &&& g0.nodes@.contains_key(n) ==> result == Err::<EffectInstance, BackendError>(
                        BackendError::Graph(GraphError::DuplicateNode(NodeId(n))),
                    )
                    &&& !g0.nodes@.contains_key(n) && g0.ports@.contains_key((n + 1) as u64) ==> result
                        == Err::<EffectInstance, BackendError>(
                        BackendError::Graph(GraphError::DuplicatePort(PortId((n + 1) as u64))),
                    )
                    &&& !g0.nodes@.contains_key(n) && !g0.ports@.contains_key((n + 1) as u64)
                        && g0.ports@.contains_key((n + 2) as u64) ==> result == Err::<
                        EffectInstance,
                        BackendError,
                    >(BackendError::Graph(GraphError::DuplicatePort(PortId((n + 2) as u64))))
                    &&& !g0.nodes@.contains_key(n) && !g0.ports@.contains_key((n + 1) as u64)
                        && !g0.ports@.contains_key((n + 2) as u64) ==> result is Ok
                }
                &&& after.spec_next_link_id() == before.spec_next_link_id()
                &&& result is Err ==> same_graph(g1, g0) && after.effect_list() == before.effect_list()
                &&& result matches Ok(instance) ==> {
                    &&& known && n <= u64::MAX - 3
                    &&& instance.node_id == NodeId(n)
                    &&& instance.input_port == PortId((n + 1) as u64)
                    &&& instance.output_port == PortId((n + 2) as u64)
                    &&& instance.config.instance_id == request.instance_id
                    &&& instance.config.effect_id == request.effect_id
                    &&& instance.config.module_file == request.module_file
                    &&& instance.config.enabled == request.enabled
                    &&& instance.source is None
                    &&& instance.destination is None
                    &&& instance.error is None
                    &&& spec_effect_node_added(
                        g0,
                        g1,
                        n,
                        spec_effect_node_name("Noise Gate"@, request.instance_id@),
                    )
                    &&& g1.links@ == g0.links@
                    &&& after.spec_next_effect_id() == n + 3
                    &&& exists|at: int|
                        0 <= at <= before.effect_list().len() && after.effect_list() == before.effect_list().insert(at, instance)
                }
}

impl DemoDriver {
    /// The pairs whose manual disconnection is remembered.
    pub closed spec fn suppressed_pairs(&self) -> Set<(
        (Seq<char>, Option<u64>, NodeType, Seq<char>, Option<Seq<char>>, Direction, PortType),
        (Seq<char>, Option<u64>, NodeType, Seq<char>, Option<Seq<char>>, Direction, PortType),
    )> {
        Set::new(|v| self.suppressed@.map_values(|p: (PortKey, PortKey)| pair_view(p)).contains(v))
    }

    /// Links reported but not user-mutable.
    pub closed spec fn observed(&self) -> Set<LinkId> {
        Set::new(|l: LinkId| self.observed_links@.contains(l))
    }

    /// A driver over `graph`; new links get ids above every existing one.
    pub fn new(graph: Graph) -> (driver: Self)
        requires
            forall|k: u64| #[trigger] graph.links@.contains_key(k) ==> k < u64::MAX,
        ensures
            driver.spec_graph() == graph,
            driver.observed() == Set::<LinkId>::empty(),
            driver.suppressed_pairs() == Set::<(
                (Seq<char>, Option<u64>, NodeType, Seq<char>, Option<Seq<char>>, Direction, PortType),
                (Seq<char>, Option<u64>, NodeType, Seq<char>, Option<Seq<char>>, Direction, PortType),
            )>::empty(),
            driver.refused_connects() == Set::<(PortId, PortId)>::empty(),
            driver.refused_disconnects() == Set::<LinkId>::empty(),
            driver.refused_disconnect_pairs() == Set::<(PortId, PortId)>::empty(),
    {
        let links = graph.links.values();
        let mut max: u64 = 0;
        let mut i: usize = 0;
        while i < links.len()
            invariant
                i <= links@.len(),
                crate::id_map::seq_map(links@) == graph.links@,
                crate::id_map::keys_increasing(links@),
                max < u64::MAX,
                forall|k: u64| #[trigger] graph.links@.contains_key(k) ==> k < u64::MAX,
            decreases links@.len() - i,
        {
            let id = links[i].id.0;
            proof {
                crate::id_map::lemma_seq_map_index(links@, i as int);
            }
            if id > max {
                max = id;
            }
            i = i + 1;
        }
        let driver = DemoDriver {
            graph,
            next_link_id: max + 1,
            observed_links: Vec::new(),
            suppressed: Vec::new(),
            failing_connects: Vec::new(),
            failing_disconnects: Vec::new(),
            failing_disconnect_pairs: Vec::new(),
            effects: EffectInstances::new(),
            next_effect_id: 1000,
            audio_controls: IdMap::new(),
        };
        proof {
            assert(driver.suppressed@.map_values(|p: (PortKey, PortKey)| pair_view(p))
                =~= Seq::empty());
            assert(driver.suppressed_pairs() =~= Set::empty());
            assert(driver.observed() =~= Set::<LinkId>::empty());
            assert(driver.refused_connects() =~= Set::<(PortId, PortId)>::empty());
            assert(driver.refused_disconnects() =~= Set::<LinkId>::empty());
            assert(driver.refused_disconnect_pairs() =~= Set::<(PortId, PortId)>::empty());
        }
        driver
    }

    /// The audio controls of a node: unmuted at unity gain until changed.
    pub closed spec fn audio_control(&self, node: NodeId) -> NodeAudioControl {
        if self.audio_controls@.contains_key(node.0) {
            self.audio_controls@[node.0].control
        } else {
            NodeAudioControl { muted: false, volume_bits: UNITY_VOLUME_BITS }
        }
    }

    /// Change the controls of a node the graph holds.
    fn update_control(&mut self, node: NodeId, control: NodeAudioControl)
        ensures
            final(self).graph == old(self).graph,
            final(self).effects == old(self).effects,
            final(self).next_link_id == old(self).next_link_id,
            final(self).next_effect_id == old(self).next_effect_id,
            final(self).audio_control(node) == control,
            forall|other: NodeId| other != node ==> #[trigger] final(self).audio_control(other) == old(self).audio_control(other),
    {
        let _ = self.audio_controls.insert(NodeAudioRecord { node, control });
        proof {
            assert forall|other: NodeId| other != node implies #[trigger] self.audio_control(other) == old(self).audio_control(other) by {
                assert(other.0 != node.0);
            }
        }
    }

    /// The effect instances the driver hosts, in instance id order.
    pub closed spec fn effect_list(&self) -> Seq<EffectInstance> {
        self.effects.entries()
    }

    /// The id the next effect node gets; its ports get the two after it.
    pub closed spec fn spec_next_effect_id(&self) -> u64 {
        self.next_effect_id
    }

    /// The id the next link gets.
    pub closed spec fn spec_next_link_id(&self) -> u64 {
        self.next_link_id
    }

    /// Port pairs whose connection this driver refuses.
    pub closed spec fn refused_connects(&self) -> Set<(PortId, PortId)> {
        Set::new(|pair: (PortId, PortId)| self.failing_connects@.contains(pair))
    }

    /// Links whose disconnection this driver refuses.
    pub closed spec fn refused_disconnects(&self) -> Set<LinkId> {
        Set::new(|link: LinkId| self.failing_disconnects@.contains(link))
    }

    /// Port pairs whose links this driver refuses to disconnect.
    pub closed spec fn refused_disconnect_pairs(&self) -> Set<(PortId, PortId)> {
        Set::new(|pair: (PortId, PortId)| self.failing_disconnect_pairs@.contains(pair))
    }

    /// Whether this driver refuses to remove a link.
    pub open spec fn refuses_disconnect(&self, link: Link) -> bool {
        self.refused_disconnects().contains(link.id) || self.refused_disconnect_pairs().contains(
            (link.output_port, link.input_port),
        )
    }

    /// This backend can host effect nodes.
    pub fn supports_effect_nodes(&self) -> (supported: bool)
        ensures
            supported,
    {
        true
    }

    /// The effect instances, in instance id order.
    pub fn effect_instances(&self) -> (instances: Vec<EffectInstance>)
        ensures
            instances@ == self.effect_list(),
            instances_in_id_order(instances@),
    {
        let values = self.effects.values();
        let mut instances: Vec<EffectInstance> = Vec::new();
        let mut i: usize = 0;
        while i < values.len()
            invariant
                i <= values@.len(),
                instances@ == values@.subrange(0, i as int),
            decreases values@.len() - i,
        {
            instances.push(values[i].clone());
            i = i + 1;
            assert(instances@ =~= values@.subrange(0, i as int));
        }
        assert(values@.subrange(0, values@.len() as int) =~= values@);
        instances
    }

    /// Create an unconnected effect node: a node with one audio input and
    /// one audio output, under ids taken from the driver's effect counter.
    pub fn create_effect_node(&mut self, request: EffectNodeRequest) -> (result: BackendResult<
        EffectInstance,
    >)
        ensures
            spec_created(*old(self), *final(self), request, result),
    {
        match self.create_effect_node_at(request) {
            Ok((instance, _)) => Ok(instance),
            Err(error) => Err(error),
        }
    }

    fn create_effect_node_at(&mut self, request: EffectNodeRequest) -> (result: BackendResult<
        (EffectInstance, usize),
    >)
        ensures
            spec_created(
                *old(self),
                *final(self),
                request,
                match result {
                    Ok((instance, _)) => Ok::<EffectInstance, BackendError>(instance),
                    Err(error) => Err(error),
                },
            ),
            result matches Ok((instance, at)) ==> at <= old(self).effect_list().len()
                && final(self).effect_list() == old(self).effect_list().insert(at as int, instance),
    {
        let found = self.effects.position(request.instance_id.as_str());
        if found.is_some() {
            return Err(BackendError::effect_already_exists(request.instance_id.as_str()));
        }
        let effect_name = match builtin_effect_name(request.effect_id.as_str()) {
            Some(name) => name,
            None => {
                let mut reason: Vec<char> = Vec::new();
                append_str(&mut reason, "unknown effect: ");
                append_str(&mut reason, request.effect_id.as_str());
                let reason = string_from_chars(reason.as_slice());
                return Err(effect_create_failed(reason.as_str()));
            },
        };
        if self.next_effect_id > u64::MAX - 3 {
            return Err(BackendError::native("the demo driver has no effect ids left"));
        }
        let n = self.next_effect_id;
        let node_id = NodeId(n);
        let input_port = PortId(n + 1);
        let output_port = PortId(n + 2);
        self.next_effect_id = n + 3;
        let mut name: Vec<char> = Vec::new();
        append_str(&mut name, effect_name);
        append_str(&mut name, " (");
        append_str(&mut name, request.instance_id.as_str());
        append_str(&mut name, ")");
        let name = string_from_chars(name.as_slice());
        let ghost g0 = self.graph;
        match self.graph.add_node(Node::new(node_id, name, NodeType::Effect)) {
            Ok(()) => {},
            Err(error) => {
                return Err(BackendError::Graph(error));
            },
        }
        let ghost g1 = self.graph;
        let input_name = "input".to_owned();
        proof {
            reveal_strlit("input");
        }
        match self.graph.add_port(Port::new(input_port, node_id, input_name, Direction::Sink, PortType::Audio)) {
            Ok(()) => {},
            Err(error) => {
                let _ = self.graph.nodes.remove(n);
                assert(self.graph.nodes@ =~= g0.nodes@);
                return Err(BackendError::Graph(error));
            },
        }
        let ghost g2 = self.graph;
        let output_name = "output".to_owned();
        proof {
            reveal_strlit("output");
        }
        match self.graph.add_port(Port::new(output_port, node_id, output_name, Direction::Source, PortType::Audio)) {
            Ok(()) => {},
            Err(error) => {
                let _ = self.graph.ports.remove(n + 1);
                let _ = self.graph.nodes.remove(n);
                assert(self.graph.nodes@ =~= g0.nodes@);
                assert(self.graph.ports@ =~= g0.ports@);
                return Err(BackendError::Graph(error));
            },
        }
        proof {
            assert(self.graph.nodes@ =~= g0.nodes@.insert(n, self.graph.nodes@[n]));
            assert(self.graph.nodes@[n].ports@ =~= seq![input_port, output_port]);
        }
        let instance = EffectInstance {
            config: EffectInstanceConfig {
                instance_id: request.instance_id,
                effect_id: request.effect_id,
                module_file: request.module_file,
                enabled: request.enabled,
            },
            node_id,
            input_port,
            output_port,
            source: None,
            destination: None,
            error: None,
        };
        let at = self.effects.insert(instance.clone());
        assert(self.effect_list() == old(self).effect_list().insert(at as int, instance));
        Ok((instance, at))
    }

    /// The links that leave the effect's output or enter its input, in id order.
    fn links_touching(&self, instance: &EffectInstance) -> (touching: Vec<Link>)
        ensures
            forall|i: int|
                0 <= i < touching@.len() ==> {
                    &&& self.graph.links@.contains_key((#[trigger] touching@[i]).id.0)
                    &&& self.graph.links@[touching@[i].id.0] == touching@[i]
                    &&& spec_touches_effect(touching@[i], *instance)
                },
            forall|k: u64|
                #[trigger] self.graph.links@.contains_key(k) && spec_touches_effect(
                    self.graph.links@[k],
                    *instance,
                ) ==> exists|i: int| 0 <= i < touching@.len() && touching@[i].id.0 == k,
            forall|i: int, j: int|
                #![trigger touching@[i], touching@[j]]
                0 <= i < j < touching@.len() ==> touching@[i].id.0 < touching@[j].id.0,
    {
        let links = self.graph.links.values();
        let mut touching: Vec<Link> = Vec::new();
        let mut i: usize = 0;
        while i < links.len()
            invariant
                i <= links@.len(),
                crate::id_map::seq_map(links@) == self.graph.links@,
                crate::id_map::keys_increasing(links@),
                forall|t: int|
                    0 <= t < touching@.len() ==> {
                        &&& self.graph.links@.contains_key((#[trigger] touching@[t]).id.0)
                        &&& self.graph.links@[touching@[t].id.0] == touching@[t]
                        &&& spec_touches_effect(touching@[t], *instance)
                        &&& i < links@.len() ==> touching@[t].id.0 < links@[i as int].id.0
                    },
                forall|j: int|
                    0 <= j < i && spec_touches_effect(#[trigger] links@[j], *instance)
                        ==> touching@.contains(links@[j]),
                forall|a: int, b: int|
                    #![trigger touching@[a], touching@[b]]
                    0 <= a < b < touching@.len() ==> touching@[a].id.0 < touching@[b].id.0,
            decreases links@.len() - i,
        {
            let link = links[i];
            proof {
                crate::id_map::lemma_seq_map_index(links@, i as int);
                if i + 1 < links@.len() {
                    assert(links@[i as int].id_key() < links@[i + 1].id_key());
                }
            }
            let ghost prev = touching@;
            if link.output_port == instance.output_port || link.input_port == instance.input_port {
                touching.push(link);
                proof {
                    assert forall|j: int|
                        0 <= j < i + 1 && spec_touches_effect(#[trigger] links@[j], *instance) implies touching@.contains(
                        links@[j],
                    ) by {
                        if j == i {
                            assert(touching@[touching@.len() - 1] == links@[j]);
                        } else {
                            assert(prev.contains(links@[j]));
                            let t = choose|t: int| 0 <= t < prev.len() && prev[t] == links@[j];
                            assert(touching@[t] == links@[j]);
                        }
                    }
                }
            }
            i = i + 1;
        }
        proof {
            assert forall|k: u64|
                #[trigger] self.graph.links@.contains_key(k) && spec_touches_effect(
                    self.graph.links@[k],
                    *instance,
                ) implies exists|t: int| 0 <= t < touching@.len() && touching@[t].id.0 == k by {
                let j = choose|j: int| 0 <= j < links@.len() && links@[j].id_key() == k;
                crate::id_map::lemma_seq_map_index(links@, j);
                assert(touching@.contains(links@[j]));
                let t = choose|t: int| 0 <= t < touching@.len() && touching@[t] == links@[j];
                assert(touching@[t].id.0 == k);
            }
        }
        touching
    }

    /// Remove an effect's node, its ports and its instance, leaving the links alone.
    fn discard_effect_node(&mut self, instance: &EffectInstance, at: usize)
        requires
            at < old(self).effect_list().len(),
        ensures
            final(self).graph.links@ == old(self).graph.links@,
            final(self).graph.ports@ == old(self).graph.ports@.remove(instance.input_port.0).remove(
                instance.output_port.0,
            ),
            final(self).graph.nodes@ == old(self).graph.nodes@.remove(instance.node_id.0),
            final(self).effect_list() == old(self).effect_list().remove(at as int),
            final(self).next_link_id == old(self).next_link_id,
            final(self).next_effect_id == old(self).next_effect_id,
    {
        let _ = self.graph.ports.remove(instance.input_port.0);
        let _ = self.graph.ports.remove(instance.output_port.0);
        let _ = self.graph.nodes.remove(instance.node_id.0);
        let _ = self.effects.remove(at);
    }

    /// Insert an effect into the link between the ports two keys name: the
    /// link is replaced by one from its source into the new effect node and
    /// one from the effect out to its sink. Nothing changes unless all of
    /// it succeeds.
    pub fn insert_effect(&mut self, request: EffectInsertRequest) -> (result: BackendResult<
        EffectInstance,
    >)
        ensures
            spec_endpoint_fault(&old(self).spec_graph(), &request.source, &request.destination) == 1
                ==> (result matches Err(BackendError::Native(m)) && m@
                == "effect source port is unavailable"@),
            spec_endpoint_fault(&old(self).spec_graph(), &request.source, &request.destination) == 2
                ==> (result matches Err(BackendError::Native(m)) && m@
                == "effect destination port is unavailable"@),
            spec_endpoint_fault(&old(self).spec_graph(), &request.source, &request.destination) == 3
                ==> (result matches Err(BackendError::Graph(GraphError::NotSource(p)))
                && spec_resolves_to(&old(self).spec_graph(), &request.source, p)),
            spec_endpoint_fault(&old(self).spec_graph(), &request.source, &request.destination) == 4
                ==> (result matches Err(BackendError::Graph(GraphError::NotSink(p)))
                && spec_resolves_to(&old(self).spec_graph(), &request.destination, p)),
            spec_endpoint_fault(&old(self).spec_graph(), &request.source, &request.destination) == 0
                && !(exists|original: Link|
                spec_replaced_link(old(self).spec_graph(), request.source, request.destination, original))
                ==> (result matches Err(BackendError::Native(m)) && m@
                == "effect source and destination are not linked"@),
            ({
                let g0 = old(self).spec_graph();
                let n = old(self).spec_next_effect_id();
                let l = old(self).spec_next_link_id();
                &&& spec_endpoint_fault(&g0, &request.source, &request.destination) == 0
                &&& exists|original: Link|
                    spec_replaced_link(g0, request.source, request.destination, original)
                &&& request.source.port_type == PortType::Audio
                &&& request.destination.port_type == PortType::Audio
                &&& !has_instance(old(self).effect_list(), request.instance_id@)
                &&& request.effect_id@ == crate::effects::NOISE_GATE_ID@
                &&& n <= u64::MAX - 3
                &&& !g0.nodes@.contains_key(n)
                &&& !g0.ports@.contains_key((n + 1) as u64)
                &&& !g0.ports@.contains_key((n + 2) as u64)
                &&& l <= u64::MAX - 2
                &&& !g0.links@.contains_key(l)
                &&& !g0.links@.contains_key((l + 1) as u64)
                &&& forall|k: u64|
                    #[trigger] g0.links@.contains_key(k) ==> g0.links@[k].input_port != PortId(
                        (n + 1) as u64,
                    ) && g0.links@[k].output_port != PortId((n + 2) as u64)
            }) ==> result is Ok,
            result is Err ==> same_graph(final(self).spec_graph(), old(self).spec_graph())
                && final(self).effect_list() == old(self).effect_list(),
            result matches Ok(instance) ==> spec_inserted(*old(self), *final(self), request, instance),
    {
        let source = request.source.clone();
        let destination = request.destination.clone();
        assert(source == request.source && destination == request.destination);
        let (output, input, original) = match self.effect_link_endpoints(&source, &destination) {
            Ok(found) => found,
            Err(error) => {
                proof {
                    let g = old(self).spec_graph();
                    if exists|o: Link| spec_replaced_link(g, request.source, request.destination, o) {
                        let o = choose|o: Link| spec_replaced_link(g, request.source, request.destination, o);
                        assert(g.links@.contains_key(o.id.0));
                        assert(crate::graph::spec_connected(g.links@, o.output_port, o.input_port));
                    }
                }
                return Err(error);
            },
        };
        let ghost g0 = self.graph;
        let ghost list0 = self.effect_list();
        assert(spec_replaced_link(g0, request.source, request.destination, original));
        let node_request = EffectNodeRequest {
            instance_id: request.instance_id,
            effect_id: request.effect_id,
            module_file: request.module_file,
            enabled: request.enabled,
        };
        let (mut instance, at) = match self.create_effect_node_at(node_request) {
            Ok(created) => created,
            Err(error) => {
                return Err(error);
            },
        };
        let n = instance.node_id.0;
        if self.next_link_id > u64::MAX - 2 {
            self.discard_effect_node(&instance, at);
            proof {
                assert(self.graph.nodes@ =~= g0.nodes@);
                assert(self.graph.ports@ =~= g0.ports@);
            }
            return Err(BackendError::native("the demo driver has no link ids left"));
        }
        match self.graph.remove_link(original.id) {
            Ok(_) => {},
            Err(error) => {
                self.discard_effect_node(&instance, at);
                proof {
                    assert(self.graph.nodes@ =~= g0.nodes@);
                    assert(self.graph.ports@ =~= g0.ports@);
                }
                return Err(BackendError::Graph(error));
            },
        }
        let first = LinkId(self.next_link_id);
        let second = LinkId(self.next_link_id + 1);
        self.next_link_id = self.next_link_id + 2;
        match self.graph.add_link(first, output, instance.input_port) {
            Ok(_) => {},
            Err(error) => {
                self.discard_effect_node(&instance, at);
                let _ = self.graph.insert_existing_link(original);
                proof {
                    assert(self.graph.nodes@ =~= g0.nodes@);
                    assert(self.graph.ports@ =~= g0.ports@);
                    assert(self.graph.links@ =~= g0.links@);
                }
                return Err(BackendError::Graph(error));
            },
        }
        match self.graph.add_link(second, instance.output_port, input) {
            Ok(_) => {},
            Err(error) => {
                let _ = self.graph.remove_link(first);
                self.discard_effect_node(&instance, at);
                let _ = self.graph.insert_existing_link(original);
                proof {
                    assert(self.graph.nodes@ =~= g0.nodes@);
                    assert(self.graph.ports@ =~= g0.ports@);
                    assert(self.graph.links@ =~= g0.links@);
                }
                return Err(BackendError::Graph(error));
            },
        }
        instance.source = Some(source);
        instance.destination = Some(destination);
        self.effects.replace(at, instance.clone());
        proof {
            assert(spec_link_rerouted(g0.links@, self.graph.links@, original, n, first.0));
            assert(self.effect_list() == list0.insert(at as int, instance));
        }
        Ok(instance)
    }

    /// Remove every link that leaves the effect's output or enters its
    /// input, returning them in id order.
    fn remove_touching_links(&mut self, instance: &EffectInstance) -> (removed: Vec<Link>)
        ensures
            final(self).graph.links@ == spec_links_without_effect(old(self).graph.links@, *instance),
            final(self).graph.ports@ == old(self).graph.ports@,
            final(self).graph.nodes@ == old(self).graph.nodes@,
            final(self).effects == old(self).effects,
            final(self).next_link_id == old(self).next_link_id,
            final(self).next_effect_id == old(self).next_effect_id,
            forall|i: int|
                0 <= i < removed@.len() ==> {
                    &&& old(self).graph.links@.contains_key((#[trigger] removed@[i]).id.0)
                    &&& old(self).graph.links@[removed@[i].id.0] == removed@[i]
                    &&& spec_touches_effect(removed@[i], *instance)
                },
            forall|k: u64|
                #[trigger] old(self).graph.links@.contains_key(k) && spec_touches_effect(
                    old(self).graph.links@[k],
                    *instance,
                ) ==> exists|i: int| 0 <= i < removed@.len() && removed@[i].id.0 == k,
    {
        let touching = self.links_touching(instance);
        let ghost start = self.graph.links@;
        let mut t: usize = 0;
        while t < touching.len()
            invariant
                t <= touching@.len(),
                self.graph.nodes@ == old(self).graph.nodes@,
                self.graph.ports@ == old(self).graph.ports@,
                start == old(self).graph.links@,
                self.effects == old(self).effects,
                self.next_link_id == old(self).next_link_id,
                self.next_effect_id == old(self).next_effect_id,
                forall|i: int|
                    0 <= i < touching@.len() ==> {
                        &&& start.contains_key((#[trigger] touching@[i]).id.0)
                        &&& start[touching@[i].id.0] == touching@[i]
                        &&& spec_touches_effect(touching@[i], *instance)
                    },
                forall|k: u64|
                    #[trigger] start.contains_key(k) && spec_touches_effect(start[k], *instance)
                        ==> exists|i: int| 0 <= i < touching@.len() && touching@[i].id.0 == k,
                forall|k: u64|
                    #[trigger] self.graph.links@.contains_key(k) <==> (start.contains_key(k) && !exists|
                        i: int,
                    | 0 <= i < t && (#[trigger] touching@[i]).id.0 == k),
                forall|k: u64| #[trigger] self.graph.links@.contains_key(k) ==> self.graph.links@[k] == start[k],
            decreases touching@.len() - t,
        {
            let _ = self.graph.remove_link(touching[t].id);
            proof {
                assert forall|k: u64| #[trigger] self.graph.links@.contains_key(k) <==> (start.contains_key(k)
                    && !exists|i: int| 0 <= i < t + 1 && (#[trigger] touching@[i]).id.0 == k) by {
                    if exists|i: int| 0 <= i < t + 1 && (#[trigger] touching@[i]).id.0 == k {
                        let i = choose|i: int| 0 <= i < t + 1 && (#[trigger] touching@[i]).id.0 == k;
                        if i < t {
                            assert(exists|i: int| 0 <= i < t && (#[trigger] touching@[i]).id.0 == k);
                        }
                    }
                }
            }
            t = t + 1;
        }
        proof {
            assert(self.graph.links@ =~= spec_links_without_effect(start, *instance)) by {
                assert forall|k: u64| #[trigger] self.graph.links@.contains_key(k) <==> spec_links_without_effect(
                    start,
                    *instance,
                ).contains_key(k) by {
                    if start.contains_key(k) && spec_touches_effect(start[k], *instance) {
                        let i = choose|i: int| 0 <= i < touching@.len() && touching@[i].id.0 == k;
                        assert(exists|i: int| 0 <= i < t && (#[trigger] touching@[i]).id.0 == k);
                    }
                    if exists|i: int| 0 <= i < t && (#[trigger] touching@[i]).id.0 == k {
                        let i = choose|i: int| 0 <= i < t && (#[trigger] touching@[i]).id.0 == k;
                        assert(start[touching@[i].id.0] == touching@[i]);
                    }
                }
            }
        }
        touching
    }

    /// Enable or bypass an effect instance.
    pub fn set_effect_enabled(&mut self, instance_id: &str, enabled: bool) -> (result: BackendResult<()>)
        ensures
            final(self).spec_graph() == old(self).spec_graph(),
            !has_instance(old(self).effect_list(), instance_id@) ==> (result matches Err(
                BackendError::Native(m),
            ) && m@ == "unknown effect instance "@ + instance_id@) && final(self).effect_list() == old(self).effect_list(),
            has_instance(old(self).effect_list(), instance_id@) ==> result is Ok && exists|i: int|
                0 <= i < old(self).effect_list().len() && old(self).effect_list()[i].config.instance_id@
                    == instance_id@ && final(self).effect_list() == old(self).effect_list().update(
                    i,
                    spec_with_enabled(old(self).effect_list()[i], enabled),
                ),
    {
        let at = match self.effects.position(instance_id) {
            Some(at) => at,
            None => {
                return Err(BackendError::unknown_effect_instance(instance_id));
            },
        };
        let mut instance = self.effects.values()[at].clone();
        instance.config.enabled = enabled;
        self.effects.replace(at, instance);
        proof {
            assert(instance == spec_with_enabled(old(self).effect_list()[at as int], enabled));
        }
        Ok(())
    }

    /// Remove an effect instance and its node. An effect inserted into a
    /// link gets that link back between the ports its saved keys name now.
    /// Nothing changes unless all of it succeeds.
    pub fn remove_effect(&mut self, instance_id: &str) -> (result: BackendResult<()>)
        ensures
            !has_instance(old(self).effect_list(), instance_id@) ==> (result matches Err(
                BackendError::Native(m),
            ) && m@ == "unknown effect instance "@ + instance_id@),
            forall|i: int|
                0 <= i < old(self).effect_list().len() && (#[trigger] old(self).effect_list()[i]).config.instance_id@
                    == instance_id@ ==> ((old(self).effect_list()[i].source is Some) != (old(self).effect_list()[i].destination is Some)
                    ==> (result matches Err(BackendError::Native(m)) && m@
                    == "effect routing is incomplete and cannot be restored"@)),
            forall|i: int|
                0 <= i < old(self).effect_list().len() && (#[trigger] old(self).effect_list()[i]).config.instance_id@
                    == instance_id@ ==> (old(self).effect_list()[i].source is None && old(self).effect_list()[i].destination is None
                    ==> result is Ok),
            forall|i: int|
                0 <= i < old(self).effect_list().len() && (#[trigger] old(self).effect_list()[i]).config.instance_id@
                    == instance_id@ ==> (old(self).effect_list()[i].source is Some
                    && old(self).effect_list()[i].destination is Some ==> {
                    let source = old(self).effect_list()[i].source->0;
                    let destination = old(self).effect_list()[i].destination->0;
                    let g0 = old(self).spec_graph();
                    let fault = spec_endpoint_fault(&g0, &source, &destination);
                    &&& fault == 1 ==> (result matches Err(BackendError::Native(m)) && m@
                        == "effect source disappeared while removing effect"@)
                    &&& fault == 2 ==> (result matches Err(BackendError::Native(m)) && m@
                        == "effect destination disappeared while removing effect"@)
                    &&& fault == 3 ==> (result matches Err(BackendError::Graph(GraphError::NotSource(p)))
                        && spec_resolves_to(&g0, &source, p))
                    &&& fault == 4 ==> (result matches Err(BackendError::Graph(GraphError::NotSink(p)))
                        && spec_resolves_to(&g0, &destination, p))
                }),
            forall|i: int|
                0 <= i < old(self).effect_list().len() && (#[trigger] old(self).effect_list()[i]).config.instance_id@
                    == instance_id@ ==> ({
                    let e = old(self).effect_list()[i];
                    let g0 = old(self).spec_graph();
                    let l = old(self).spec_next_link_id();
                    &&& e.source is Some
                    &&& e.destination is Some
                    &&& spec_endpoint_fault(&g0, &e.source->0, &e.destination->0) == 0
                    &&& e.source->0.port_type == e.destination->0.port_type
                    &&& l < u64::MAX
                    &&& !g0.links@.contains_key(l)
                    &&& forall|o: PortId, d: PortId|
                        spec_resolves_to(&g0, &e.source->0, o) && spec_resolves_to(
                            &g0,
                            &e.destination->0,
                            d,
                        ) ==> !crate::graph::spec_connected(spec_links_without_effect(g0.links@, e), o, d)
                }) ==> result is Ok,
            result is Ok ==> spec_removed(*old(self), *final(self), instance_id@),
            result is Err ==> same_graph(final(self).spec_graph(), old(self).spec_graph())
                && final(self).effect_list() == old(self).effect_list(),
    {
        let at = match self.effects.position(instance_id) {
            Some(at) => at,
            None => {
                return Err(BackendError::unknown_effect_instance(instance_id));
            },
        };
        let values = self.effects.values();
        let instance = values[at].clone();
        proof {
            assert forall|i: int|
                0 <= i < values@.len() && (#[trigger] values@[i]).config.instance_id@ == instance_id@
                    implies i == at by {
                if i < at {
                    assert(name_before(values@[i].config.instance_id@, values@[at as int].config.instance_id@));
                    lemma_name_before_irreflexive(instance_id@);
                } else if i > at {
                    assert(name_before(values@[at as int].config.instance_id@, values@[i].config.instance_id@));
                    lemma_name_before_irreflexive(instance_id@);
                }
            }
            assert(values@ == old(self).effect_list());
            assert(instance == old(self).effect_list()[at as int]);
            assert forall|i: int|
                0 <= i < old(self).effect_list().len() && (#[trigger] old(self).effect_list()[i]).config.instance_id@
                    == instance_id@ implies i == at by {
                assert(values@[i] == old(self).effect_list()[i]);
            }
        }
        let restored = match (&instance.source, &instance.destination) {
            (Some(source), Some(destination)) => {
                match self.effect_restore_endpoints(source, destination) {
                    Ok(pair) => Some(pair),
                    Err(error) => {
                        return Err(error);
                    },
                }
            },
            (None, None) => None,
            _ => {
                assert(!(instance.source is Some && instance.destination is Some));
                return Err(BackendError::effect_routing_incomplete());
            },
        };
        let ghost g0 = self.graph;
        let ghost l = self.next_link_id;
        let removed = self.remove_touching_links(&instance);
        let ghost without = self.graph.links@;
        match restored {
            Some((output, input)) => {
                if self.next_link_id == u64::MAX {
                    self.put_back_links(&removed, Ghost(instance), Ghost(g0.links@));
                    return Err(BackendError::native("the demo driver has no link ids left"));
                }
                let link_id = LinkId(self.next_link_id);
                self.next_link_id = self.next_link_id + 1;
                match self.graph.add_link(link_id, output, input) {
                    Ok(_) => {},
                    Err(error) => {
                        self.put_back_links(&removed, Ghost(instance), Ghost(g0.links@));
                        return Err(BackendError::Graph(error));
                    },
                }
                self.discard_effect_node(&instance, at);
                proof {
                    assert(self.graph.links@ == without.insert(
                        l,
                        Link { id: LinkId(l), output_port: output, input_port: input },
                    ));
                    let e = old(self).effect_list()[at as int];
                    let g = old(self).spec_graph();
                    let next = old(self).spec_next_link_id();
                    assert(spec_resolves_to(&g, &e.source->0, output) && spec_resolves_to(
                        &g,
                        &e.destination->0,
                        input,
                    ) && self.spec_graph().links@ == spec_links_without_effect(g.links@, e).insert(
                        next,
                        Link { id: LinkId(next), output_port: output, input_port: input },
                    ));
                }
                return Ok(());
            },
            None => {},
        }
        self.discard_effect_node(&instance, at);
        Ok(())
    }

    /// Put back, unchanged, links `remove_touching_links` took out of the graph.
    fn put_back_links(
        &mut self,
        removed: &Vec<Link>,
        Ghost(instance): Ghost<EffectInstance>,
        Ghost(before): Ghost<Map<u64, Link>>,
    )
        requires
            old(self).graph.links@ == spec_links_without_effect(before, instance),
            forall|i: int|
                0 <= i < removed@.len() ==> {
                    &&& before.contains_key((#[trigger] removed@[i]).id.0)
                    &&& before[removed@[i].id.0] == removed@[i]
                    &&& spec_touches_effect(removed@[i], instance)
                },
            forall|k: u64|
                #[trigger] before.contains_key(k) && spec_touches_effect(before[k], instance) ==> exists|
                    i: int,
                | 0 <= i < removed@.len() && removed@[i].id.0 == k,
        ensures
            final(self).graph.links@ == before,
            final(self).graph.ports@ == old(self).graph.ports@,
            final(self).graph.nodes@ == old(self).graph.nodes@,
            final(self).effects == old(self).effects,
            final(self).next_link_id == old(self).next_link_id,
            final(self).next_effect_id == old(self).next_effect_id,
    {
        let mut t: usize = 0;
        while t < removed.len()
            invariant
                t <= removed@.len(),
                self.graph.ports@ == old(self).graph.ports@,
                self.graph.nodes@ == old(self).graph.nodes@,
                self.effects == old(self).effects,
                self.next_link_id == old(self).next_link_id,
                self.next_effect_id == old(self).next_effect_id,
                forall|i: int|
                    0 <= i < removed@.len() ==> {
                        &&& before.contains_key((#[trigger] removed@[i]).id.0)
                        &&& before[removed@[i].id.0] == removed@[i]
                        &&& spec_touches_effect(removed@[i], instance)
                    },
                forall|k: u64| #[trigger] self.graph.links@.contains_key(k) <==> (
                    spec_links_without_effect(before, instance).contains_key(k) || exists|i: int|
                        0 <= i < t && (#[trigger] removed@[i]).id.0 == k),
                forall|k: u64| #[trigger] self.graph.links@.contains_key(k) ==> self.graph.links@[k] == before[k],
            decreases removed@.len() - t,
        {
            let link = removed[t];
            let _ = self.graph.links.insert(link);
            proof {
                assert forall|k: u64| #[trigger] self.graph.links@.contains_key(k) <==> (
                    spec_links_without_effect(before, instance).contains_key(k) || exists|i: int|
                        0 <= i < t + 1 && (#[trigger] removed@[i]).id.0 == k) by {
                    if k == link.id.0 {
                        assert(removed@[t as int].id.0 == k);
                    } else if exists|i: int| 0 <= i < t + 1 && (#[trigger] removed@[i]).id.0 == k {
                        let i = choose|i: int| 0 <= i < t + 1 && (#[trigger] removed@[i]).id.0 == k;
                        assert(i != t);
                        assert(exists|i: int| 0 <= i < t && (#[trigger] removed@[i]).id.0 == k);
                    }
                }
            }
            t = t + 1;
        }
        proof {
            assert(self.graph.links@ =~= before) by {
                assert forall|k: u64| #[trigger] self.graph.links@.contains_key(k) <==> before.contains_key(k) by {
                    if before.contains_key(k) && spec_touches_effect(before[k], instance) {
                        let i = choose|i: int| 0 <= i < removed@.len() && removed@[i].id.0 == k;
                        assert(exists|i: int| 0 <= i < t && (#[trigger] removed@[i]).id.0 == k);
                    }
                    if exists|i: int| 0 <= i < t && (#[trigger] removed@[i]).id.0 == k {
                        let i = choose|i: int| 0 <= i < t && (#[trigger] removed@[i]).id.0 == k;
                        assert(before.contains_key(removed@[i].id.0));
                    }
                }
            }
        }
    }

    /// The graph the demo starts from: an audio capture device, an audio
    /// playback device, a MIDI controller and a MIDI monitor, unlinked.
    pub fn demo() -> (driver: Self)
        ensures
            driver.spec_graph().links@ == Map::<u64, Link>::empty(),
            driver.spec_graph().ports@.dom() == set![1u64, 2u64, 3u64, 4u64, 5u64, 6u64],
            driver.spec_graph().nodes@.dom() == set![1u64, 2u64, 3u64, 4u64],
            driver.observed() == Set::<LinkId>::empty(),
            driver.refused_connects() == Set::<(PortId, PortId)>::empty(),
            driver.refused_disconnects() == Set::<LinkId>::empty(),
            driver.refused_disconnect_pairs() == Set::<(PortId, PortId)>::empty(),
    {
        let mut graph = Graph::new();
        let _ = graph.add_node(Node::new(NodeId(1), "Audio Capture".to_owned(), NodeType::PipeWire));
        let _ = graph.add_node(Node::new(NodeId(2), "Audio Playback".to_owned(), NodeType::PipeWire));
        let _ = graph.add_node(Node::new(NodeId(3), "MIDI Controller".to_owned(), NodeType::PipeWire));
        let _ = graph.add_node(Node::new(NodeId(4), "MIDI Monitor".to_owned(), NodeType::PipeWire));
        assert(graph.nodes@.dom() =~= set![1u64, 2u64, 3u64, 4u64]);
        let _ = graph.add_port(
            Port::new(PortId(1), NodeId(1), "capture_FL".to_owned(), Direction::Source, PortType::Audio),
        );
        let _ = graph.add_port(
            Port::new(PortId(2), NodeId(1), "capture_FR".to_owned(), Direction::Source, PortType::Audio),
        );
        let _ = graph.add_port(
            Port::new(PortId(3), NodeId(2), "playback_FL".to_owned(), Direction::Sink, PortType::Audio),
        );
        let _ = graph.add_port(
            Port::new(PortId(4), NodeId(2), "playback_FR".to_owned(), Direction::Sink, PortType::Audio),
        );
        let _ = graph.add_port(
            Port::new(PortId(5), NodeId(3), "midi_out".to_owned(), Direction::Source, PortType::MidiJack),
        );
        let _ = graph.add_port(
            Port::new(PortId(6), NodeId(4), "midi_in".to_owned(), Direction::Sink, PortType::MidiJack),
        );
        assert(graph.ports@.dom() =~= set![1u64, 2u64, 3u64, 4u64, 5u64, 6u64]);
        assert(graph.links@ =~= Map::<u64, Link>::empty());
        Self::new(graph)
    }

    pub fn into_graph(self) -> (graph: Graph)
        ensures
            graph == self.spec_graph(),
    {
        self.graph
    }

    /// Mark a link as observed rather than user-mutable, as a backend does
    /// for a relationship it only reports.
    pub fn mark_link_observed(&mut self, link: LinkId)
        ensures
            final(self).spec_graph() == old(self).spec_graph(),
            final(self).observed() == old(self).observed().insert(link),
            final(self).suppressed_pairs() == old(self).suppressed_pairs(),
    {
        let ghost before = self.observed_links@;
        self.observed_links.push(link);
        proof {
            assert forall|l: LinkId| #[trigger] self.observed_links@.contains(l) <==> (before.contains(l) || l == link) by {
                if before.contains(l) {
                    let j = before.index_of(l);
                    assert(self.observed_links@[j] == l);
                }
                if l == link {
                    assert(self.observed_links@[before.len() as int] == l);
                }
                if self.observed_links@.contains(l) {
                    let j = self.observed_links@.index_of(l);
                    if j < before.len() {
                        assert(before[j] == l);
                    }
                }
            }
            assert(self.observed() =~= old(self).observed().insert(link));
        }
    }

    /// Remember a pair as manually disconnected.
    pub fn mark_connection_suppressed(&mut self, output: PortKey, input: PortKey)
        ensures
            final(self).spec_graph() == old(self).spec_graph(),
            final(self).suppressed_pairs() == old(self).suppressed_pairs().insert(
                (key_view(output), key_view(input)),
            ),
            final(self).observed() == old(self).observed(),
            final(self).refused_connects() == old(self).refused_connects(),
            final(self).refused_disconnects() == old(self).refused_disconnects(),
            final(self).refused_disconnect_pairs() == old(self).refused_disconnect_pairs(),
    {
        let ghost before = self.suppressed@;
        self.suppressed.push((output, input));
        proof {
            assert(self.suppressed@.map_values(|p: (PortKey, PortKey)| pair_view(p)) =~= before.map_values(
                |p: (PortKey, PortKey)| pair_view(p),
            ).push((key_view(output), key_view(input))));
            let new_views = self.suppressed@.map_values(|p: (PortKey, PortKey)| pair_view(p));
            let old_views = before.map_values(|p: (PortKey, PortKey)| pair_view(p));
            let added = (key_view(output), key_view(input));
            assert forall|v| #[trigger] new_views.contains(v) <==> (old_views.contains(v) || v == added) by {
                if old_views.contains(v) {
                    let j = old_views.index_of(v);
                    assert(new_views[j] == v);
                }
                if v == added {
                    assert(new_views[old_views.len() as int] == v);
                }
                if new_views.contains(v) {
                    let j = new_views.index_of(v);
                    if j < old_views.len() {
                        assert(old_views[j] == v);
                    }
                }
            }
            assert(self.suppressed_pairs() =~= old(self).suppressed_pairs().insert(added));
        }
    }

    /// Whether a pair is remembered as manually disconnected.
    pub fn is_connection_suppressed(&self, output: &PortKey, input: &PortKey) -> (suppressed: bool)
        ensures
            suppressed == self.suppressed_pairs().contains((key_view(*output), key_view(*input))),
    {
        let ghost views = self.suppressed@.map_values(|p: (PortKey, PortKey)| pair_view(p));
        let mut i: usize = 0;
        while i < self.suppressed.len()
            invariant
                i <= self.suppressed@.len(),
                views == self.suppressed@.map_values(|p: (PortKey, PortKey)| pair_view(p)),
                forall|j: int| 0 <= j < i ==> views[j] != (key_view(*output), key_view(*input)),
            decreases self.suppressed@.len() - i,
        {
            let pair = &self.suppressed[i];
            if pair.0.same_as(output) && pair.1.same_as(input) {
                assert(views[i as int] == (key_view(*output), key_view(*input)));
                return true;
            }
            i = i + 1;
        }
        proof {
            if views.contains((key_view(*output), key_view(*input))) {
                let j = views.index_of((key_view(*output), key_view(*input)));
                assert(views[j] == (key_view(*output), key_view(*input)));
            }
        }
        false
    }

    /// Make every later `connect(src, dst)` fail.
    pub fn fail_connect_of(&mut self, src: PortId, dst: PortId)
        ensures
            final(self).spec_graph() == old(self).spec_graph(),
            final(self).observed() == old(self).observed(),
            final(self).suppressed_pairs() == old(self).suppressed_pairs(),
            final(self).refused_connects() == old(self).refused_connects().insert((src, dst)),
            final(self).refused_disconnects() == old(self).refused_disconnects(),
            final(self).refused_disconnect_pairs() == old(self).refused_disconnect_pairs(),
    {
        self.failing_connects.push((src, dst));
        proof {
            assert forall|x: (PortId, PortId)| #[trigger] self.refused_connects().contains(x) == old(self).refused_connects().insert(
                (src, dst),
            ).contains(x) by {
                let before = old(self).failing_connects@;
                if before.contains(x) {
                    let k = choose|k: int| 0 <= k < before.len() && before[k] == x;
                    assert(self.failing_connects@[k] == x);
                }
                if x == (src, dst) {
                    assert(self.failing_connects@[before.len() as int] == x);
                }
                if self.failing_connects@.contains(x) {
                    let k = choose|k: int| 0 <= k < self.failing_connects@.len() && self.failing_connects@[k] == x;
                    if k < before.len() {
                        assert(before[k] == x);
                    }
                }
            }
            assert(self.refused_connects() =~= old(self).refused_connects().insert((src, dst)));
            assert(self.refused_disconnects() =~= old(self).refused_disconnects());
            assert(self.refused_disconnect_pairs() =~= old(self).refused_disconnect_pairs());
        }
    }

    /// Make every later `disconnect(link)` fail.
    pub fn fail_disconnect_of(&mut self, link: LinkId)
        ensures
            final(self).spec_graph() == old(self).spec_graph(),
            final(self).observed() == old(self).observed(),
            final(self).suppressed_pairs() == old(self).suppressed_pairs(),
            final(self).refused_disconnects() == old(self).refused_disconnects().insert(link),
            final(self).refused_connects() == old(self).refused_connects(),
            final(self).refused_disconnect_pairs() == old(self).refused_disconnect_pairs(),
    {
        self.failing_disconnects.push(link);
        proof {
            assert forall|x: LinkId| #[trigger] self.refused_disconnects().contains(x) == old(self).refused_disconnects().insert(
                link,
            ).contains(x) by {
                let before = old(self).failing_disconnects@;
                if before.contains(x) {
                    let k = choose|k: int| 0 <= k < before.len() && before[k] == x;
                    assert(self.failing_disconnects@[k] == x);
                }
                if x == link {
                    assert(self.failing_disconnects@[before.len() as int] == x);
                }
                if self.failing_disconnects@.contains(x) {
                    let k = choose|k: int| 0 <= k < self.failing_disconnects@.len() && self.failing_disconnects@[k] == x;
                    if k < before.len() {
                        assert(before[k] == x);
                    }
                }
            }
            assert(self.refused_disconnects() =~= old(self).refused_disconnects().insert(link));
            assert(self.refused_connects() =~= old(self).refused_connects());
            assert(self.refused_disconnect_pairs() =~= old(self).refused_disconnect_pairs());
        }
    }

    /// Make every later disconnect of a link from `output` to `input` fail.
    pub fn fail_disconnect_of_pair(&mut self, output: PortId, input: PortId)
        ensures
            final(self).spec_graph() == old(self).spec_graph(),
            final(self).observed() == old(self).observed(),
            final(self).suppressed_pairs() == old(self).suppressed_pairs(),
            final(self).refused_disconnect_pairs() == old(self).refused_disconnect_pairs().insert((output, input)),
            final(self).refused_connects() == old(self).refused_connects(),
            final(self).refused_disconnects() == old(self).refused_disconnects(),
    {
        self.failing_disconnect_pairs.push((output, input));
        proof {
            assert forall|x: (PortId, PortId)| #[trigger] self.refused_disconnect_pairs().contains(x) == old(self).refused_disconnect_pairs().insert(
                (output, input),
            ).contains(x) by {
                let before = old(self).failing_disconnect_pairs@;
                if before.contains(x) {
                    let k = choose|k: int| 0 <= k < before.len() && before[k] == x;
                    assert(self.failing_disconnect_pairs@[k] == x);
                }
                if x == (output, input) {
                    assert(self.failing_disconnect_pairs@[before.len() as int] == x);
                }
                if self.failing_disconnect_pairs@.contains(x) {
                    let k = choose|k: int| 0 <= k < self.failing_disconnect_pairs@.len() && self.failing_disconnect_pairs@[k] == x;
                    if k < before.len() {
                        assert(before[k] == x);
                    }
                }
            }
            assert(self.refused_disconnect_pairs() =~= old(self).refused_disconnect_pairs().insert((output, input)));
            assert(self.refused_connects() =~= old(self).refused_connects());
            assert(self.refused_disconnects() =~= old(self).refused_disconnects());
        }
    }

    fn connect_fails(&self, src: PortId, dst: PortId) -> (fails: bool)
        ensures
            fails == self.refused_connects().contains((src, dst)),
    {
        let mut i: usize = 0;
        while i < self.failing_connects.len()
            invariant
                i <= self.failing_connects@.len(),
                forall|j: int| 0 <= j < i ==> self.failing_connects@[j] != (src, dst),
            decreases self.failing_connects@.len() - i,
        {
            if self.failing_connects[i].0 == src && self.failing_connects[i].1 == dst {
                return true;
            }
            i = i + 1;
        }
        false
    }

    fn disconnect_fails(&self, link: Link) -> (fails: bool)
        ensures
            fails == self.refuses_disconnect(link),
    {
        let mut i: usize = 0;
        while i < self.failing_disconnects.len()
            invariant
                i <= self.failing_disconnects@.len(),
                forall|k: int| 0 <= k < i ==> self.failing_disconnects@[k] != link.id,
            decreases self.failing_disconnects@.len() - i,
        {
            if self.failing_disconnects[i] == link.id {
                return true;
            }
            i = i + 1;
        }
        let mut j: usize = 0;
        while j < self.failing_disconnect_pairs.len()
            invariant
                j <= self.failing_disconnect_pairs@.len(),
                !self.refused_disconnects().contains(link.id),
                forall|k: int| 0 <= k < j ==> self.failing_disconnect_pairs@[k] != (link.output_port, link.input_port),
            decreases self.failing_disconnect_pairs@.len() - j,
        {
            if self.failing_disconnect_pairs[j].0 == link.output_port
                && self.failing_disconnect_pairs[j].1 == link.input_port {
                return true;
            }
            j = j + 1;
        }
        false
    }
}

/// The name the in-memory backend is also known by.
pub type InMemoryDriver = DemoDriver;

/// No other program edits the graph of an in-memory driver, so every
/// static-driver promise of the command layer holds for it.
pub proof fn lemma_demo_driver_is_static(driver: DemoDriver)
    ensures
        driver.spec_is_static(),
{
}

impl GraphDriver for DemoDriver {
    closed spec fn spec_graph(&self) -> Graph {
        self.graph
    }

    /// Nothing but this driver edits the demo graph.
    closed spec fn spec_is_static(&self) -> bool {
        true
    }

    closed spec fn spec_link_mutable(&self, link: LinkId) -> bool {
        self.graph.links@.contains_key(link.0) && !self.observed_links@.contains(link)
    }

    closed spec fn spec_capabilities(&self) -> BackendCapabilities {
        BackendCapabilities {
            topology: true,
            connect: true,
            disconnect: true,
            volume: true,
            mute: true,
            meters: true,
            effects: true,
            relay: false,
        }
    }

    /// A node the graph holds reads as fully controllable, with the controls
    /// set on it; an effect node has no audio controls, as a DSP node would
    /// not on a native backend.
    closed spec fn spec_node_audio_state(&self, node: NodeId) -> BackendResult<NodeAudioState> {
        if !self.graph.nodes@.contains_key(node.0) {
            Err(BackendError::Graph(GraphError::MissingNode(node)))
        } else if self.graph.nodes@[node.0].node_type == NodeType::Effect {
            Ok(
                NodeAudioState {
                    volume_bits: None,
                    muted: None,
                    volume_readable: false,
                    volume_writable: false,
                    mute_readable: false,
                    mute_writable: false,
                },
            )
        } else {
            Ok(
                NodeAudioState {
                    volume_bits: Some(self.audio_control(node).volume_bits),
                    muted: Some(self.audio_control(node).muted),
                    volume_readable: true,
                    volume_writable: true,
                    mute_readable: true,
                    mute_writable: true,
                },
            )
        }
    }

    /// Everything but the audio relay.
    fn capabilities(&self) -> (capabilities: BackendCapabilities)
        ensures
            capabilities == (BackendCapabilities {
                topology: true,
                connect: true,
                disconnect: true,
                volume: true,
                mute: true,
                meters: true,
                effects: true,
                relay: false,
            }),
    {
        BackendCapabilities {
            topology: true,
            connect: true,
            disconnect: true,
            volume: true,
            mute: true,
            meters: true,
            effects: true,
            relay: false,
        }
    }

    fn node_audio_state(&self, node: NodeId) -> (state: BackendResult<NodeAudioState>) {
        match self.graph.node(node) {
            None => Err(BackendError::Graph(GraphError::MissingNode(node))),
            Some(record) => {
                if record.node_type == NodeType::Effect {
                    Ok(NodeAudioState::unsupported())
                } else {
                    let control = match self.audio_controls.get(node.0) {
                        Some(found) => found.control,
                        None => NodeAudioControl::default(),
                    };
                    Ok(NodeAudioState::readable(control.volume_bits, control.muted))
                }
            },
        }
    }

    /// A node with audio controls has both meters too; an effect node is
    /// pass-through DSP, with nothing to control or meter.
    fn node_capabilities(&self, node: NodeId) -> (capabilities: NodeCapabilities)
        ensures
            capabilities == match self.spec_node_audio_state(node) {
                Ok(state) => {
                    let supported = state.volume_readable || state.volume_writable
                        || state.mute_readable || state.mute_writable;
                    NodeCapabilities {
                        volume_read: state.volume_readable,
                        volume_write: state.volume_writable,
                        mute_read: state.mute_readable,
                        mute_write: state.mute_writable,
                        meter_peak: supported,
                        meter_rms: supported,
                    }
                },
                Err(_) => NodeCapabilities {
                    volume_read: false,
                    volume_write: false,
                    mute_read: false,
                    mute_write: false,
                    meter_peak: false,
                    meter_rms: false,
                },
            },
    {
        let state = match self.node_audio_state(node) {
            Ok(state) => state,
            Err(_) => {
                return NodeCapabilities::none();
            },
        };
        let mut capabilities = state.control_capabilities();
        if state.is_supported() {
            capabilities.meter_peak = true;
            capabilities.meter_rms = true;
        }
        capabilities
    }

    /// Mute or unmute a node the graph holds.
    fn set_node_mute(&mut self, node: NodeId, muted: bool) -> (result: BackendResult<()>)
        ensures
            final(self).effect_list() == old(self).effect_list(),
            !old(self).spec_graph().nodes@.contains_key(node.0) ==> result == Err::<(), BackendError>(
                BackendError::Graph(GraphError::MissingNode(node)),
            ) && forall|n: NodeId| #[trigger] final(self).audio_control(n) == old(self).audio_control(n),
            old(self).spec_graph().nodes@.contains_key(node.0) ==> result is Ok && final(self).audio_control(
                node,
            ) == (NodeAudioControl { muted, volume_bits: old(self).audio_control(node).volume_bits })
                && forall|n: NodeId| n != node ==> #[trigger] final(self).audio_control(n) == old(self).audio_control(n),
    {
        if !self.graph.nodes.contains_key(node.0) {
            return Err(BackendError::Graph(GraphError::MissingNode(node)));
        }
        let current = match self.audio_controls.get(node.0) {
            Some(found) => found.control,
            None => NodeAudioControl::default(),
        };
        self.update_control(node, NodeAudioControl { muted, volume_bits: current.volume_bits });
        Ok(())
    }

    /// Set the volume of a node the graph holds; the demo range is 0 to 1.5
    /// and limiting to it is the caller's float arithmetic.
    fn set_node_volume(&mut self, node: NodeId, volume_bits: u32) -> (result: BackendResult<()>)
        ensures
            final(self).effect_list() == old(self).effect_list(),
            !old(self).spec_graph().nodes@.contains_key(node.0) ==> result == Err::<(), BackendError>(
                BackendError::Graph(GraphError::MissingNode(node)),
            ) && forall|n: NodeId| #[trigger] final(self).audio_control(n) == old(self).audio_control(n),
            old(self).spec_graph().nodes@.contains_key(node.0) ==> result is Ok && final(self).audio_control(
                node,
            ) == (NodeAudioControl { muted: old(self).audio_control(node).muted, volume_bits })
                && forall|n: NodeId| n != node ==> #[trigger] final(self).audio_control(n) == old(self).audio_control(n),
    {
        if !self.graph.nodes.contains_key(node.0) {
            return Err(BackendError::Graph(GraphError::MissingNode(node)));
        }
        let current = match self.audio_controls.get(node.0) {
            Some(found) => found.control,
            None => NodeAudioControl::default(),
        };
        self.update_control(node, NodeAudioControl { muted: current.muted, volume_bits });
        Ok(())
    }

    fn graph(&self) -> (graph: &Graph) {
        &self.graph
    }

    /// The demo graph changes only through this driver; the nodes come back
    /// in id order.
    fn refresh(&mut self) -> (nodes: BackendResult<Vec<Node>>)
        ensures
            nodes matches Ok(v) ==> {
                &&& v@.len() == final(self).spec_graph().nodes.entries().len()
                &&& forall|i: int|
                    0 <= i < v@.len() ==> {
                        let node = final(self).spec_graph().nodes.entries()[i];
                        &&& (#[trigger] v@[i]).id == node.id
                        &&& v@[i].name == node.name
                        &&& v@[i].node_type == node.node_type
                        &&& v@[i].ports@ == node.ports@
                    }
            },
    {
        let values = self.graph.nodes.values();
        let mut nodes: Vec<Node> = Vec::new();
        let mut i: usize = 0;
        while i < values.len()
            invariant
                i <= values@.len(),
                values@ == self.graph.nodes.entries(),
                nodes@.len() == i,
                forall|j: int|
                    0 <= j < i ==> {
                        &&& (#[trigger] nodes@[j]).id == values@[j].id
                        &&& nodes@[j].name == values@[j].name
                        &&& nodes@[j].node_type == values@[j].node_type
                        &&& nodes@[j].ports@ == values@[j].ports@
                    },
            decreases values@.len() - i,
        {
            nodes.push(values[i].clone());
            i = i + 1;
        }
        Ok(nodes)
    }

    fn connect(&mut self, src: PortId, dst: PortId) -> (result: BackendResult<Link>)
        ensures
            old(self).spec_next_link_id() == u64::MAX ==> (result matches Err(BackendError::Native(m))
                && m@ == "the demo driver has no link ids left"@),
            old(self).spec_next_link_id() < u64::MAX && old(self).refused_connects().contains((src, dst))
                ==> (result matches Err(BackendError::Native(m)) && m@
                == "the demo driver refused this connection"@),
            old(self).spec_next_link_id() < u64::MAX && !old(self).refused_connects().contains((src, dst))
                ==> result == match spec_add_link_error(
                &old(self).spec_graph(),
                LinkId(old(self).spec_next_link_id()),
                src,
                dst,
            ) {
                Some(error) => Err::<Link, BackendError>(BackendError::Graph(error)),
                None => Ok(Link { id: LinkId(old(self).spec_next_link_id()), output_port: src, input_port: dst }),
            },
    {
        if self.next_link_id == u64::MAX {
            return Err(BackendError::native("the demo driver has no link ids left"));
        }
        let link_id = LinkId(self.next_link_id);
        self.next_link_id = self.next_link_id + 1;
        if self.connect_fails(src, dst) {
            return Err(BackendError::native("the demo driver refused this connection"));
        }
        match self.graph.add_link(link_id, src, dst) {
            Ok(link) => Ok(link),
            Err(error) => Err(BackendError::Graph(error)),
        }
    }

    fn disconnect(&mut self, link: LinkId) -> (result: BackendResult<Link>)
        ensures
            old(self).spec_graph().links@.contains_key(link.0) && old(self).refuses_disconnect(
                old(self).spec_graph().links@[link.0],
            ) ==> (result matches Err(BackendError::Native(m)) && m@
                == "the demo driver refused this disconnection"@),
            old(self).spec_graph().links@.contains_key(link.0) && !old(self).refuses_disconnect(
                old(self).spec_graph().links@[link.0],
            ) ==> result == Ok::<Link, BackendError>(old(self).spec_graph().links@[link.0]),
            !old(self).spec_graph().links@.contains_key(link.0) ==> result == Err::<Link, BackendError>(
                BackendError::Graph(GraphError::MissingLink(link)),
            ),
    {
        match self.graph.link(link) {
            Some(existing) => {
                let existing = *existing;
                if self.disconnect_fails(existing) {
                    return Err(BackendError::native("the demo driver refused this disconnection"));
                }
            },
            None => {},
        }
        match self.graph.remove_link(link) {
            Ok(removed) => Ok(removed),
            Err(error) => {
                assert(self.graph.links@ =~= old(self).graph.links@);
                Err(BackendError::Graph(error))
            },
        }
    }

    fn is_link_mutable(&self, link: LinkId) -> (mutable: bool) {
        if self.graph.link(link).is_none() {
            return false;
        }
        let mut i: usize = 0;
        while i < self.observed_links.len()
            invariant
                i <= self.observed_links@.len(),
                forall|j: int| 0 <= j < i ==> self.observed_links@[j] != link,
            decreases self.observed_links@.len() - i,
        {
            if self.observed_links[i] == link {
                return false;
            }
            i = i + 1;
        }
        true
    }

    fn allow_connection(&mut self, output: &PortKey, input: &PortKey)
        ensures
            final(self).spec_graph() == old(self).spec_graph(),
            final(self).suppressed_pairs() == old(self).suppressed_pairs().remove(
                (key_view(*output), key_view(*input)),
            ),
            final(self).observed() == old(self).observed(),
            final(self).refused_connects() == old(self).refused_connects(),
            final(self).refused_disconnects() == old(self).refused_disconnects(),
            final(self).refused_disconnect_pairs() == old(self).refused_disconnect_pairs(),
    {
        let ghost target = (key_view(*output), key_view(*input));
        let ghost views = self.suppressed@.map_values(|p: (PortKey, PortKey)| pair_view(p));
        let mut kept: Vec<(PortKey, PortKey)> = Vec::new();
        let mut i: usize = 0;
        while i < self.suppressed.len()
            invariant
                i <= self.suppressed@.len(),
                *self == *old(self),
                views == self.suppressed@.map_values(|p: (PortKey, PortKey)| pair_view(p)),
                target == (key_view(*output), key_view(*input)),
                forall|k: int|
                    0 <= k < kept@.len() ==> pair_view(#[trigger] kept@[k]) != target && exists|j: int|
                        0 <= j < i && #[trigger] views[j] == pair_view(kept@[k]),
                forall|j: int|
                    0 <= j < i && #[trigger] views[j] != target ==> exists|k: int|
                        0 <= k < kept@.len() && pair_view(#[trigger] kept@[k]) == views[j],
            decreases self.suppressed@.len() - i,
        {
            let pair = &self.suppressed[i];
            if !(pair.0.same_as(output) && pair.1.same_as(input)) {
                let copy = (pair.0.clone(), pair.1.clone());
                let ghost before = kept@;
                kept.push(copy);
                proof {
                    assert(views[i as int] == pair_view(copy));
                    assert(kept@[before.len() as int] == copy);
                    assert forall|k: int| 0 <= k < kept@.len() implies pair_view(#[trigger] kept@[k]) != target
                        && exists|j: int| 0 <= j < i + 1 && #[trigger] views[j] == pair_view(kept@[k]) by {
                        if k < before.len() {
                            assert(kept@[k] == before[k]);
                        }
                    }
                    assert forall|j: int| 0 <= j < i + 1 && #[trigger] views[j] != target implies exists|k: int|
                        0 <= k < kept@.len() && pair_view(#[trigger] kept@[k]) == views[j] by {
                        if j < i {
                            let k = choose|k: int| 0 <= k < before.len() && pair_view(#[trigger] before[k]) == views[j];
                            assert(kept@[k] == before[k]);
                        }
                    }
                }
            } else {
                proof {
                    assert(views[i as int] == target);
                    assert forall|k: int| 0 <= k < kept@.len() implies pair_view(#[trigger] kept@[k]) != target
                        && exists|j: int| 0 <= j < i + 1 && #[trigger] views[j] == pair_view(kept@[k]) by {
                        let j = choose|j: int| 0 <= j < i && #[trigger] views[j] == pair_view(kept@[k]);
                        assert(views[j] == pair_view(kept@[k]));
                    }
                }
            }
            i = i + 1;
        }
        let ghost old_set = self.suppressed_pairs();
        self.suppressed = kept;
        proof {
            let new_views = kept@.map_values(|p: (PortKey, PortKey)| pair_view(p));
            assert forall|v| #[trigger] self.suppressed_pairs().contains(v) <==> old_set.remove(target).contains(v) by {
                if new_views.contains(v) {
                    let k = choose|k: int| 0 <= k < new_views.len() && new_views[k] == v;
                    assert(pair_view(kept@[k]) == v);
                    let j = choose|j: int| 0 <= j < views.len() && #[trigger] views[j] == pair_view(kept@[k]);
                    assert(views.contains(v));
                }
                if old_set.contains(v) && v != target {
                    assert(views.contains(v));
                    let j = choose|j: int| 0 <= j < views.len() && views[j] == v;
                    assert(views[j] != target);
                    let k = choose|k: int| 0 <= k < kept@.len() && pair_view(#[trigger] kept@[k]) == views[j];
                    assert(new_views[k] == v);
                }
            }
            assert(self.suppressed_pairs() =~= old_set.remove(target));
            assert(self.observed_links@ == old(self).observed_links@);
            assert forall|l: LinkId| #[trigger] self.spec_graph().links@.contains_key(l.0) implies self.spec_link_mutable(l)
                == old(self).spec_link_mutable(l) by {
                assert(self.graph == old(self).graph);
            }
        }
    }

    fn suppress_connection(&mut self, output: &PortKey, input: &PortKey)
        ensures
            final(self).spec_graph() == old(self).spec_graph(),
            final(self).suppressed_pairs() == old(self).suppressed_pairs().insert(
                (key_view(*output), key_view(*input)),
            ),
            final(self).observed() == old(self).observed(),
            final(self).refused_connects() == old(self).refused_connects(),
            final(self).refused_disconnects() == old(self).refused_disconnects(),
            final(self).refused_disconnect_pairs() == old(self).refused_disconnect_pairs(),
    {
        if !self.is_connection_suppressed(output, input) {
            self.mark_connection_suppressed(output.clone(), input.clone());
            proof {
                assert forall|l: LinkId| #[trigger] self.spec_graph().links@.contains_key(l.0) implies self.spec_link_mutable(l)
                    == old(self).spec_link_mutable(l) by {
                    assert(self.observed().contains(l) == old(self).observed().contains(l));
                }
            }
        } else {
            proof {
                assert(self.suppressed_pairs() =~= old(self).suppressed_pairs().insert(
                    (key_view(*output), key_view(*input)),
                ));
            }
        }
    }
}

} // verus!
