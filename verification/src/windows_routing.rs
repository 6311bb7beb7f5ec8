//! The bookkeeping behind the Windows routes this library owns: which links
//! it created, and which capture or render devices those links hold open.
//!
//! A device is opened when the first link needs it and closed when the last
//! one stops. The caller does the opening and closing; these functions say
//! when.

use vstd::prelude::*;
use crate::backend::BackendError;
use crate::graph::Link;
use crate::ids::{LinkId, PortId};

verus! {

/// One opened device: the port it stands behind, the id the router knows it
/// by, and how many links use it.
#[derive(Clone, Copy, Debug, PartialEq, Eq, Structural)]
pub struct DeviceUse {
    pub port: PortId,
    pub id: u64,
    pub users: usize,
}

/// Whether a link starts (`out`) or ends at a port.
pub open spec fn end_at(port: PortId, out: bool) -> spec_fn(Link) -> bool {
    |l: Link| if out { l.output_port == port } else { l.input_port == port }
}

/// The port a link starts (`out`) or ends at.
pub open spec fn end_of(l: Link, out: bool) -> PortId {
    if out {
        l.output_port
    } else {
        l.input_port
    }
}

/// How many of the links start (`out`) or end at a port.
pub open spec fn users_of(links: Seq<Link>, port: PortId, out: bool) -> nat {
    links.filter(end_at(port, out)).len()
}

/// The devices match the links: one per port, each used by exactly the
/// links that start (`out`) or end there, and none unused.
pub open spec fn uses_match(uses: Seq<DeviceUse>, links: Seq<Link>, out: bool) -> bool {
    &&& forall|i: int, j: int| 0 <= i < j < uses.len() ==> uses[i].port != uses[j].port
    &&& forall|i: int|
        0 <= i < uses.len() ==> (#[trigger] uses[i]).users == users_of(links, uses[i].port, out)
            && uses[i].users > 0
    &&& forall|k: int|
        0 <= k < links.len() ==> exists|i: int|
            0 <= i < uses.len() && (#[trigger] uses[i]).port == end_of(#[trigger] links[k], out)
}

/// The device in use behind a port, if any.
pub open spec fn device_at(uses: Seq<DeviceUse>, port: PortId) -> Option<DeviceUse> {
    if exists|i: int| 0 <= i < uses.len() && uses[i].port == port {
        Some(uses[choose|i: int| 0 <= i < uses.len() && uses[i].port == port])
    } else {
        None
    }
}

proof fn lemma_users_push(links: Seq<Link>, l: Link, port: PortId, out: bool)
    ensures
        users_of(links.push(l), port, out) == users_of(links, port, out) + if end_of(l, out) == port {
            1nat
        } else {
            0nat
        },
{
    links.lemma_filter_push(l, end_at(port, out));
}

proof fn lemma_users_remove(links: Seq<Link>, k: int, port: PortId, out: bool)
    requires
        0 <= k < links.len(),
    ensures
        users_of(links.remove(k), port, out) + (if end_of(links[k], out) == port {
            1nat
        } else {
            0nat
        }) == users_of(links, port, out),
{
    broadcast use vstd::seq::Seq::filter_distributes_over_add;

    let f = end_at(port, out);
    let a = links.subrange(0, k);
    let b = links.subrange(k + 1, links.len() as int);
    assert(links =~= a.push(links[k]) + b);
    assert(links.remove(k) =~= a + b);
    a.lemma_filter_push(links[k], f);
}

proof fn lemma_no_users(links: Seq<Link>, port: PortId, out: bool, k: int)
    requires
        users_of(links, port, out) == 0,
        0 <= k < links.len(),
    ensures
        end_of(links[k], out) != port,
{
    if end_of(links[k], out) == port {
        links.lemma_filter_contains(end_at(port, out), k);
    }
}

proof fn lemma_device_at(uses: Seq<DeviceUse>, i: int)
    requires
        0 <= i < uses.len(),
        forall|a: int, b: int| 0 <= a < b < uses.len() ==> uses[a].port != uses[b].port,
    ensures
        device_at(uses, uses[i].port) == Some(uses[i]),
{
    let j = choose|j: int| 0 <= j < uses.len() && uses[j].port == uses[i].port;
    assert(j == i);
}

fn find_use(uses: &Vec<DeviceUse>, port: PortId) -> (found: Option<usize>)
    ensures
        match found {
            Some(i) => i < uses@.len() && uses@[i as int].port == port,
            None => forall|i: int| 0 <= i < uses@.len() ==> uses@[i].port != port,
        },
{
    let mut i: usize = 0;
    while i < uses.len()
        invariant
            i <= uses@.len(),
            forall|j: int| 0 <= j < i ==> uses@[j].port != port,
        decreases uses@.len() - i,
    {
        if uses[i].port == port {
            return Some(i);
        }
        i = i + 1;
    }
    None
}

fn contains_port(ports: &[PortId], port: PortId) -> (found: bool)
    ensures
        found == ports@.contains(port),
{
    let mut i: usize = 0;
    while i < ports.len()
        invariant
            i <= ports@.len(),
            forall|j: int| 0 <= j < i ==> ports@[j] != port,
        decreases ports@.len() - i,
    {
        if ports[i] == port {
            assert(ports@[i as int] == port);
            return true;
        }
        i = i + 1;
    }
    false
}

fn find_link(links: &Vec<Link>, id: LinkId) -> (found: Option<usize>)
    ensures
        match found {
            Some(i) => i < links@.len() && links@[i as int].id == id,
            None => forall|i: int| 0 <= i < links@.len() ==> links@[i].id != id,
        },
{
    let mut i: usize = 0;
    while i < links.len()
        invariant
            i <= links@.len(),
            forall|j: int| 0 <= j < i ==> links@[j].id != id,
        decreases links@.len() - i,
    {
        if links[i].id == id {
            return Some(i);
        }
        i = i + 1;
    }
    None
}

/// A device with one more user.
pub open spec fn one_more(d: Option<DeviceUse>, port: PortId, new_id: u64) -> DeviceUse {
    match d {
        Some(u) => DeviceUse { port: u.port, id: u.id, users: (u.users + 1) as usize },
        None => DeviceUse { port, id: new_id, users: 1 },
    }
}

/// Count one more link at `port` for `link`, opening a device entry with
/// `new_id` where none is in use yet.
fn add_user(
    uses: &mut Vec<DeviceUse>,
    port: PortId,
    new_id: u64,
    Ghost(links): Ghost<Seq<Link>>,
    Ghost(link): Ghost<Link>,
    Ghost(out): Ghost<bool>,
)
    requires
        uses_match(old(uses)@, links, out),
        end_of(link, out) == port,
        links.len() < usize::MAX,
    ensures
        uses_match(final(uses)@, links.push(link), out),
        device_at(final(uses)@, port) == Some(one_more(device_at(old(uses)@, port), port, new_id)),
        forall|p: PortId| p != port ==> device_at(final(uses)@, p) == device_at(old(uses)@, p),
{
    let ghost before = uses@;
    let ghost after_links = links.push(link);
    proof {
        lemma_users_push(links, link, port, out);
        links.lemma_filter_len(end_at(port, out));
        assert forall|q: PortId| q != port implies users_of(after_links, q, out) == users_of(links, q, out) by {
            lemma_users_push(links, link, q, out);
        }
    }
    match find_use(uses, port) {
        Some(i) => {
            let d = uses[i];
            proof {
                lemma_device_at(before, i as int);
            }
            uses.set(i, DeviceUse { port: d.port, id: d.id, users: d.users + 1 });
            proof {
                assert forall|k: int| 0 <= k < after_links.len() implies exists|j: int|
                    0 <= j < uses@.len() && (#[trigger] uses@[j]).port == end_of(#[trigger] after_links[k], out) by {
                    if k < links.len() {
                        assert(after_links[k] == links[k]);
                        let j = choose|j: int| 0 <= j < before.len() && (#[trigger] before[j]).port == end_of(links[k], out);
                        assert(uses@[j].port == before[j].port);
                    } else {
                        assert(uses@[i as int].port == port);
                    }
                }
                assert forall|p: PortId| p != port implies device_at(uses@, p) == device_at(before, p) by {
                    if exists|j: int| 0 <= j < before.len() && before[j].port == p {
                        let j = choose|j: int| 0 <= j < before.len() && before[j].port == p;
                        lemma_device_at(before, j);
                        lemma_device_at(uses@, j);
                    } else {
                        assert forall|j: int| 0 <= j < uses@.len() implies uses@[j].port != p by {
                            assert(uses@[j].port == before[j].port);
                        }
                    }
                }
                lemma_device_at(uses@, i as int);
            }
        },
        None => {
            uses.push(DeviceUse { port, id: new_id, users: 1 });
            proof {
                assert(device_at(before, port) is None);
                let n = before.len() as int;
                assert(users_of(links, port, out) == 0) by {
                    if users_of(links, port, out) > 0 {
                        let x = links.filter(end_at(port, out))[0];
                        links.lemma_filter_pred(end_at(port, out), 0);
                        links.lemma_filter_contains_rev(end_at(port, out), x);
                        let k = choose|k: int| 0 <= k < links.len() && links[k] == x;
                        let j = choose|j: int| 0 <= j < before.len() && (#[trigger] before[j]).port == end_of(links[k], out);
                    }
                }
                assert forall|k: int| 0 <= k < after_links.len() implies exists|j: int|
                    0 <= j < uses@.len() && (#[trigger] uses@[j]).port == end_of(#[trigger] after_links[k], out) by {
                    if k < links.len() {
                        assert(after_links[k] == links[k]);
                        let j = choose|j: int| 0 <= j < before.len() && (#[trigger] before[j]).port == end_of(links[k], out);
                        assert(uses@[j] == before[j]);
                    } else {
                        assert(uses@[n].port == port);
                    }
                }
                assert forall|p: PortId| p != port implies device_at(uses@, p) == device_at(before, p) by {
                    if exists|j: int| 0 <= j < before.len() && before[j].port == p {
                        let j = choose|j: int| 0 <= j < before.len() && before[j].port == p;
                        lemma_device_at(before, j);
                        lemma_device_at(uses@, j);
                    } else {
                        assert forall|j: int| 0 <= j < uses@.len() implies uses@[j].port != p by {
                            if j < n {
                                assert(uses@[j] == before[j]);
                            }
                        }
                    }
                }
                lemma_device_at(uses@, n);
            }
        },
    }
}

/// Count one link fewer at `port`, the end of `links[k]` leaving: the
/// device's id when that was its last user, which then leaves the list.
fn drop_user(
    uses: &mut Vec<DeviceUse>,
    port: PortId,
    Ghost(links): Ghost<Seq<Link>>,
    Ghost(k): Ghost<int>,
    Ghost(out): Ghost<bool>,
) -> (closed: Option<u64>)
    requires
        uses_match(old(uses)@, links, out),
        0 <= k < links.len(),
        end_of(links[k], out) == port,
    ensures
        uses_match(final(uses)@, links.remove(k), out),
        device_at(old(uses)@, port) is Some,
        (closed is Some) == (device_at(old(uses)@, port)->Some_0.users == 1),
        (closed is Some) == (users_of(links.remove(k), port, out) == 0),
        closed is Some ==> closed == Some(device_at(old(uses)@, port)->Some_0.id) && device_at(
            final(uses)@,
            port,
        ) is None,
        closed is None ==> device_at(final(uses)@, port) == Some(
            DeviceUse {
                port,
                id: device_at(old(uses)@, port)->Some_0.id,
                users: (device_at(old(uses)@, port)->Some_0.users - 1) as usize,
            },
        ),
        forall|p: PortId| p != port ==> device_at(final(uses)@, p) == device_at(old(uses)@, p),
        final(uses)@.len() + (if closed is Some {
            1int
        } else {
            0int
        }) == old(uses)@.len(),
{
    let ghost before = uses@;
    let ghost rest = links.remove(k);
    proof {
        lemma_users_remove(links, k, port, out);
        assert forall|q: PortId| q != port implies users_of(rest, q, out) == users_of(links, q, out) by {
            lemma_users_remove(links, k, q, out);
        }
        assert(forall|m: int| 0 <= m < rest.len() ==> rest[m] == links[if m < k { m } else { m + 1 }]);
    }
    let i = match find_use(uses, port) {
        Some(i) => i,
        None => {
            proof {
                let j = choose|j: int| 0 <= j < before.len() && (#[trigger] before[j]).port == end_of(links[k], out);
            }
            return None;
        },
    };
    let d = uses[i];
    proof {
        lemma_device_at(before, i as int);
    }
    if d.users == 1 {
        uses.remove(i);
        proof {
            assert(forall|m: int| 0 <= m < uses@.len() ==> uses@[m] == before[if m < i { m } else { m + 1 }]);
            assert forall|m: int| 0 <= m < rest.len() implies exists|j: int|
                0 <= j < uses@.len() && (#[trigger] uses@[j]).port == end_of(#[trigger] rest[m], out) by {
                let m0 = if m < k { m } else { m + 1 };
                assert(rest[m] == links[m0]);
                let j = choose|j: int| 0 <= j < before.len() && (#[trigger] before[j]).port == end_of(links[m0], out);
                if j == i {
                    lemma_no_users(rest, port, out, m);
                }
                let j2 = if j < i { j } else { j - 1 };
                assert(uses@[j2] == before[j]);
            }
            assert forall|p: PortId| p != port implies device_at(uses@, p) == device_at(before, p) by {
                if exists|j: int| 0 <= j < before.len() && before[j].port == p {
                    let j = choose|j: int| 0 <= j < before.len() && before[j].port == p;
                    lemma_device_at(before, j);
                    let j2 = if j < i { j } else { j - 1 };
                    assert(uses@[j2] == before[j]);
                    lemma_device_at(uses@, j2);
                } else {
                    assert forall|j: int| 0 <= j < uses@.len() implies uses@[j].port != p by {
                        assert(uses@[j] == before[if j < i { j } else { j + 1 }]);
                    }
                }
            }
            assert forall|j: int| 0 <= j < uses@.len() implies uses@[j].port != port by {
                assert(uses@[j] == before[if j < i { j } else { j + 1 }]);
            }
        }
        Some(d.id)
    } else {
        uses.set(i, DeviceUse { port: d.port, id: d.id, users: d.users - 1 });
        proof {
            assert forall|m: int| 0 <= m < rest.len() implies exists|j: int|
                0 <= j < uses@.len() && (#[trigger] uses@[j]).port == end_of(#[trigger] rest[m], out) by {
                let m0 = if m < k { m } else { m + 1 };
                assert(rest[m] == links[m0]);
                let j = choose|j: int| 0 <= j < before.len() && (#[trigger] before[j]).port == end_of(links[m0], out);
                assert(uses@[j].port == before[j].port);
            }
            assert forall|p: PortId| p != port implies device_at(uses@, p) == device_at(before, p) by {
                if exists|j: int| 0 <= j < before.len() && before[j].port == p {
                    let j = choose|j: int| 0 <= j < before.len() && before[j].port == p;
                    lemma_device_at(before, j);
                    lemma_device_at(uses@, j);
                } else {
                    assert forall|j: int| 0 <= j < uses@.len() implies uses@[j].port != p by {
                        assert(uses@[j].port == before[j].port);
                    }
                }
            }
            lemma_device_at(uses@, i as int);
        }
        None
    }
}

/// The output ports of the links, each once, in the order they first occur.
pub open spec fn spec_outputs(links: Seq<Link>) -> Seq<PortId>
    decreases links.len(),
{
    if links.len() == 0 {
        Seq::empty()
    } else {
        let rest = spec_outputs(links.drop_last());
        if rest.contains(links.last().output_port) {
            rest
        } else {
            rest.push(links.last().output_port)
        }
    }
}

/// The sink devices of the links from `port`, in link order.
pub open spec fn spec_destinations(links: Seq<Link>, sinks: Seq<DeviceUse>, port: PortId) -> Seq<u64> {
    links.filter(end_at(port, true)).map_values(|l: Link| device_at(sinks, l.input_port)->Some_0.id)
}

/// The route table the router runs: one route per output port, fed by that
/// port's source device and fanned out to the sink device of every link
/// from it.
pub open spec fn spec_route_table(links: Seq<Link>, sources: Seq<DeviceUse>, sinks: Seq<DeviceUse>) -> Seq<
    (PortId, u64, Seq<u64>),
> {
    spec_outputs(links).map_values(
        |p: PortId| (p, device_at(sources, p)->Some_0.id, spec_destinations(links, sinks, p)),
    )
}

/// One route: its output port, its source device, its sink devices.
pub struct RouteSpec {
    pub output: PortId,
    pub source: u64,
    pub destinations: Vec<u64>,
}

pub open spec fn route_views(routes: Seq<RouteSpec>) -> Seq<(PortId, u64, Seq<u64>)> {
    routes.map_values(|r: RouteSpec| (r.output, r.source, r.destinations@))
}

proof fn lemma_outputs_distinct(links: Seq<Link>)
    ensures
        forall|i: int, j: int|
            0 <= i < j < spec_outputs(links).len() ==> spec_outputs(links)[i] != spec_outputs(links)[j],
        forall|p: PortId| spec_outputs(links).contains(p) <==> exists|k: int| 0 <= k < links.len() && links[k].output_port == p,
    decreases links.len(),
{
    if links.len() > 0 {
        let init = links.drop_last();
        lemma_outputs_distinct(init);
        let rest = spec_outputs(init);
        assert forall|p: PortId| spec_outputs(links).contains(p) <==> exists|k: int|
            0 <= k < links.len() && links[k].output_port == p by {
            if spec_outputs(links).contains(p) {
                if rest.contains(p) {
                    let k = choose|k: int| 0 <= k < init.len() && init[k].output_port == p;
                    assert(links[k] == init[k]);
                } else {
                    let i = choose|i: int| 0 <= i < spec_outputs(links).len() && spec_outputs(links)[i] == p;
                    assert(links[links.len() - 1].output_port == p);
                }
            }
            if exists|k: int| 0 <= k < links.len() && links[k].output_port == p {
                let k = choose|k: int| 0 <= k < links.len() && links[k].output_port == p;
                if k < links.len() - 1 {
                    assert(init[k] == links[k]);
                    assert(rest.contains(p));
                    if !rest.contains(links.last().output_port) {
                        let i = choose|i: int| 0 <= i < rest.len() && rest[i] == p;
                        assert(spec_outputs(links)[i] == p);
                    }
                } else {
                    if !rest.contains(p) {
                        assert(spec_outputs(links)[rest.len() as int] == p);
                    }
                }
            }
        }
    }
}

/// What stands behind an endpoint port: a recording device, a playback
/// device's monitor, or a playback device.
#[derive(Clone, Copy, Debug, PartialEq, Eq, Structural)]
pub enum EndpointPortRole {
    Capture,
    Monitor,
    Render,
}

/// How a route's source device is opened: recording from a capture
/// device, or loopback from a playback device's monitor.
#[derive(Clone, Copy, Debug, PartialEq, Eq, Structural)]
pub enum SourceOpen {
    Capture,
    Loopback,
}

pub open spec fn spec_source_open(role: EndpointPortRole) -> SourceOpen {
    match role {
        EndpointPortRole::Monitor => SourceOpen::Loopback,
        _ => SourceOpen::Capture,
    }
}

pub open spec fn spec_not_a_source() -> Seq<char> {
    "only a recording device or a playback device's monitor can be the source of a Windows audio route; capturing one application needs process loopback, which this backend does not provide"@
}

pub open spec fn spec_not_a_destination() -> Seq<char> {
    "only a playback device can be the destination of a Windows audio route; Windows exposes no supported way to re-point an application's stream"@
}

fn not_a_source() -> (m: &'static str)
    ensures
        m@ == spec_not_a_source(),
{
    "only a recording device or a playback device's monitor can be the source of a Windows audio route; capturing one application needs process loopback, which this backend does not provide"
}

fn not_a_destination() -> (m: &'static str)
    ensures
        m@ == spec_not_a_destination(),
{
    "only a playback device can be the destination of a Windows audio route; Windows exposes no supported way to re-point an application's stream"
}

/// The links this library routes on Windows and the devices they hold.
pub struct RouteBook {
    links: Vec<Link>,
    sources: Vec<DeviceUse>,
    sinks: Vec<DeviceUse>,
    next_id: u64,
}

impl RouteBook {
    /// The links, oldest first.
    pub closed spec fn owned(&self) -> Seq<Link> {
        self.links@
    }

    /// The capture or loopback devices in use, by output port.
    pub closed spec fn sources(&self) -> Seq<DeviceUse> {
        self.sources@
    }

    /// The render devices in use, by input port.
    pub closed spec fn sinks(&self) -> Seq<DeviceUse> {
        self.sinks@
    }

    /// The id the next opened device gets.
    pub closed spec fn next_device_id(&self) -> u64 {
        self.next_id
    }

    /// Link ids are distinct, and the devices match the links at both ends.
    pub closed spec fn wf(&self) -> bool {
        &&& forall|i: int, j: int| 0 <= i < j < self.links@.len() ==> self.links@[i].id != self.links@[j].id
        &&& uses_match(self.sources@, self.links@, true)
        &&& uses_match(self.sinks@, self.links@, false)
    }

    /// No links and no devices.
    pub fn new() -> (book: Self)
        ensures
            book.wf(),
            book.owned().len() == 0,
            book.sources().len() == 0,
            book.sinks().len() == 0,
            book.next_device_id() == 1,
    {
        RouteBook { links: Vec::new(), sources: Vec::new(), sinks: Vec::new(), next_id: 1 }
    }

    /// Whether a link is one of these routes.
    pub fn owns(&self, id: LinkId) -> (owned: bool)
        ensures
            owned == exists|i: int| 0 <= i < self.owned().len() && self.owned()[i].id == id,
    {
        match find_link(&self.links, id) {
            Some(i) => {
                assert(self.owned()[i as int].id == id);
                true
            },
            None => false,
        }
    }

    /// What connecting `link` needs, given the roles of the endpoint ports
    /// at its ends (`None` for a port with no device behind it, such as an
    /// application session): refused when it is already a route or an end
    /// has no device; otherwise how to open its source device and whether to
    /// open its sink device, each only when no route uses it yet, and
    /// refused when that device cannot play its part.
    pub fn connect_plan(
        &self,
        link: Link,
        output_role: Option<EndpointPortRole>,
        input_role: Option<EndpointPortRole>,
    ) -> (plan: Result<(Option<SourceOpen>, bool), BackendError>)
        requires
            self.wf(),
        ensures
            ({
                let owned = exists|i: int| 0 <= i < self.owned().len() && self.owned()[i].id == link.id;
                let source_open = device_at(self.sources(), link.output_port) is None;
                let sink_open = device_at(self.sinks(), link.input_port) is None;
                if owned {
                    plan matches Err(BackendError::Native(m)) && m@ == "that route already exists"@
                } else if output_role is None {
                    plan matches Err(BackendError::Unsupported(m)) && m@ == spec_not_a_source()
                } else if input_role is None {
                    plan matches Err(BackendError::Unsupported(m)) && m@ == spec_not_a_destination()
                } else if source_open && output_role == Some(EndpointPortRole::Render) {
                    plan matches Err(BackendError::Unsupported(m)) && m@
                        == "a playback device is not a source; drag from its monitor instead"@
                } else if sink_open && input_role != Some(EndpointPortRole::Render) {
                    plan matches Err(BackendError::Unsupported(m)) && m@
                        == "only a playback device can be the destination of a Windows audio route"@
                } else {
                    plan == Ok::<(Option<SourceOpen>, bool), BackendError>(
                        (
                            if source_open {
                                Some(spec_source_open(output_role->Some_0))
                            } else {
                                None
                            },
                            sink_open,
                        ),
                    )
                }
            }),
    {
        match find_link(&self.links, link.id) {
            Some(i) => {
                assert(self.owned()[i as int].id == link.id);
                return Err(BackendError::native("that route already exists"));
            },
            None => {},
        }
        let out_role = match output_role {
            Some(role) => role,
            None => {
                return Err(BackendError::unsupported(not_a_source()));
            },
        };
        let in_role = match input_role {
            Some(role) => role,
            None => {
                return Err(BackendError::unsupported(not_a_destination()));
            },
        };
        let source = match find_use(&self.sources, link.output_port) {
            Some(i) => {
                assert(self.sources@[i as int].port == link.output_port);
                None
            },
            None => match out_role {
                EndpointPortRole::Capture => Some(SourceOpen::Capture),
                EndpointPortRole::Monitor => Some(SourceOpen::Loopback),
                EndpointPortRole::Render => {
                    return Err(
                        BackendError::unsupported("a playback device is not a source; drag from its monitor instead"),
                    );
                },
            },
        };
        let open_sink = match find_use(&self.sinks, link.input_port) {
            Some(i) => {
                assert(self.sinks@[i as int].port == link.input_port);
                false
            },
            None => {
                match in_role {
                    EndpointPortRole::Render => {},
                    _ => {
                        return Err(
                            BackendError::unsupported(
                                "only a playback device can be the destination of a Windows audio route",
                            ),
                        );
                    },
                }
                true
            },
        };
        Ok((source, open_sink))
    }

    /// A fresh id for a device about to be opened.
    pub fn take_id(&mut self) -> (id: u64)
        requires
            old(self).next_device_id() < u64::MAX,
        ensures
            id == old(self).next_device_id(),
            final(self).next_device_id() == id + 1,
            final(self).owned() == old(self).owned(),
            final(self).sources() == old(self).sources(),
            final(self).sinks() == old(self).sinks(),
            old(self).wf() ==> final(self).wf(),
    {
        let id = self.next_id;
        self.next_id = self.next_id + 1;
        id
    }

    /// Record a route whose devices are open and whose route table is
    /// installed: the link joins the routes, and each end's device gains a
    /// user, entered with the given id where it was just opened.
    pub fn commit_connect(&mut self, link: Link, source_id: u64, sink_id: u64)
        requires
            old(self).wf(),
            forall|i: int| 0 <= i < old(self).owned().len() ==> old(self).owned()[i].id != link.id,
            old(self).owned().len() < usize::MAX,
        ensures
            final(self).wf(),
            final(self).owned() == old(self).owned().push(link),
            final(self).next_device_id() == old(self).next_device_id(),
            device_at(final(self).sources(), link.output_port) == Some(
                one_more(device_at(old(self).sources(), link.output_port), link.output_port, source_id),
            ),
            device_at(final(self).sinks(), link.input_port) == Some(
                one_more(device_at(old(self).sinks(), link.input_port), link.input_port, sink_id),
            ),
            forall|p: PortId| p != link.output_port ==> device_at(final(self).sources(), p) == device_at(
                old(self).sources(),
                p,
            ),
            forall|p: PortId| p != link.input_port ==> device_at(final(self).sinks(), p) == device_at(
                old(self).sinks(),
                p,
            ),
    {
        let ghost links = self.links@;
        add_user(&mut self.sources, link.output_port, source_id, Ghost(links), Ghost(link), Ghost(true));
        add_user(&mut self.sinks, link.input_port, sink_id, Ghost(links), Ghost(link), Ghost(false));
        self.links.push(link);
        proof {
            assert forall|i: int, j: int| 0 <= i < j < self.links@.len() implies self.links@[i].id
                != self.links@[j].id by {
                if j == links.len() {
                    assert(self.links@[i] == links[i]);
                }
            }
        }
    }

    /// Stop routing link `id`: `None` when it is not one of these routes.
    /// Otherwise the link, and the ids of the source and sink devices to
    /// close. A device is to be closed exactly when this link was its last
    /// user; otherwise it keeps one user fewer.
    pub fn disconnect(&mut self, id: LinkId) -> (result: Option<(Link, Option<u64>, Option<u64>)>)
        requires
            old(self).wf(),
        ensures
            final(self).wf(),
            final(self).next_device_id() == old(self).next_device_id(),
            match result {
                None => {
                    &&& forall|i: int| 0 <= i < old(self).owned().len() ==> old(self).owned()[i].id != id
                    &&& final(self).owned() == old(self).owned()
                    &&& final(self).sources() == old(self).sources()
                    &&& final(self).sinks() == old(self).sinks()
                },
                Some((link, close_source, close_sink)) => {
                    &&& link.id == id
                    &&& exists|k: int|
                        0 <= k < old(self).owned().len() && old(self).owned()[k] == link
                            && final(self).owned() == old(self).owned().remove(k)
                    &&& (close_source is Some) == (users_of(final(self).owned(), link.output_port, true) == 0)
                    &&& (close_source is Some) == (device_at(old(self).sources(), link.output_port)->Some_0.users
                        == 1)
                    &&& close_source is Some ==> close_source == Some(
                        device_at(old(self).sources(), link.output_port)->Some_0.id,
                    ) && device_at(final(self).sources(), link.output_port) is None
                    &&& close_source is None ==> device_at(final(self).sources(), link.output_port) == Some(
                        DeviceUse {
                            port: link.output_port,
                            id: device_at(old(self).sources(), link.output_port)->Some_0.id,
                            users: (device_at(old(self).sources(), link.output_port)->Some_0.users - 1) as usize,
                        },
                    )
                    &&& (close_sink is Some) == (users_of(final(self).owned(), link.input_port, false) == 0)
                    &&& (close_sink is Some) == (device_at(old(self).sinks(), link.input_port)->Some_0.users
                        == 1)
                    &&& close_sink is Some ==> close_sink == Some(
                        device_at(old(self).sinks(), link.input_port)->Some_0.id,
                    ) && device_at(final(self).sinks(), link.input_port) is None
                    &&& close_sink is None ==> device_at(final(self).sinks(), link.input_port) == Some(
                        DeviceUse {
                            port: link.input_port,
                            id: device_at(old(self).sinks(), link.input_port)->Some_0.id,
                            users: (device_at(old(self).sinks(), link.input_port)->Some_0.users - 1) as usize,
                        },
                    )
                    &&& forall|p: PortId| p != link.output_port ==> device_at(final(self).sources(), p)
                        == device_at(old(self).sources(), p)
                    &&& forall|p: PortId| p != link.input_port ==> device_at(final(self).sinks(), p)
                        == device_at(old(self).sinks(), p)
                    &&& final(self).sources().len() + (if close_source is Some {
                        1int
                    } else {
                        0int
                    }) == old(self).sources().len()
                    &&& final(self).sinks().len() + (if close_sink is Some {
                        1int
                    } else {
                        0int
                    }) == old(self).sinks().len()
                },
            },
    {
        let k = match find_link(&self.links, id) {
            Some(k) => k,
            None => {
                return None;
            },
        };
        let ghost links = self.links@;
        let link = self.links[k];
        let close_source = drop_user(&mut self.sources, link.output_port, Ghost(links), Ghost(k as int), Ghost(true));
        let close_sink = drop_user(&mut self.sinks, link.input_port, Ghost(links), Ghost(k as int), Ghost(false));
        self.links.remove(k);
        proof {
            assert(links[k as int] == link && self.links@ == links.remove(k as int));
            assert(forall|m: int| 0 <= m < self.links@.len() ==> self.links@[m] == links[if m < k { m } else { m + 1 }]);
            assert forall|i: int, j: int| 0 <= i < j < self.links@.len() implies self.links@[i].id
                != self.links@[j].id by {
                assert(self.links@[i] == links[if i < k { i } else { i + 1 }]);
                assert(self.links@[j] == links[if j < k { j } else { j + 1 }]);
            }
        }
        assert(0 <= k < old(self).owned().len() && old(self).owned()[k as int] == link && self.owned()
            == old(self).owned().remove(k as int));
        Some((link, close_source, close_sink))
    }

    /// Forget every route with an end at a port that no longer exists, as
    /// after a device was unplugged: the links dropped, oldest first, and
    /// the ids of the devices to close, each once its last route is gone.
    pub fn reconcile(&mut self, live_ports: &[PortId]) -> (dropped: (Vec<Link>, Vec<u64>, Vec<u64>))
        requires
            old(self).wf(),
        ensures
            final(self).wf(),
            final(self).next_device_id() == old(self).next_device_id(),
            final(self).owned() == old(self).owned().filter(
                |l: Link| live_ports@.contains(l.output_port) && live_ports@.contains(l.input_port),
            ),
            dropped.0@ == old(self).owned().filter(
                |l: Link| !(live_ports@.contains(l.output_port) && live_ports@.contains(l.input_port)),
            ),
            dropped.1@.len() + final(self).sources().len() == old(self).sources().len(),
            dropped.2@.len() + final(self).sinks().len() == old(self).sinks().len(),
    {
        let ghost keep = |l: Link| live_ports@.contains(l.output_port) && live_ports@.contains(l.input_port);
        let ghost gone = |l: Link| !(live_ports@.contains(l.output_port) && live_ports@.contains(l.input_port));
        let ghost original = self.links@;
        let mut dropped: Vec<Link> = Vec::new();
        let mut closed_sources: Vec<u64> = Vec::new();
        let mut closed_sinks: Vec<u64> = Vec::new();
        let mut i: usize = 0;
        assert(original.subrange(0, 0) =~= Seq::<Link>::empty());
        while i < self.links.len()
            invariant
                self.wf(),
                self.next_id == old(self).next_id,
                i <= self.links@.len(),
                keep == (|l: Link| live_ports@.contains(l.output_port) && live_ports@.contains(l.input_port)),
                gone == (|l: Link| !(live_ports@.contains(l.output_port) && live_ports@.contains(l.input_port))),
                i + dropped@.len() <= original.len(),
                self.links@.subrange(0, i as int) == original.subrange(0, (i + dropped@.len()) as int).filter(keep),
                self.links@.subrange(i as int, self.links@.len() as int) == original.subrange(
                    (i + dropped@.len()) as int,
                    original.len() as int,
                ),
                dropped@ == original.subrange(0, (i + dropped@.len()) as int).filter(gone),
                closed_sources@.len() + self.sources@.len() == old(self).sources@.len(),
                closed_sinks@.len() + self.sinks@.len() == old(self).sinks@.len(),
            decreases self.links@.len() - i,
        {
            let link = self.links[i];
            let ghost pos = (i + dropped@.len()) as int;
            let ghost before = self.links@;
            let ghost tail = before.subrange(i as int, before.len() as int);
            proof {
                assert(tail == original.subrange(pos, original.len() as int));
                assert(tail.len() == original.len() - pos);
                assert(tail[0] == before[i as int]);
                assert(tail[0] == original[pos]);
                assert(original.subrange(0, pos + 1) =~= original.subrange(0, pos).push(original[pos]));
                original.subrange(0, pos).lemma_filter_push(original[pos], keep);
                original.subrange(0, pos).lemma_filter_push(original[pos], gone);
            }
            if contains_port(live_ports, link.output_port) && contains_port(live_ports, link.input_port) {
                proof {
                    assert(before.subrange(0, i + 1) =~= before.subrange(0, i as int).push(link));
                    assert(before.subrange(i + 1, before.len() as int) =~= tail.subrange(1, tail.len() as int));
                    assert(original.subrange(pos + 1, original.len() as int) =~= original.subrange(
                        pos,
                        original.len() as int,
                    ).subrange(1, tail.len() as int));
                }
                i = i + 1;
            } else {
                let removed = self.disconnect(link.id);
                proof {
                    assert(before[i as int] == link);
                    assert(removed is Some);
                    let (l, _, _) = removed->Some_0;
                    let k = choose|k: int| 0 <= k < before.len() && before[k] == l && self.links@ == before.remove(k);
                    assert(before[k].id == before[i as int].id);
                    assert(k == i);
                    assert(self.links@.subrange(0, i as int) =~= before.subrange(0, i as int));
                    assert(self.links@.subrange(i as int, self.links@.len() as int) =~= tail.subrange(1, tail.len() as int));
                    assert(original.subrange(pos + 1, original.len() as int) =~= original.subrange(
                        pos,
                        original.len() as int,
                    ).subrange(1, tail.len() as int));
                }
                match removed {
                    Some((l, close_source, close_sink)) => {
                        dropped.push(l);
                        match close_source {
                            Some(d) => closed_sources.push(d),
                            None => {},
                        }
                        match close_sink {
                            Some(d) => closed_sinks.push(d),
                            None => {},
                        }
                    },
                    None => {},
                }
            }
        }
        proof {
            assert(self.links@.subrange(0, i as int) =~= self.links@);
            assert(original.subrange(0, original.len() as int) =~= original);
        }
        (dropped, closed_sources, closed_sinks)
    }

    /// The route table to install: one route per output port, in the order
    /// the ports first occur among the links, each fanned out to the sink
    /// device of every link from that port.
    pub fn route_table(&self) -> (routes: Vec<RouteSpec>)
        requires
            self.wf(),
        ensures
            route_views(routes@) == spec_route_table(self.owned(), self.sources(), self.sinks()),
    {
        let mut routes: Vec<RouteSpec> = Vec::new();
        let mut i: usize = 0;
        assert(self.links@.subrange(0, 0) =~= Seq::<Link>::empty());
        assert(route_views(routes@) =~= spec_route_table(self.links@.subrange(0, 0), self.sources@, self.sinks@));
        while i < self.links.len()
            invariant
                self.wf(),
                i <= self.links@.len(),
                route_views(routes@) == spec_route_table(self.links@.subrange(0, i as int), self.sources@, self.sinks@),
            decreases self.links@.len() - i,
        {
            let link = self.links[i];
            let ghost prefix = self.links@.subrange(0, i as int);
            let ghost next = self.links@.subrange(0, i + 1);
            let ghost before = routes@;
            proof {
                assert(next =~= prefix.push(link));
                assert(next.drop_last() =~= prefix);
                lemma_outputs_distinct(prefix);
                assert(self.links@[i as int] == link);
            }
            let sink = match find_use(&self.sinks, link.input_port) {
                Some(j) => {
                    proof {
                        lemma_device_at(self.sinks@, j as int);
                    }
                    self.sinks[j].id
                },
                None => {
                    proof {
                        let j = choose|j: int| 0 <= j < self.sinks@.len() && (#[trigger] self.sinks@[j]).port == end_of(
                            self.links@[i as int],
                            false,
                        );
                    }
                    return routes;
                },
            };
            proof {
                assert forall|q: PortId| #[trigger] spec_destinations(next, self.sinks@, q) == if q == link.output_port {
                    spec_destinations(prefix, self.sinks@, q).push(sink)
                } else {
                    spec_destinations(prefix, self.sinks@, q)
                } by {
                    prefix.lemma_filter_push(link, end_at(q, true));
                    if q == link.output_port {
                        assert(prefix.filter(end_at(q, true)).push(link).map_values(
                            |l: Link| device_at(self.sinks@, l.input_port)->Some_0.id,
                        ) =~= prefix.filter(end_at(q, true)).map_values(
                            |l: Link| device_at(self.sinks@, l.input_port)->Some_0.id,
                        ).push(sink));
                    }
                }
            }
            let mut r: usize = 0;
            while r < routes.len()
                invariant
                    r <= routes@.len(),
                    forall|m: int| 0 <= m < r ==> routes@[m].output != link.output_port,
                ensures
                    r <= routes@.len(),
                    forall|m: int| 0 <= m < r ==> routes@[m].output != link.output_port,
                    r < routes@.len() ==> routes@[r as int].output == link.output_port,
                decreases routes@.len() - r,
            {
                if routes[r].output == link.output_port {
                    break;
                }
                r = r + 1;
            }
            if r < routes.len() && routes[r].output == link.output_port {
                let mut dests: Vec<u64> = Vec::new();
                let mut j: usize = 0;
                while j < routes[r].destinations.len()
                    invariant
                        r < routes@.len(),
                        routes@ == before,
                        j <= routes@[r as int].destinations@.len(),
                        dests@ == routes@[r as int].destinations@.subrange(0, j as int),
                    decreases routes@[r as int].destinations@.len() - j,
                {
                    dests.push(routes[r].destinations[j]);
                    j = j + 1;
                    assert(dests@ =~= routes@[r as int].destinations@.subrange(0, j as int));
                }
                assert(dests@ =~= before[r as int].destinations@);
                dests.push(sink);
                let updated = RouteSpec { output: routes[r].output, source: routes[r].source, destinations: dests };
                routes.set(r, updated);
                proof {
                    let outs = spec_outputs(prefix);
                    assert(route_views(before).len() == outs.len());
                    assert(route_views(before)[r as int].0 == before[r as int].output);
                    assert(spec_route_table(prefix, self.sources@, self.sinks@)[r as int].0 == outs[r as int]);
                    assert(outs[r as int] == link.output_port);
                    assert(outs.contains(link.output_port));
                    assert(spec_outputs(next) == outs);
                    let t0 = spec_route_table(prefix, self.sources@, self.sinks@);
                    let t1 = spec_route_table(next, self.sources@, self.sinks@);
                    assert forall|m: int| 0 <= m < t1.len() implies route_views(routes@)[m] == t1[m] by {
                        assert(t0[m] == route_views(before)[m]);
                        if m == r {
                            assert(route_views(routes@)[m] == (updated.output, updated.source, updated.destinations@));
                        } else {
                            assert(outs[m] != outs[r as int]);
                            assert(routes@[m] == before[m]);
                        }
                    }
                    assert(route_views(routes@) =~= t1);
                }
            } else {
                proof {
                    assert(forall|m: int| 0 <= m < routes@.len() ==> routes@[m].output != link.output_port);
                    assert(routes@ == before);
                    assert(forall|m: int| 0 <= m < before.len() ==> before[m].output != link.output_port);
                }
                let source = match find_use(&self.sources, link.output_port) {
                    Some(j) => {
                        proof {
                            lemma_device_at(self.sources@, j as int);
                        }
                        self.sources[j].id
                    },
                    None => {
                        proof {
                            let j = choose|j: int| 0 <= j < self.sources@.len() && (#[trigger] self.sources@[j]).port
                                == end_of(self.links@[i as int], true);
                        }
                        return routes;
                    },
                };
                let mut dests: Vec<u64> = Vec::new();
                dests.push(sink);
                routes.push(RouteSpec { output: link.output_port, source, destinations: dests });
                proof {
                    let outs = spec_outputs(prefix);
                    let t0 = spec_route_table(prefix, self.sources@, self.sinks@);
                    assert(t0.len() == outs.len());
                    assert(!outs.contains(link.output_port)) by {
                        if outs.contains(link.output_port) {
                            let m = choose|m: int| 0 <= m < outs.len() && outs[m] == link.output_port;
                            assert(t0[m].0 == outs[m]);
                            assert(route_views(before)[m].0 == before[m].output);
                        }
                    }
                    assert(spec_outputs(next) == outs.push(link.output_port));
                    assert(prefix.filter(end_at(link.output_port, true)).len() == 0) by {
                        if prefix.filter(end_at(link.output_port, true)).len() > 0 {
                            let x = prefix.filter(end_at(link.output_port, true))[0];
                            prefix.lemma_filter_pred(end_at(link.output_port, true), 0);
                            prefix.lemma_filter_contains_rev(end_at(link.output_port, true), x);
                            let k = choose|k: int| 0 <= k < prefix.len() && prefix[k] == x;
                        }
                    }
                    assert(spec_destinations(prefix, self.sinks@, link.output_port) =~= Seq::<u64>::empty());
                    let t1 = spec_route_table(next, self.sources@, self.sinks@);
                    assert(t1.len() == outs.len() + 1);
                    assert forall|m: int| 0 <= m < t1.len() implies route_views(routes@)[m] == t1[m] by {
                        if m < outs.len() {
                            assert(t0[m] == route_views(before)[m]);
                            assert(routes@[m] == before[m]);
                            assert(spec_outputs(next)[m] == outs[m]);
                            assert(outs[m] != link.output_port);
                        } else {
                            assert(spec_outputs(next)[m] == link.output_port);
                            assert(routes@[m].destinations@ =~= seq![sink]);
                            assert(spec_destinations(prefix, self.sinks@, link.output_port).push(sink) =~= seq![sink]);
                        }
                    }
                    assert(route_views(routes@) =~= t1);
                }
            }
            i = i + 1;
        }
        assert(self.links@.subrange(0, self.links@.len() as int) =~= self.links@);
        routes
    }
}


/// A device is open exactly while some route uses it, at either end.
pub proof fn lemma_device_open_iff_used(book: &RouteBook, port: PortId)
    requires
        book.wf(),
    ensures
        (device_at(book.sources(), port) is Some) == (users_of(book.owned(), port, true) > 0),
        (device_at(book.sinks(), port) is Some) == (users_of(book.owned(), port, false) > 0),
{
    lemma_open_iff_used(book.sources(), book.owned(), port, true);
    lemma_open_iff_used(book.sinks(), book.owned(), port, false);
}

proof fn lemma_open_iff_used(uses: Seq<DeviceUse>, links: Seq<Link>, port: PortId, out: bool)
    requires
        uses_match(uses, links, out),
    ensures
        (device_at(uses, port) is Some) == (users_of(links, port, out) > 0),
{
    if device_at(uses, port) is Some {
        let i = choose|i: int| 0 <= i < uses.len() && uses[i].port == port;
        assert(uses[i].users > 0);
    }
    if users_of(links, port, out) > 0 {
        let x = links.filter(end_at(port, out))[0];
        links.lemma_filter_pred(end_at(port, out), 0);
        links.lemma_filter_contains_rev(end_at(port, out), x);
        let k = choose|k: int| 0 <= k < links.len() && links[k] == x;
        let j = choose|j: int| 0 <= j < uses.len() && (#[trigger] uses[j]).port == end_of(links[k], out);
        assert(uses[j].port == port);
    }
}

} // verus!
