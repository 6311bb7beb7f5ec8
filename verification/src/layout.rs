//! The default arrangement of nodes on the canvas.
//!
//! Nodes are grouped by media (audio, video, MIDI, other) into bands from
//! top to bottom, and within a band by role into three columns: sources on
//! the left, nodes with both or neither direction in the middle, sinks on
//! the right. A column lists its nodes by lower-cased name, then id, each
//! below the previous one by its height plus a gap. Coordinates are whole
//! logical pixels; a caller that draws with floats converts them.

use vstd::prelude::*;
use crate::graph::{Direction, Graph, Node, PortType};
use crate::ids::NodeId;
use crate::text::{
    chars_before, chars_eq, lemma_name_before_irreflexive, lemma_name_before_transitive, lower,
    lowered, name_before,
};

verus! {

/// Whether one of the node's ports exists in the graph with this media type.
pub open spec fn spec_has_type(g: &Graph, node: Node, port_type: PortType) -> bool {
    exists|i: int|
        0 <= i < node.ports@.len() && g.ports@.contains_key(#[trigger] node.ports@[i].0)
            && g.ports@[node.ports@[i].0].port_type == port_type
}

/// Whether one of the node's ports exists in the graph with this direction.
pub open spec fn spec_has_direction(g: &Graph, node: Node, direction: Direction) -> bool {
    exists|i: int|
        0 <= i < node.ports@.len() && g.ports@.contains_key(#[trigger] node.ports@[i].0)
            && g.ports@[node.ports@[i].0].direction == direction
}

/// The band of a node: 0 audio, 1 video, 2 MIDI, 3 anything else; a node
/// with several media goes to the first.
pub open spec fn spec_media_category(g: &Graph, node: Node) -> u8 {
    if spec_has_type(g, node, PortType::Audio) {
        0
    } else if spec_has_type(g, node, PortType::Video) {
        1
    } else if spec_has_type(g, node, PortType::MidiJack) || spec_has_type(g, node, PortType::MidiAlsa) {
        2
    } else {
        3
    }
}

/// The column of a node: 0 only sources, 2 only sinks, 1 otherwise.
pub open spec fn spec_layout_role(g: &Graph, node: Node) -> u8 {
    let source = spec_has_direction(g, node, Direction::Source);
    let sink = spec_has_direction(g, node, Direction::Sink);
    if source && !sink {
        0
    } else if !source && sink {
        2
    } else {
        1
    }
}

/// The media band of a node.
pub fn node_media_category(graph: &Graph, node: &Node) -> (category: u8)
    ensures
        category == spec_media_category(graph, *node),
{
    let mut audio = false;
    let mut video = false;
    let mut midi = false;
    let mut i: usize = 0;
    while i < node.ports.len()
        invariant
            i <= node.ports@.len(),
            audio == exists|j: int|
                0 <= j < i && graph.ports@.contains_key(#[trigger] node.ports@[j].0)
                    && graph.ports@[node.ports@[j].0].port_type == PortType::Audio,
            video == exists|j: int|
                0 <= j < i && graph.ports@.contains_key(#[trigger] node.ports@[j].0)
                    && graph.ports@[node.ports@[j].0].port_type == PortType::Video,
            midi == exists|j: int|
                0 <= j < i && graph.ports@.contains_key(#[trigger] node.ports@[j].0) && (
                graph.ports@[node.ports@[j].0].port_type == PortType::MidiJack
                    || graph.ports@[node.ports@[j].0].port_type == PortType::MidiAlsa),
        decreases node.ports@.len() - i,
    {
        match graph.port(node.ports[i]) {
            Some(port) => {
                match port.port_type {
                    PortType::Audio => {
                        audio = true;
                    },
                    PortType::Video => {
                        video = true;
                    },
                    PortType::MidiJack => {
                        midi = true;
                    },
                    PortType::MidiAlsa => {
                        midi = true;
                    },
                    PortType::Unknown => {},
                }
            },
            None => {},
        }
        i = i + 1;
    }
    proof {
        if midi {
            let j = choose|j: int|
                0 <= j < node.ports@.len() && graph.ports@.contains_key(#[trigger] node.ports@[j].0) && (
                graph.ports@[node.ports@[j].0].port_type == PortType::MidiJack
                    || graph.ports@[node.ports@[j].0].port_type == PortType::MidiAlsa);
            if graph.ports@[node.ports@[j].0].port_type == PortType::MidiJack {
                assert(spec_has_type(graph, *node, PortType::MidiJack));
            } else {
                assert(spec_has_type(graph, *node, PortType::MidiAlsa));
            }
        }
    }
    if audio {
        0
    } else if video {
        1
    } else if midi {
        2
    } else {
        3
    }
}

/// The column of a node.
pub fn node_layout_role(graph: &Graph, node: &Node) -> (role: u8)
    ensures
        role == spec_layout_role(graph, *node),
{
    let mut source = false;
    let mut sink = false;
    let mut i: usize = 0;
    while i < node.ports.len()
        invariant
            i <= node.ports@.len(),
            source == exists|j: int|
                0 <= j < i && graph.ports@.contains_key(#[trigger] node.ports@[j].0)
                    && graph.ports@[node.ports@[j].0].direction == Direction::Source,
            sink == exists|j: int|
                0 <= j < i && graph.ports@.contains_key(#[trigger] node.ports@[j].0)
                    && graph.ports@[node.ports@[j].0].direction == Direction::Sink,
        decreases node.ports@.len() - i,
    {
        match graph.port(node.ports[i]) {
            Some(port) => {
                match port.direction {
                    Direction::Source => {
                        source = true;
                    },
                    Direction::Sink => {
                        sink = true;
                    },
                }
            },
            None => {},
        }
        i = i + 1;
    }
    if source && !sink {
        0
    } else if !source && sink {
        2
    } else {
        1
    }
}

/// Whether node `a` is listed above node `b` of the same column: by
/// lower-cased name, then by id.
pub open spec fn listed_before(a: Node, b: Node) -> bool {
    let na = lower(a.name@);
    let nb = lower(b.name@);
    name_before(na, nb) || (na == nb && a.id.0 < b.id.0)
}

/// The vertical room a node takes in its column: its height (a header of 48
/// plus 25 per port, at least 62) and a gap of 70.
pub open spec fn spec_step(port_count: nat) -> int {
    (if 48 + 25 * port_count > 62 { 48 + 25 * port_count } else { 62 }) as int + 70
}

/// A non-negative value, or `u64::MAX` where it does not fit.
pub open spec fn saturate(v: int) -> u64 {
    if v > u64::MAX { u64::MAX } else { v as u64 }
}

/// Whether two nodes share a band and a column.
pub open spec fn same_column(g: &Graph, a: Node, b: Node) -> bool {
    spec_media_category(g, a) == spec_media_category(g, b) && spec_layout_role(g, a)
        == spec_layout_role(g, b)
}

/// The room taken by the nodes of `nodes` listed above `node` in its column.
pub open spec fn room_above(g: &Graph, nodes: Seq<Node>, node: Node) -> int
    decreases nodes.len(),
{
    if nodes.len() == 0 {
        0
    } else {
        let m = nodes.last();
        room_above(g, nodes.drop_last(), node) + if same_column(g, m, node) && listed_before(
            m,
            node,
        ) {
            spec_step(m.ports@.len())
        } else {
            0
        }
    }
}

/// The room taken by all nodes of `nodes` in the column `role` of band `category`.
pub open spec fn column_room(g: &Graph, nodes: Seq<Node>, category: u8, role: u8) -> int
    decreases nodes.len(),
{
    if nodes.len() == 0 {
        0
    } else {
        let m = nodes.last();
        column_room(g, nodes.drop_last(), category, role) + if spec_media_category(g, m)
            == category && spec_layout_role(g, m) == role {
            spec_step(m.ports@.len())
        } else {
            0
        }
    }
}

/// The height of a band: that of its tallest column; zero when the band holds no node.
pub open spec fn band_room(g: &Graph, nodes: Seq<Node>, category: u8) -> int {
    let a = column_room(g, nodes, category, 0);
    let b = column_room(g, nodes, category, 1);
    let c = column_room(g, nodes, category, 2);
    if a >= b && a >= c {
        a
    } else if b >= c {
        b
    } else {
        c
    }
}

/// The top of a band: 40 for the first, and each band that holds a node
/// pushes those after it down by its height and a gap of 100.
pub open spec fn band_top(g: &Graph, nodes: Seq<Node>, category: nat) -> int
    decreases category,
{
    if category == 0 {
        40
    } else {
        let prev = (category - 1) as u8;
        band_top(g, nodes, (category - 1) as nat) + if band_room(g, nodes, prev) > 0 {
            band_room(g, nodes, prev) + 100
        } else {
            0
        }
    }
}

/// The left edge of a node's column.
pub open spec fn spec_x(g: &Graph, node: Node) -> int {
    40 + 320 * spec_layout_role(g, node)
}

/// The top edge of a node: its band's top and the room of those above it.
pub open spec fn spec_y(g: &Graph, nodes: Seq<Node>, node: Node) -> int {
    band_top(g, nodes, spec_media_category(g, node) as nat) + room_above(g, nodes, node)
}

/// Where a node is drawn, in whole logical pixels.
#[derive(Clone, Copy, Debug, PartialEq, Eq, Structural)]
pub struct NodePosition {
    pub node: NodeId,
    pub x: u64,
    pub y: u64,
}

proof fn lemma_listed_before_transitive(a: Node, b: Node, c: Node)
    requires
        listed_before(a, b),
        listed_before(b, c),
    ensures
        listed_before(a, c),
{
    let (na, nb, nc) = (lower(a.name@), lower(b.name@), lower(c.name@));
    if name_before(na, nb) && name_before(nb, nc) {
        lemma_name_before_transitive(na, nb, nc);
    }
}

/// Whatever is counted above a node is counted in its column.
proof fn lemma_room_above_within_column(g: &Graph, nodes: Seq<Node>, node: Node)
    ensures
        room_above(g, nodes, node) <= column_room(
            g,
            nodes,
            spec_media_category(g, node),
            spec_layout_role(g, node),
        ),
    decreases nodes.len(),
{
    if nodes.len() > 0 {
        lemma_room_above_within_column(g, nodes.drop_last(), node);
    }
}

/// A node of the sequence fits in its column below what is counted above it.
proof fn lemma_node_within_column(g: &Graph, nodes: Seq<Node>, node: Node)
    requires
        nodes.contains(node),
    ensures
        room_above(g, nodes, node) + spec_step(node.ports@.len()) <= column_room(
            g,
            nodes,
            spec_media_category(g, node),
            spec_layout_role(g, node),
        ),
    decreases nodes.len(),
{
    let prefix = nodes.drop_last();
    if nodes.last() == node {
        lemma_name_before_irreflexive(lower(node.name@));
        lemma_room_above_within_column(g, prefix, node);
    } else {
        let i = choose|i: int| 0 <= i < nodes.len() && nodes[i] == node;
        assert(prefix[i] == node);
        lemma_node_within_column(g, prefix, node);
    }
}

/// Counting above a later node of the same column counts at least as much.
proof fn lemma_room_above_monotone(g: &Graph, nodes: Seq<Node>, a: Node, b: Node)
    requires
        same_column(g, a, b),
        listed_before(a, b),
    ensures
        room_above(g, nodes, a) <= room_above(g, nodes, b),
        nodes.contains(a) ==> room_above(g, nodes, a) + spec_step(a.ports@.len()) <= room_above(
            g,
            nodes,
            b,
        ),
    decreases nodes.len(),
{
    if nodes.len() > 0 {
        let prefix = nodes.drop_last();
        let m = nodes.last();
        lemma_room_above_monotone(g, prefix, a, b);
        if listed_before(m, a) {
            lemma_listed_before_transitive(m, a, b);
        }
        lemma_room_above_nonneg(g, prefix, a);
        if nodes.contains(a) {
            if m == a {
                lemma_name_before_irreflexive(lower(a.name@));
            } else {
                let i = choose|i: int| 0 <= i < nodes.len() && nodes[i] == a;
                assert(prefix[i] == a);
            }
        }
    }
}

/// A band that holds a node is as tall as that node's column.
proof fn lemma_column_within_band(g: &Graph, nodes: Seq<Node>, category: u8, role: u8)
    requires
        role < 3,
    ensures
        column_room(g, nodes, category, role) <= band_room(g, nodes, category),
{
}

/// Later bands start no higher than the end of earlier ones.
proof fn lemma_band_top_monotone(g: &Graph, nodes: Seq<Node>, lo: nat, hi: nat)
    requires
        lo < hi <= 4,
    ensures
        band_top(g, nodes, hi) >= band_top(g, nodes, lo) + if band_room(g, nodes, lo as u8) > 0 {
            band_room(g, nodes, lo as u8) + 100
        } else {
            0
        },
    decreases hi - lo,
{
    if hi > lo + 1 {
        lemma_band_top_monotone(g, nodes, lo, (hi - 1) as nat);
        lemma_column_room_nonneg(g, nodes, (hi - 1) as u8, 0);
    }
}

/// Columns do not overlap: in a column, a node listed above another ends,
/// with its gap, no lower than the other begins.
pub proof fn lemma_column_nodes_do_not_overlap(g: &Graph, a: Node, b: Node)
    requires
        g.nodes.entries().contains(a),
        same_column(g, a, b),
        listed_before(a, b),
    ensures
        spec_y(g, g.nodes.entries(), a) + spec_step(a.ports@.len()) <= spec_y(
            g,
            g.nodes.entries(),
            b,
        ),
        spec_x(g, a) == spec_x(g, b),
{
    lemma_room_above_monotone(g, g.nodes.entries(), a, b);
}

/// Bands do not overlap: every node of an earlier band ends, with its gap
/// and the gap of 100 between bands, no lower than any node of a later band begins.
pub proof fn lemma_bands_do_not_overlap(g: &Graph, a: Node, b: Node)
    requires
        g.nodes.entries().contains(a),
        spec_media_category(g, a) < spec_media_category(g, b),
    ensures
        spec_y(g, g.nodes.entries(), a) + spec_step(a.ports@.len()) + 100 <= spec_y(
            g,
            g.nodes.entries(),
            b,
        ),
{
    let nodes = g.nodes.entries();
    let ca = spec_media_category(g, a);
    let ra = spec_layout_role(g, a);
    lemma_node_within_column(g, nodes, a);
    lemma_column_within_band(g, nodes, ca, ra);
    lemma_room_above_nonneg(g, nodes, a);
    lemma_band_top_monotone(g, nodes, ca as nat, spec_media_category(g, b) as nat);
    lemma_room_above_nonneg(g, nodes, b);
}

/// The room a node with this many ports takes in its column.
pub fn column_step(port_count: usize) -> (step: u64)
    ensures
        step == saturate(spec_step(port_count as nat)),
{
    if port_count == 0 {
        132
    } else if port_count as u64 > 737869762948382059 {
        u64::MAX
    } else {
        118 + 25 * (port_count as u64)
    }
}

proof fn lemma_column_room_nonneg(g: &Graph, nodes: Seq<Node>, category: u8, role: u8)
    ensures
        column_room(g, nodes, category, role) >= 0,
    decreases nodes.len(),
{
    if nodes.len() > 0 {
        lemma_column_room_nonneg(g, nodes.drop_last(), category, role);
    }
}

proof fn lemma_room_above_nonneg(g: &Graph, nodes: Seq<Node>, node: Node)
    ensures
        room_above(g, nodes, node) >= 0,
    decreases nodes.len(),
{
    if nodes.len() > 0 {
        lemma_room_above_nonneg(g, nodes.drop_last(), node);
    }
}

proof fn lemma_band_top_positive(g: &Graph, nodes: Seq<Node>, category: nat)
    ensures
        band_top(g, nodes, category) >= 40,
    decreases category,
{
    if category > 0 {
        lemma_band_top_positive(g, nodes, (category - 1) as nat);
    }
}

impl Graph {
    /// A first arrangement for a graph with no saved positions, one entry per
    /// node in id order. Bands of media run from top to bottom and columns of
    /// direction from left to right: sources, then mixed, then sinks.
    pub fn default_node_positions(&self) -> (positions: Vec<NodePosition>)
        ensures
            positions@.len() == self.nodes.entries().len(),
            forall|i: int|
                0 <= i < positions@.len() ==> {
                    let node = self.nodes.entries()[i];
                    &&& (#[trigger] positions@[i]).node == node.id
                    &&& positions@[i].x == spec_x(self, node)
                    &&& positions@[i].y == saturate(spec_y(self, self.nodes.entries(), node))
                },
    {
        let nodes = self.nodes.values();
        let ghost all = nodes@;
        let n = nodes.len();
        let mut cats: Vec<u8> = Vec::new();
        let mut roles: Vec<u8> = Vec::new();
        let mut names: Vec<Vec<char>> = Vec::new();
        let mut steps: Vec<u64> = Vec::new();
        let mut i: usize = 0;
        while i < n
            invariant
                n == all.len(),
                nodes@ == all,
                i <= n,
                cats@.len() == i,
                roles@.len() == i,
                names@.len() == i,
                steps@.len() == i,
                forall|j: int|
                    0 <= j < i ==> {
                        &&& #[trigger] cats@[j] == spec_media_category(self, all[j])
                        &&& roles@[j] == spec_layout_role(self, all[j])
                        &&& names@[j]@ == lower(all[j].name@)
                        &&& steps@[j] == saturate(spec_step(all[j].ports@.len()))
                    },
            decreases n - i,
        {
            let node = &nodes[i];
            cats.push(node_media_category(self, node));
            roles.push(node_layout_role(self, node));
            names.push(lowered(node.name.as_str()));
            steps.push(column_step(node.ports.len()));
            i = i + 1;
        }
        // The room of each column, at index band * 3 + column.
        let mut rooms: Vec<u64> = Vec::new();
        let mut k: usize = 0;
        while k < 12
            invariant
                k <= 12,
                rooms@.len() == k,
                forall|j: int| 0 <= j < k ==> rooms@[j] == 0,
            decreases 12 - k,
        {
            rooms.push(0);
            k = k + 1;
        }
        assert(all.take(0) =~= Seq::<Node>::empty());
        i = 0;
        while i < n
            invariant
                n == all.len(),
                nodes@ == all,
                i <= n,
                cats@.len() == n,
                roles@.len() == n,
                steps@.len() == n,
                forall|j: int|
                    0 <= j < n ==> {
                        &&& #[trigger] cats@[j] == spec_media_category(self, all[j])
                        &&& roles@[j] == spec_layout_role(self, all[j])
                        &&& steps@[j] == saturate(spec_step(all[j].ports@.len()))
                    },
                rooms@.len() == 12,
                forall|c: u8, r: u8|
                    c < 4 && r < 3 ==> rooms@[c * 3 + r] == saturate(
                        #[trigger] column_room(self, all.take(i as int), c, r),
                    ),
            decreases n - i,
        {
            assert(cats@[i as int] == spec_media_category(self, all[i as int]));
            let c = cats[i];
            let r = roles[i];
            assert(c < 4 && r < 3);
            let slot = (c as usize) * 3 + (r as usize);
            let total = rooms[slot].saturating_add(steps[i]);
            rooms.set(slot, total);
            proof {
                let before = all.take(i as int);
                let after = all.take(i + 1);
                assert(after.drop_last() =~= before);
                assert(after.last() == all[i as int]);
                assert forall|c2: u8, r2: u8| c2 < 4 && r2 < 3 implies rooms@[c2 * 3 + r2]
                    == saturate(#[trigger] column_room(self, after, c2, r2)) by {
                    lemma_column_room_nonneg(self, before, c2, r2);
                    if c2 == c && r2 == r {
                        assert(c2 * 3 + r2 == slot);
                    } else {
                        assert(c2 * 3 + r2 != slot);
                        assert(column_room(self, before, c2, r2) >= 0);
                    }
                }
            }
            i = i + 1;
        }
        assert(all.take(n as int) =~= all);
        // The top of each band.
        let mut tops: Vec<u64> = Vec::new();
        tops.push(40);
        let mut c: u8 = 0;
        while c < 4
            invariant
                c <= 4,
                tops@.len() == c + 1,
                rooms@.len() == 12,
                forall|c2: u8, r: u8|
                    c2 < 4 && r < 3 ==> rooms@[c2 * 3 + r] == saturate(
                        #[trigger] column_room(self, all, c2, r),
                    ),
                forall|j: int| 0 <= j <= c ==> #[trigger] tops@[j] == saturate(band_top(self, all, j as nat)),
            decreases 4 - c,
        {
            let base = (c as usize) * 3;
            let a = rooms[base];
            let b = rooms[base + 1];
            let d = rooms[base + 2];
            let widest = if a >= b && a >= d {
                a
            } else if b >= d {
                b
            } else {
                d
            };
            let top = tops[c as usize];
            let next = if widest > 0 {
                top.saturating_add(widest).saturating_add(100)
            } else {
                top
            };
            proof {
                assert(rooms@[c * 3 + 0] == saturate(column_room(self, all, c, 0)));
                assert(rooms@[c * 3 + 1] == saturate(column_room(self, all, c, 1)));
                assert(rooms@[c * 3 + 2] == saturate(column_room(self, all, c, 2)));
                lemma_column_room_nonneg(self, all, c, 0);
                lemma_column_room_nonneg(self, all, c, 1);
                lemma_column_room_nonneg(self, all, c, 2);
                lemma_band_top_positive(self, all, c as nat);
                assert(widest == saturate(band_room(self, all, c)));
                assert(tops@[c as int] == saturate(band_top(self, all, c as nat)));
            }
            tops.push(next);
            c = c + 1;
        }
        let mut positions: Vec<NodePosition> = Vec::new();
        i = 0;
        while i < n
            invariant
                n == all.len(),
                nodes@ == all,
                i <= n,
                all == self.nodes.entries(),
                cats@.len() == n,
                roles@.len() == n,
                names@.len() == n,
                steps@.len() == n,
                forall|j: int|
                    0 <= j < n ==> {
                        &&& #[trigger] cats@[j] == spec_media_category(self, all[j])
                        &&& roles@[j] == spec_layout_role(self, all[j])
                        &&& names@[j]@ == lower(all[j].name@)
                        &&& steps@[j] == saturate(spec_step(all[j].ports@.len()))
                    },
                tops@.len() == 5,
                forall|j: int| 0 <= j <= 4 ==> #[trigger] tops@[j] == saturate(band_top(self, all, j as nat)),
                positions@.len() == i,
                forall|j: int|
                    0 <= j < i ==> {
                        &&& (#[trigger] positions@[j]).node == all[j].id
                        &&& positions@[j].x == spec_x(self, all[j])
                        &&& positions@[j].y == saturate(spec_y(self, all, all[j]))
                    },
            decreases n - i,
        {
            let ghost node = all[i as int];
            assert(cats@[i as int] == spec_media_category(self, node));
            let mut above: u64 = 0;
            let mut j: usize = 0;
            assert(all.take(0) =~= Seq::<Node>::empty());
            while j < n
                invariant
                    n == all.len(),
                    nodes@ == all,
                    i < n,
                    j <= n,
                    node == all[i as int],
                    cats@.len() == n,
                    roles@.len() == n,
                    names@.len() == n,
                    steps@.len() == n,
                    forall|m: int|
                        0 <= m < n ==> {
                            &&& #[trigger] cats@[m] == spec_media_category(self, all[m])
                            &&& roles@[m] == spec_layout_role(self, all[m])
                            &&& names@[m]@ == lower(all[m].name@)
                            &&& steps@[m] == saturate(spec_step(all[m].ports@.len()))
                        },
                    above == saturate(room_above(self, all.take(j as int), node)),
                decreases n - j,
            {
                assert(cats@[j as int] == spec_media_category(self, all[j as int]));
                let listed = chars_before(names[j].as_slice(), names[i].as_slice()) || (chars_eq(
                    names[j].as_slice(),
                    names[i].as_slice(),
                ) && nodes[j].id.0 < nodes[i].id.0);
                let counted = cats[j] == cats[i] && roles[j] == roles[i] && listed;
                if counted {
                    above = above.saturating_add(steps[j]);
                }
                proof {
                    let before = all.take(j as int);
                    let after = all.take(j + 1);
                    assert(after.drop_last() =~= before);
                    assert(after.last() == all[j as int]);
                    lemma_room_above_nonneg(self, before, node);
                    assert(counted == (same_column(self, all[j as int], node) && listed_before(
                        all[j as int],
                        node,
                    )));
                }
                j = j + 1;
            }
            assert(all.take(n as int) =~= all);
            let cat = cats[i];
            let role = roles[i];
            proof {
                lemma_room_above_nonneg(self, all, node);
                lemma_band_top_positive(self, all, cat as nat);
                assert(tops@[cat as int] == saturate(band_top(self, all, cat as nat)));
            }
            let y = tops[cat as usize].saturating_add(above);
            let x = 40 + 320 * (role as u64);
            positions.push(NodePosition { node: nodes[i].id, x, y });
            i = i + 1;
        }
        positions
    }
}


/// The column of a node follows the directions of its ports: a node with
/// a source port and a sink port stands in the middle column (x = 360), one
/// with only source ports in the first (x = 40), one with only sink ports
/// in the last (x = 680).
pub proof fn lemma_column_follows_directions(g: &Graph, node: Node)
    ensures
        (exists|i: int, j: int|
            0 <= i < node.ports@.len() && 0 <= j < node.ports@.len() && g.ports@.contains_key(node.ports@[i].0)
                && g.ports@.contains_key(node.ports@[j].0) && g.ports@[node.ports@[i].0].direction
                == Direction::Source && g.ports@[node.ports@[j].0].direction == Direction::Sink)
            ==> spec_x(g, node) == 360,
        (exists|i: int|
            0 <= i < node.ports@.len() && g.ports@.contains_key(node.ports@[i].0) && g.ports@[node.ports@[i].0].direction
                == Direction::Source) && (forall|j: int|
            0 <= j < node.ports@.len() && g.ports@.contains_key(node.ports@[j].0) ==> g.ports@[node.ports@[j].0].direction
                != Direction::Sink) ==> spec_x(g, node) == 40,
        (exists|i: int|
            0 <= i < node.ports@.len() && g.ports@.contains_key(node.ports@[i].0) && g.ports@[node.ports@[i].0].direction
                == Direction::Sink) && (forall|j: int|
            0 <= j < node.ports@.len() && g.ports@.contains_key(node.ports@[j].0) ==> g.ports@[node.ports@[j].0].direction
                != Direction::Source) ==> spec_x(g, node) == 680,
{
}

} // verus!
