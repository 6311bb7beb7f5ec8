//! The atomicity rules every command shares.
//!
//! A command that touches several links has to be all-or-nothing, so each
//! one records what it removed and can put it back. These helpers are
//! explicit rather than a generic transaction engine: the rollback rules of
//! connect, reroute and disconnect differ enough that plain repetition reads
//! better.

use vstd::prelude::*;
use crate::backend::spec_backend_message;
use crate::command::error::CommandError;
use crate::driver::GraphDriver;
use crate::graph::{
    key_view, spec_keys_linked, spec_link_matches, spec_port_key, spec_port_matches, Graph, KeyView,
    Link, PortKey,
};
use crate::ids::{LinkId, PortId};
use crate::text::{append_chars, append_str, string_from_chars};

verus! {

/// A link's two endpoints, identified by stable names rather than by id.
pub type EndpointPair = (PortKey, PortKey);

/// A pair of keys, as plain values.
pub open spec fn pair_view(pair: EndpointPair) -> (KeyView, KeyView) {
    (key_view(pair.0), key_view(pair.1))
}

/// A sequence of pairs, as plain values.
pub open spec fn pairs_view(pairs: Seq<EndpointPair>) -> Seq<(KeyView, KeyView)> {
    pairs.map_values(|p: EndpointPair| pair_view(p))
}

/// An optional pair, as plain values.
pub open spec fn opt_pair_view(pair: Option<EndpointPair>) -> Option<(KeyView, KeyView)> {
    match pair {
        Some(p) => Some(pair_view(p)),
        None => None,
    }
}

/// A copy of a pair.
pub fn clone_pair(pair: &EndpointPair) -> (copy: EndpointPair)
    ensures
        copy == *pair,
{
    (pair.0.clone(), pair.1.clone())
}

/// A copy of an optional pair.
pub fn clone_opt_pair(pair: &Option<EndpointPair>) -> (copy: Option<EndpointPair>)
    ensures
        copy == *pair,
{
    match pair {
        Some(p) => Some(clone_pair(p)),
        None => None,
    }
}

/// The stable keys of a link's two ports, if both ports and their nodes
/// exist.
pub fn stable_pair(graph: &Graph, output: PortId, input: PortId) -> (pair: Option<EndpointPair>)
    ensures
        match pair {
            Some(p) => {
                &&& spec_port_key(graph, output) == Some(key_view(p.0))
                &&& spec_port_key(graph, input) == Some(key_view(p.1))
                &&& spec_port_matches(graph, output, &p.0)
                &&& spec_port_matches(graph, input, &p.1)
            },
            None => spec_port_key(graph, output) is None || spec_port_key(graph, input) is None,
        },
{
    let out_key = match graph.port_key(output) {
        Some(key) => key,
        None => return None,
    };
    let in_key = match graph.port_key(input) {
        Some(key) => key,
        None => return None,
    };
    Some((out_key, in_key))
}

/// The sequence with every repeated element after its first occurrence
/// removed.
pub open spec fn spec_dedup<A>(s: Seq<A>) -> Seq<A>
    decreases s.len(),
{
    if s.len() == 0 {
        s
    } else {
        let rest = spec_dedup(s.drop_last());
        if rest.contains(s.last()) {
            rest
        } else {
            rest.push(s.last())
        }
    }
}

/// Collapsing repeats keeps every element exactly once: the result holds
/// no two equal elements, and holds an element exactly when the input does.
pub proof fn lemma_dedup_unique<A>(s: Seq<A>)
    ensures
        forall|i: int, j: int|
            0 <= i < j < spec_dedup(s).len() ==> spec_dedup(s)[i] != spec_dedup(s)[j],
        forall|x: A| spec_dedup(s).contains(x) <==> s.contains(x),
    decreases s.len(),
{
    if s.len() > 0 {
        let rest = spec_dedup(s.drop_last());
        lemma_dedup_unique(s.drop_last());
        assert forall|x: A| spec_dedup(s).contains(x) <==> s.contains(x) by {
            let init = s.drop_last();
            assert(rest.contains(x) <==> init.contains(x));
            if s.contains(x) {
                let k = s.index_of(x);
                assert(0 <= k < s.len() && s[k] == x);
                if k < s.len() - 1 {
                    assert(init[k] == x);
                    assert(init.contains(x));
                    assert(rest.contains(x));
                    let r = rest.index_of(x);
                    if !rest.contains(s.last()) {
                        assert(spec_dedup(s)[r] == x);
                    }
                } else if !rest.contains(s.last()) {
                    assert(spec_dedup(s)[rest.len() as int] == x);
                }
            }
            if spec_dedup(s).contains(x) {
                let k = spec_dedup(s).index_of(x);
                assert(0 <= k < spec_dedup(s).len() && spec_dedup(s)[k] == x);
                if k < rest.len() {
                    assert(rest[k] == x);
                    assert(rest.contains(x));
                    assert(init.contains(x));
                    let m = init.index_of(x);
                    assert(0 <= m < init.len() && init[m] == x);
                    assert(s[m] == init[m]);
                } else {
                    assert(s[s.len() - 1] == x);
                }
            }
        }
    }
}

/// Whether a pair is among `pairs`.
pub fn contains_pair(pairs: &[EndpointPair], pair: &EndpointPair) -> (found: bool)
    ensures
        found == pairs_view(pairs@).contains(pair_view(*pair)),
{
    let ghost views = pairs_view(pairs@);
    let mut i: usize = 0;
    while i < pairs.len()
        invariant
            i <= pairs@.len(),
            views == pairs_view(pairs@),
            forall|j: int| 0 <= j < i ==> views[j] != pair_view(*pair),
        decreases pairs@.len() - i,
    {
        if pairs[i].0.same_as(&pair.0) && pairs[i].1.same_as(&pair.1) {
            assert(views[i as int] == pair_view(*pair));
            return true;
        }
        i = i + 1;
    }
    proof {
        if views.contains(pair_view(*pair)) {
            let j = views.index_of(pair_view(*pair));
            assert(views[j] == pair_view(*pair));
        }
    }
    false
}

/// Collapse repeated endpoint pairs, keeping the first of each in order.
pub fn dedup_pairs(pairs: Vec<EndpointPair>) -> (unique: Vec<EndpointPair>)
    ensures
        pairs_view(unique@) == spec_dedup(pairs_view(pairs@)),
{
    let ghost all = pairs_view(pairs@);
    let mut unique: Vec<EndpointPair> = Vec::new();
    let mut i: usize = 0;
    assert(all.subrange(0, 0) =~= Seq::<(KeyView, KeyView)>::empty());
    assert(pairs_view(unique@) =~= Seq::<(KeyView, KeyView)>::empty());
    while i < pairs.len()
        invariant
            i <= pairs@.len(),
            all == pairs_view(pairs@),
            pairs_view(unique@) == spec_dedup(all.subrange(0, i as int)),
        decreases pairs@.len() - i,
    {
        let ghost prefix = all.subrange(0, i + 1);
        assert(prefix.drop_last() =~= all.subrange(0, i as int));
        assert(prefix.last() == pair_view(pairs@[i as int]));
        if !contains_pair(unique.as_slice(), &pairs[i]) {
            let copy = clone_pair(&pairs[i]);
            let ghost before = unique@;
            unique.push(copy);
            assert(pairs_view(unique@) =~= pairs_view(before).push(pair_view(copy)));
        }
        i = i + 1;
    }
    assert(all.subrange(0, all.len() as int) =~= all);
    unique
}

/// `{node} / {port}`.
pub open spec fn spec_port_description(port: PortKey) -> Seq<char> {
    port.node_name@ + " / "@ + port.port_name@
}

pub fn port_description(port: &PortKey) -> (text: String)
    ensures
        text@ == spec_port_description(*port),
{
    let mut t: Vec<char> = Vec::new();
    append_str(&mut t, port.node_name.as_str());
    append_str(&mut t, " / ");
    append_str(&mut t, port.port_name.as_str());
    string_from_chars(t.as_slice())
}

/// `{name}: {output} → {input}`, or the bare name without keys.
pub open spec fn spec_pair_description(name: Seq<char>, keys: Option<EndpointPair>) -> Seq<char> {
    match keys {
        Some(pair) => name + ": "@ + spec_port_description(pair.0) + " → "@ + spec_port_description(
            pair.1,
        ),
        None => name,
    }
}

pub fn pair_description(name: &str, keys: &Option<EndpointPair>) -> (text: String)
    ensures
        text@ == spec_pair_description(name@, *keys),
{
    match keys {
        Some(pair) => {
            let mut t: Vec<char> = Vec::new();
            append_str(&mut t, name);
            append_str(&mut t, ": ");
            let output = port_description(&pair.0);
            append_str(&mut t, output.as_str());
            append_str(&mut t, " → ");
            let input = port_description(&pair.1);
            append_str(&mut t, input.as_str());
            string_from_chars(t.as_slice())
        },
        None => name.to_owned(),
    }
}

/// Messages joined with a separator.
pub open spec fn spec_join(parts: Seq<Seq<char>>, separator: Seq<char>) -> Seq<char>
    decreases parts.len(),
{
    if parts.len() == 0 {
        Seq::empty()
    } else if parts.len() == 1 {
        parts[0]
    } else {
        spec_join(parts.drop_last(), separator) + separator + parts.last()
    }
}

/// The messages of a list of strings, as character sequences.
pub open spec fn strings_view(parts: Seq<String>) -> Seq<Seq<char>> {
    parts.map_values(|p: String| p@)
}

pub fn join(parts: &Vec<String>, separator: &str) -> (text: String)
    ensures
        text@ == spec_join(strings_view(parts@), separator@),
{
    let ghost all = strings_view(parts@);
    let mut t: Vec<char> = Vec::new();
    let mut i: usize = 0;
    assert(all.subrange(0, 0) =~= Seq::<Seq<char>>::empty());
    while i < parts.len()
        invariant
            i <= parts@.len(),
            all == strings_view(parts@),
            t@ == spec_join(all.subrange(0, i as int), separator@),
        decreases parts@.len() - i,
    {
        let ghost prefix = all.subrange(0, i + 1);
        assert(prefix.drop_last() =~= all.subrange(0, i as int));
        if i > 0 {
            append_str(&mut t, separator);
        }
        append_str(&mut t, parts[i].as_str());
        proof {
            if i == 0 {
                assert(t@ =~= prefix[0]);
            }
        }
        i = i + 1;
    }
    assert(all.subrange(0, all.len() as int) =~= all);
    string_from_chars(t.as_slice())
}

/// Two keys that agree on everything a port is matched by: a port one of
/// them names is named by the other too.
pub open spec fn keys_compatible(a: PortKey, b: PortKey) -> bool {
    &&& a.node_name@ == b.node_name@
    &&& a.node_type == b.node_type
    &&& a.port_name@ == b.port_name@
    &&& a.direction == b.direction
    &&& a.port_type == b.port_type
}

pub open spec fn pairs_compatible(a: EndpointPair, b: EndpointPair) -> bool {
    keys_compatible(a.0, b.0) && keys_compatible(a.1, b.1)
}

/// Every link of `before` is still in `after`, unchanged.
pub open spec fn links_kept(before: Map<u64, Link>, after: Map<u64, Link>) -> bool {
    forall|k: u64| #[trigger] before.contains_key(k) ==> after.contains_key(k) && after[k] == before[k]
}

/// A pair linked in a graph stays linked when links are only added.
pub proof fn lemma_linked_kept(before: Graph, after: Graph, pair: EndpointPair)
    requires
        spec_keys_linked(&before, &pair.0, &pair.1),
        links_kept(before.links@, after.links@),
        before.nodes@ == after.nodes@,
        before.ports@ == after.ports@,
    ensures
        spec_keys_linked(&after, &pair.0, &pair.1),
{
    let k = choose|k: u64| #[trigger] before.links@.contains_key(k) && spec_link_matches(
        &before,
        before.links@[k],
        &pair.0,
        &pair.1,
    );
    assert(after.links@.contains_key(k) && after.links@[k] == before.links@[k]);
}

/// A link of a pair also runs between the ports of any compatible pair.
pub proof fn lemma_linked_compatible(g: Graph, a: EndpointPair, b: EndpointPair)
    requires
        spec_keys_linked(&g, &a.0, &a.1),
        pairs_compatible(a, b),
    ensures
        spec_keys_linked(&g, &b.0, &b.1),
{
    let k = choose|k: u64| #[trigger] g.links@.contains_key(k) && spec_link_matches(
        &g,
        g.links@[k],
        &a.0,
        &a.1,
    );
    assert(spec_link_matches(&g, g.links@[k], &b.0, &b.1));
}

/// Reconnect everything a failed group disconnect had already removed,
/// newest first. Returns how many could not be restored. On a static
/// driver, when nothing is stranded, every removed pair is linked again and
/// no link was taken away.
pub(crate) fn rollback_disconnects<D: GraphDriver>(driver: &mut D, removed_keys: &[EndpointPair]) -> (stranded: usize)
    ensures
        stranded <= removed_keys@.len(),
        final(driver).spec_is_static() == old(driver).spec_is_static(),
        old(driver).spec_is_static() && stranded == 0 ==> {
            &&& final(driver).spec_graph().nodes@ == old(driver).spec_graph().nodes@
            &&& final(driver).spec_graph().ports@ == old(driver).spec_graph().ports@
            &&& links_kept(old(driver).spec_graph().links@, final(driver).spec_graph().links@)
            &&& forall|m: int|
                0 <= m < removed_keys@.len() ==> spec_keys_linked(
                    &final(driver).spec_graph(),
                    &(#[trigger] removed_keys@[m]).0,
                    &removed_keys@[m].1,
                )
        },
{
    let ghost stat = driver.spec_is_static();
    let ghost g0 = driver.spec_graph();
    let mut stranded: usize = 0;
    let mut i: usize = removed_keys.len();
    while i > 0
        invariant
            i <= removed_keys@.len(),
            stranded + i <= removed_keys@.len(),
            stat == old(driver).spec_is_static(),
            g0 == old(driver).spec_graph(),
            driver.spec_is_static() == stat,
            stat && stranded == 0 ==> {
                &&& driver.spec_graph().nodes@ == g0.nodes@
                &&& driver.spec_graph().ports@ == g0.ports@
                &&& links_kept(g0.links@, driver.spec_graph().links@)
                &&& forall|m: int|
                    i <= m < removed_keys@.len() ==> spec_keys_linked(
                        &driver.spec_graph(),
                        &(#[trigger] removed_keys@[m]).0,
                        &removed_keys@[m].1,
                    )
            },
        decreases i,
    {
        i = i - 1;
        let pair = &removed_keys[i];
        let ghost before = driver.spec_graph();
        let outcome = driver.connect_by_key_if_missing(&pair.0, &pair.1);
        proof {
            if stat && stranded == 0 && outcome is Ok {
                let after = driver.spec_graph();
                assert(links_kept(before.links@, after.links@));
                assert forall|m: int| i + 1 <= m < removed_keys@.len() implies spec_keys_linked(
                    &after,
                    &(#[trigger] removed_keys@[m]).0,
                    &removed_keys@[m].1,
                ) by {
                    lemma_linked_kept(before, after, removed_keys@[m]);
                }
                if let Ok(Some(link)) = outcome {
                    assert(after.links@.contains_key(link.id.0));
                }
            }
        }
        if outcome.is_err() {
            stranded = stranded + 1;
        }
    }
    stranded
}

/// `base` with each of `added` inserted under its id, in order.
pub open spec fn with_links(base: Map<u64, Link>, added: Seq<Link>) -> Map<u64, Link>
    decreases added.len(),
{
    if added.len() == 0 {
        base
    } else {
        with_links(base, added.drop_last()).insert(added.last().id.0, added.last())
    }
}

/// What a group connect records of the links it created on top of a graph:
/// one fresh link per created pair, running between that pair's ports, and
/// a pair that neither the graph nor an earlier created link linked when it
/// was connected.
pub open spec fn spec_created_on(g: &Graph, created: Seq<Link>, keys: Seq<EndpointPair>) -> bool {
    &&& created.len() == keys.len()
    &&& forall|i: int| 0 <= i < created.len() ==> !g.links@.contains_key(#[trigger] created[i].id.0)
    &&& forall|i: int, j: int| 0 <= i < j < created.len() ==> created[i].id != created[j].id
    &&& forall|i: int|
        0 <= i < created.len() ==> spec_link_matches(g, #[trigger] created[i], &keys[i].0, &keys[i].1)
    &&& forall|i: int| 0 <= i < created.len() ==> !spec_keys_linked(g, &(#[trigger] keys[i]).0, &keys[i].1)
    &&& forall|i: int, j: int|
        0 <= j < i < created.len() ==> !spec_link_matches(g, #[trigger] created[j], &(#[trigger] keys[i]).0, &keys[i].1)
}

/// Every key of `with_links(base, added)` is a key of `base` or the id of an
/// added link, and each added link is stored under its id.
pub proof fn lemma_with_links(base: Map<u64, Link>, added: Seq<Link>)
    requires
        forall|i: int, j: int| 0 <= i < j < added.len() ==> added[i].id != added[j].id,
    ensures
        forall|k: u64| #[trigger] with_links(base, added).contains_key(k) ==> base.contains_key(k) || exists|i: int|
            0 <= i < added.len() && added[i].id.0 == k,
        forall|i: int| 0 <= i < added.len() ==> with_links(base, added).contains_key(#[trigger] added[i].id.0)
            && with_links(base, added)[added[i].id.0] == added[i],
        forall|k: u64|
            base.contains_key(k) && (forall|i: int| 0 <= i < added.len() ==> added[i].id.0 != k)
                ==> #[trigger] with_links(base, added).contains_key(k) && with_links(base, added)[k] == base[k],
    decreases added.len(),
{
    if added.len() > 0 {
        let init = added.drop_last();
        lemma_with_links(base, init);
        let m = with_links(base, added);
        assert forall|k: u64| #[trigger] m.contains_key(k) implies base.contains_key(k) || exists|i: int|
            0 <= i < added.len() && added[i].id.0 == k by {
            if k != added.last().id.0 {
                assert(with_links(base, init).contains_key(k));
                if !base.contains_key(k) {
                    let i = choose|i: int| 0 <= i < init.len() && init[i].id.0 == k;
                    assert(added[i].id.0 == k);
                }
            } else {
                assert(added[added.len() - 1].id.0 == k);
            }
        }
        assert forall|i: int| 0 <= i < added.len() implies m.contains_key(#[trigger] added[i].id.0)
            && m[added[i].id.0] == added[i] by {
            if i < added.len() - 1 {
                assert(init[i] == added[i]);
                assert(added[i].id != added[added.len() - 1].id);
            }
        }
        assert forall|k: u64|
            base.contains_key(k) && (forall|i: int| 0 <= i < added.len() ==> added[i].id.0 != k)
                implies #[trigger] m.contains_key(k) && m[k] == base[k] by {
            assert(forall|i: int| 0 <= i < init.len() ==> init[i] == added[i]);
            assert(forall|i: int| 0 <= i < init.len() ==> init[i].id.0 != k);
            assert(added[added.len() - 1].id.0 != k);
            assert(with_links(base, init).contains_key(k) && with_links(base, init)[k] == base[k]);
        }
    }
}

/// A link of `base` whose id no added link takes is kept.
pub proof fn lemma_with_links_keeps(base: Map<u64, Link>, added: Seq<Link>, k: u64)
    requires
        base.contains_key(k),
        forall|i: int| 0 <= i < added.len() ==> added[i].id.0 != k,
    ensures
        with_links(base, added).contains_key(k),
        with_links(base, added)[k] == base[k],
    decreases added.len(),
{
    if added.len() > 0 {
        let init = added.drop_last();
        assert(forall|i: int| 0 <= i < init.len() ==> init[i] == added[i]);
        lemma_with_links_keeps(base, init, k);
        assert(added[added.len() - 1].id.0 != k);
    }
}

/// Removing the newest added link gives the map with one fewer added.
pub proof fn lemma_with_links_remove_last(base: Map<u64, Link>, added: Seq<Link>)
    requires
        added.len() > 0,
        forall|i: int| 0 <= i < added.len() ==> !base.contains_key(#[trigger] added[i].id.0),
        forall|i: int, j: int| 0 <= i < j < added.len() ==> added[i].id != added[j].id,
    ensures
        with_links(base, added).remove(added.last().id.0) == with_links(base, added.drop_last()),
{
    let init = added.drop_last();
    let last = added.last();
    lemma_with_links(base, init);
    assert(!with_links(base, init).contains_key(last.id.0)) by {
        if with_links(base, init).contains_key(last.id.0) {
            if !base.contains_key(last.id.0) {
                let i = choose|i: int| 0 <= i < init.len() && init[i].id.0 == last.id.0;
                assert(added[i].id != added[added.len() - 1].id);
            } else {
                assert(!base.contains_key(added[added.len() - 1].id.0));
            }
        }
    }
    assert(with_links(base, added).remove(last.id.0) =~= with_links(base, init));
}

/// `after` holds the links of `before` and those of `left`, each of them
/// new to `before` and all with different ids.
pub open spec fn spec_added_by(before: Map<u64, Link>, after: Map<u64, Link>, left: Seq<Link>) -> bool {
    &&& forall|i: int, j: int| 0 <= i < j < left.len() ==> left[i].id != left[j].id
    &&& forall|i: int| 0 <= i < left.len() ==> !before.contains_key(#[trigger] left[i].id.0)
    &&& after == with_links(before, left)
}

/// The links of `after` are those of `before` and `n` more, each new.
pub open spec fn spec_links_added(before: Map<u64, Link>, after: Map<u64, Link>, n: nat) -> bool {
    exists|left: Seq<Link>| left.len() == n && #[trigger] spec_added_by(before, after, left)
}

/// No link was added exactly when the links are unchanged.
pub proof fn lemma_links_added_unchanged(before: Map<u64, Link>, after: Map<u64, Link>, n: nat)
    requires
        spec_links_added(before, after, n),
    ensures
        (n == 0) == (after == before),
{
    let left = choose|left: Seq<Link>| left.len() == n && #[trigger] spec_added_by(before, after, left);
    if n == 0 {
        assert(left =~= Seq::<Link>::empty());
    } else {
        lemma_with_links(before, left);
        assert(after.contains_key(left[0].id.0));
        assert(!before.contains_key(left[0].id.0));
    }
}

/// The created links at the given indices, in their order.
pub open spec fn picked(created: Seq<Link>, idx: Seq<int>) -> Seq<Link> {
    idx.map_values(|j: int| created[j])
}

/// Strictly increasing indices, each in `lo..hi`.
pub open spec fn spec_kept_indices(idx: Seq<int>, lo: int, hi: int) -> bool {
    &&& forall|m: int| 0 <= m < idx.len() ==> lo <= #[trigger] idx[m] < hi
    &&& forall|m: int, n: int| 0 <= m < n < idx.len() ==> idx[m] < idx[n]
}

/// The created links before `p` and those kept after it have different
/// ids, none of them a link the group started from.
proof fn lemma_kept_fresh(start: Graph, created: Seq<Link>, keys: Seq<EndpointPair>, p: int, idx: Seq<int>)
    requires
        spec_created_on(&start, created, keys),
        0 <= p <= created.len(),
        spec_kept_indices(idx, p, created.len() as int),
    ensures
        forall|i: int, j: int|
            0 <= i < j < (created.subrange(0, p) + picked(created, idx)).len() ==> (created.subrange(0, p)
                + picked(created, idx))[i].id != (created.subrange(0, p) + picked(created, idx))[j].id,
        forall|i: int|
            0 <= i < (created.subrange(0, p) + picked(created, idx)).len() ==> !start.links@.contains_key(
                #[trigger] (created.subrange(0, p) + picked(created, idx))[i].id.0,
            ),
{
    let s = created.subrange(0, p) + picked(created, idx);
    assert forall|i: int| 0 <= i < s.len() implies s[i] == created[if i < p { i } else { idx[i - p] }] by {}
    assert forall|i: int, j: int| 0 <= i < j < s.len() implies s[i].id != s[j].id by {
        let a = if i < p { i } else { idx[i - p] };
        let b = if j < p { j } else { idx[j - p] };
        assert(s[i] == created[a] && s[j] == created[b]);
        assert(a < b);
    }
    assert forall|i: int| 0 <= i < s.len() implies !start.links@.contains_key(#[trigger] s[i].id.0) by {
        let a = if i < p { i } else { idx[i - p] };
        assert(s[i] == created[a]);
    }
}

/// Removing one added link gives the map with that link left out.
proof fn lemma_with_links_remove_at(base: Map<u64, Link>, s: Seq<Link>, x: int)
    requires
        0 <= x < s.len(),
        forall|i: int, j: int| 0 <= i < j < s.len() ==> s[i].id != s[j].id,
        forall|i: int| 0 <= i < s.len() ==> !base.contains_key(#[trigger] s[i].id.0),
    ensures
        with_links(base, s).remove(s[x].id.0) == with_links(base, s.subrange(0, x) + s.subrange(x + 1, s.len() as int)),
{
    let r = s.subrange(0, x) + s.subrange(x + 1, s.len() as int);
    assert forall|i: int| 0 <= i < r.len() implies r[i] == s[if i < x { i } else { i + 1 }] by {}
    assert forall|i: int, j: int| 0 <= i < j < r.len() implies r[i].id != r[j].id by {
        assert(r[i] == s[if i < x { i } else { i + 1 }]);
        assert(r[j] == s[if j < x { j } else { j + 1 }]);
    }
    lemma_with_links(base, s);
    lemma_with_links(base, r);
    let m1 = with_links(base, s).remove(s[x].id.0);
    let m2 = with_links(base, r);
    assert forall|k: u64| #[trigger] m1.contains_key(k) implies m2.contains_key(k) && m2[k] == m1[k] by {
        if exists|i: int| 0 <= i < s.len() && s[i].id.0 == k {
            let i = choose|i: int| 0 <= i < s.len() && s[i].id.0 == k;
            assert(i != x);
            let i2 = if i < x { i } else { i - 1 };
            assert(r[i2] == s[i]);
        } else {
            assert(base.contains_key(k));
            assert forall|i: int| 0 <= i < r.len() implies r[i].id.0 != k by {
                assert(r[i] == s[if i < x { i } else { i + 1 }]);
            }
        }
    }
    assert forall|k: u64| #[trigger] m2.contains_key(k) implies m1.contains_key(k) by {
        if exists|i: int| 0 <= i < r.len() && r[i].id.0 == k {
            let i = choose|i: int| 0 <= i < r.len() && r[i].id.0 == k;
            let i1 = if i < x { i } else { i + 1 };
            assert(r[i] == s[i1]);
            assert(i1 != x);
        } else {
            assert(base.contains_key(k));
            assert(!base.contains_key(s[x].id.0));
        }
    }
    assert(m1 =~= m2);
}

/// While rolling back with some removals failed, the newest remaining
/// created pair is still linked.
proof fn lemma_newest_is_linked_kept(
    start: Graph,
    created: Seq<Link>,
    keys: Seq<EndpointPair>,
    i: int,
    idx: Seq<int>,
    g: Graph,
)
    requires
        spec_created_on(&start, created, keys),
        0 <= i < created.len(),
        spec_kept_indices(idx, i + 1, created.len() as int),
        g.nodes@ == start.nodes@,
        g.ports@ == start.ports@,
        g.links@ == with_links(start.links@, created.subrange(0, i + 1) + picked(created, idx)),
    ensures
        spec_keys_linked(&g, &keys[i].0, &keys[i].1),
{
    let s = created.subrange(0, i + 1) + picked(created, idx);
    lemma_kept_fresh(start, created, keys, i + 1, idx);
    lemma_with_links(start.links@, s);
    assert(s[i] == created[i]);
    assert(g.links@.contains_key(created[i].id.0));
    assert(spec_link_matches(&start, created[i], &keys[i].0, &keys[i].1));
}

/// While rolling back with some removals failed, the link removed for the
/// newest remaining created pair is the one created for it.
proof fn lemma_removed_is_newest_kept(
    start: Graph,
    created: Seq<Link>,
    keys: Seq<EndpointPair>,
    i: int,
    idx: Seq<int>,
    g: Graph,
    removed: Link,
)
    requires
        spec_created_on(&start, created, keys),
        0 <= i < created.len(),
        spec_kept_indices(idx, i + 1, created.len() as int),
        g.nodes@ == start.nodes@,
        g.ports@ == start.ports@,
        g.links@ == with_links(start.links@, created.subrange(0, i + 1) + picked(created, idx)),
        g.links@.contains_key(removed.id.0),
        g.links@[removed.id.0] == removed,
        spec_link_matches(&g, removed, &keys[i].0, &keys[i].1),
    ensures
        removed.id == created[i].id,
{
    let s = created.subrange(0, i + 1) + picked(created, idx);
    lemma_kept_fresh(start, created, keys, i + 1, idx);
    lemma_with_links(start.links@, s);
    let k = removed.id.0;
    if exists|m: int| 0 <= m < s.len() && s[m].id.0 == k {
        let m = choose|m: int| 0 <= m < s.len() && s[m].id.0 == k;
        assert(removed == s[m]);
        if m < i {
            assert(s[m] == created[m]);
            assert(!spec_link_matches(&start, created[m], &keys[i].0, &keys[i].1));
        } else if m > i {
            let j = idx[m - (i + 1)];
            assert(s[m] == created[j]);
            assert(i < j < created.len());
            assert(spec_link_matches(&start, created[j], &keys[j].0, &keys[j].1));
            assert(spec_link_matches(&start, created[i], &keys[i].0, &keys[i].1));
            assert(spec_link_matches(&start, created[i], &keys[j].0, &keys[j].1));
            assert(!spec_link_matches(&start, created[i], &keys[j].0, &keys[j].1));
        } else {
            assert(s[m] == created[i]);
        }
    } else {
        assert(start.links@.contains_key(k));
        assert(g.links@[k] == start.links@[k]);
        assert(spec_keys_linked(&start, &keys[i].0, &keys[i].1));
    }
}

/// Disconnect everything a failed group connect had already created,
/// newest first. Returns how many could not be removed. A suppression rule
/// is cleared only for a pair that really did come out of the graph. On a
/// static driver the links are afterwards those the group connect started
/// from and exactly as many more as this returns: the created links whose
/// removal failed.
pub(crate) fn rollback_connects<D: GraphDriver>(
    driver: &mut D,
    created_keys: &[EndpointPair],
    Ghost(start): Ghost<Graph>,
    Ghost(created): Ghost<Seq<Link>>,
) -> (stranded: usize)
    requires
        old(driver).spec_is_static() ==> {
            &&& old(driver).spec_graph().nodes@ == start.nodes@
            &&& old(driver).spec_graph().ports@ == start.ports@
            &&& old(driver).spec_graph().links@ == with_links(start.links@, created)
            &&& spec_created_on(&start, created, created_keys@)
        },
    ensures
        stranded <= created_keys@.len(),
        final(driver).spec_is_static() == old(driver).spec_is_static(),
        old(driver).spec_is_static() ==> {
            &&& spec_links_added(start.links@, final(driver).spec_graph().links@, stranded as nat)
            &&& final(driver).spec_graph().nodes@ == start.nodes@
            &&& final(driver).spec_graph().ports@ == start.ports@
        },
{
    let ghost stat = driver.spec_is_static();
    let ghost mut idx: Seq<int> = Seq::empty();
    let mut stranded: usize = 0;
    let mut i: usize = created_keys.len();
    proof {
        if stat {
            assert(created.subrange(0, created_keys@.len() as int) + picked(created, idx) =~= created);
        }
    }
    while i > 0
        invariant
            i <= created_keys@.len(),
            stranded + i <= created_keys@.len(),
            stranded == idx.len(),
            stat == old(driver).spec_is_static(),
            driver.spec_is_static() == stat,
            stat ==> spec_created_on(&start, created, created_keys@),
            stat ==> spec_kept_indices(idx, i as int, created.len() as int),
            stat ==> {
                &&& driver.spec_graph().nodes@ == start.nodes@
                &&& driver.spec_graph().ports@ == start.ports@
                &&& driver.spec_graph().links@ == with_links(
                    start.links@,
                    created.subrange(0, i as int) + picked(created, idx),
                )
            },
        decreases i,
    {
        i = i - 1;
        let pair = &created_keys[i];
        let ghost before = driver.spec_graph();
        let ghost all = created.subrange(0, i + 1) + picked(created, idx);
        proof {
            if stat {
                assert(spec_kept_indices(idx, i + 1, created.len() as int));
            }
        }
        match driver.disconnect_by_key_if_present_without_suppression(&pair.0, &pair.1) {
            Ok(Some(removed)) => {
                proof {
                    if stat {
                        lemma_removed_is_newest_kept(start, created, created_keys@, i as int, idx, before, removed);
                        lemma_kept_fresh(start, created, created_keys@, i + 1, idx);
                        lemma_with_links_remove_at(start.links@, all, i as int);
                        assert(all[i as int] == created[i as int]);
                        assert(all.subrange(0, i as int) + all.subrange(i + 1, all.len() as int) =~= created.subrange(
                            0,
                            i as int,
                        ) + picked(created, idx));
                    }
                }
                driver.allow_connection(&pair.0, &pair.1);
            },
            Ok(None) => {
                proof {
                    if stat {
                        lemma_newest_is_linked_kept(start, created, created_keys@, i as int, idx, before);
                    }
                }
            },
            Err(_) => {
                proof {
                    let ghost old_idx = idx;
                    idx = seq![i as int] + idx;
                    if stat {
                        assert(picked(created, idx) =~= seq![created[i as int]] + picked(created, old_idx));
                        assert(created.subrange(0, i as int) + picked(created, idx) =~= all);
                        assert(spec_kept_indices(idx, i as int, created.len() as int)) by {
                            assert forall|m: int, n: int| 0 <= m < n < idx.len() implies idx[m] < idx[n] by {
                                if m > 0 {
                                    assert(idx[m] == old_idx[m - 1]);
                                }
                                assert(idx[n] == old_idx[n - 1]);
                            }
                        }
                    }
                }
                stranded = stranded + 1;
            },
        }
    }
    proof {
        if stat {
            let left = picked(created, idx);
            lemma_kept_fresh(start, created, created_keys@, 0, idx);
            assert(created.subrange(0, 0) + left =~= left);
            assert(spec_added_by(start.links@, driver.spec_graph().links@, left));
        }
    }
    stranded
}

/// While rolling back, the newest remaining created pair is linked.
pub(crate) proof fn lemma_newest_is_linked(start: Graph, created: Seq<Link>, keys: Seq<EndpointPair>, i: int, g: Graph)
    requires
        spec_created_on(&start, created, keys),
        0 <= i < created.len(),
        g.nodes@ == start.nodes@,
        g.ports@ == start.ports@,
        g.links@ == with_links(start.links@, created.subrange(0, i + 1)),
    ensures
        spec_keys_linked(&g, &keys[i].0, &keys[i].1),
{
    let prefix = created.subrange(0, i + 1);
    lemma_with_links(start.links@, prefix);
    assert(prefix[i] == created[i]);
    assert(g.links@.contains_key(created[i].id.0));
    assert(spec_link_matches(&start, created[i], &keys[i].0, &keys[i].1));
}

/// While rolling back, the link removed for the newest remaining created
/// pair is the one created for it.
pub(crate) proof fn lemma_removed_is_newest(start: Graph, created: Seq<Link>, keys: Seq<EndpointPair>, i: int, g: Graph, removed: Link)
    requires
        spec_created_on(&start, created, keys),
        0 <= i < created.len(),
        g.nodes@ == start.nodes@,
        g.ports@ == start.ports@,
        g.links@ == with_links(start.links@, created.subrange(0, i + 1)),
        g.links@.contains_key(removed.id.0),
        g.links@[removed.id.0] == removed,
        spec_link_matches(&g, removed, &keys[i].0, &keys[i].1),
    ensures
        removed.id == created[i].id,
{
    let prefix = created.subrange(0, i + 1);
    lemma_with_links(start.links@, prefix);
    let k = removed.id.0;
    if start.links@.contains_key(k) && (forall|j: int| 0 <= j < prefix.len() ==> prefix[j].id.0 != k) {
        assert(g.links@[k] == start.links@[k]);
        assert(spec_keys_linked(&start, &keys[i].0, &keys[i].1));
    } else {
        let j = if start.links@.contains_key(k) {
            choose|j: int| 0 <= j < prefix.len() && prefix[j].id.0 == k
        } else {
            choose|j: int| 0 <= j < prefix.len() && prefix[j].id.0 == k
        };
        assert(0 <= j < prefix.len() && prefix[j].id.0 == k);
        assert(prefix[j] == created[j]);
        assert(g.links@[k] == created[j]);
        if j < i {
            assert(!spec_link_matches(&start, created[j], &keys[i].0, &keys[i].1));
        }
    }
}

/// The error of a group operation whose step failed with `error` and whose
/// rollback left `stranded` items changed.
pub fn group_failure(
    operation: &'static str,
    error: crate::backend::BackendError,
    stranded: usize,
) -> (failure: CommandError)
    ensures
        stranded == 0 ==> failure == CommandError::Backend(error),
        stranded > 0 ==> (failure matches CommandError::PartiallyApplied { operation: op, cause, stranded: s }
            && op == operation && s == stranded && cause@ == spec_backend_message(error)),
{
    if stranded == 0 {
        CommandError::Backend(error)
    } else {
        let cause = error.message();
        CommandError::PartiallyApplied { operation, cause, stranded }
    }
}

/// Whether link `k` is the one link of `g` between ports a pair names.
pub open spec fn spec_sole_link(g: &Graph, pair: EndpointPair, k: u64) -> bool {
    &&& g.links@.contains_key(k)
    &&& spec_link_matches(g, g.links@[k], &pair.0, &pair.1)
    &&& forall|k2: u64|
        #[trigger] g.links@.contains_key(k2) && spec_link_matches(g, g.links@[k2], &pair.0, &pair.1) ==> k2 == k
}

/// Every pair of `keys` that link `k` runs between names `k` alone.
pub open spec fn spec_sole_wherever_matched(g: &Graph, keys: Seq<EndpointPair>, k: u64) -> bool {
    forall|j: int|
        0 <= j < keys.len() && spec_link_matches(g, g.links@[k], &(#[trigger] keys[j]).0, &keys[j].1)
            ==> spec_sole_link(g, keys[j], k)
}

/// Two pairs that name the ports of one link are compatible.
pub proof fn lemma_matching_pairs_compatible(g: &Graph, link: Link, a: EndpointPair, b: EndpointPair)
    requires
        spec_link_matches(g, link, &a.0, &a.1),
        spec_link_matches(g, link, &b.0, &b.1),
    ensures
        pairs_compatible(a, b),
{
}

/// Disconnect every pair whose link is user-mutable, recording which were
/// actually removed. All or nothing: a failure reconnects the pairs removed
/// so far, and only a failed reconnection is reported as such.
pub(crate) fn disconnect_keys<D: GraphDriver>(
    driver: &mut D,
    operation: &'static str,
    keys: &[EndpointPair],
    removed_keys: &mut Vec<EndpointPair>,
) -> (result: Result<Vec<Link>, CommandError>)
    ensures
        final(driver).spec_is_static() == old(driver).spec_is_static(),
        match result {
            Ok(links) => {
                &&& links@.len() == final(removed_keys)@.len()
                &&& forall|j: int|
                    0 <= j < final(removed_keys)@.len() ==> pairs_view(keys@).contains(
                        #[trigger] pairs_view(final(removed_keys)@)[j],
                    )
            },
            Err(error) => {
                &&& final(removed_keys)@.len() == 0
                &&& (error is Backend || (error matches CommandError::PartiallyApplied {
                    operation: op,
                    stranded,
                    ..
                } && op == operation && stranded > 0))
            },
        },
        old(driver).spec_is_static() && (result matches Err(CommandError::Backend(_))) ==> {
            &&& final(driver).spec_graph().nodes@ == old(driver).spec_graph().nodes@
            &&& final(driver).spec_graph().ports@ == old(driver).spec_graph().ports@
            &&& forall|j: int|
                0 <= j < keys@.len() && spec_keys_linked(
                    &old(driver).spec_graph(),
                    &(#[trigger] keys@[j]).0,
                    &keys@[j].1,
                ) ==> spec_keys_linked(&final(driver).spec_graph(), &keys@[j].0, &keys@[j].1)
        },
        old(driver).spec_is_static() && result is Ok ==> {
            &&& final(driver).spec_graph().nodes@ == old(driver).spec_graph().nodes@
            &&& final(driver).spec_graph().ports@ == old(driver).spec_graph().ports@
            &&& forall|j: int|
                0 <= j < keys@.len() && spec_keys_linked(
                    &old(driver).spec_graph(),
                    &(#[trigger] keys@[j]).0,
                    &keys@[j].1,
                ) ==> spec_keys_linked(&final(driver).spec_graph(), &keys@[j].0, &keys@[j].1) || exists|m: int|
                    0 <= m < final(removed_keys)@.len() && pairs_compatible(final(removed_keys)@[m], keys@[j])
            &&& forall|k: u64|
                #[trigger] final(driver).spec_graph().links@.contains_key(k) ==> old(driver).spec_graph().links@.contains_key(k)
                    && final(driver).spec_graph().links@[k] == old(driver).spec_graph().links@[k]
            &&& forall|k: u64|
                #[trigger] old(driver).spec_graph().links@.contains_key(k) && !final(driver).spec_graph().links@.contains_key(k)
                    ==> exists|m: int|
                    0 <= m < final(removed_keys)@.len() && spec_link_matches(
                        &old(driver).spec_graph(),
                        old(driver).spec_graph().links@[k],
                        &final(removed_keys)@[m].0,
                        &final(removed_keys)@[m].1,
                    )
            &&& forall|j: int, k: u64|
                0 <= j < keys@.len() && #[trigger] spec_sole_link(&old(driver).spec_graph(), keys@[j], k)
                    && old(driver).spec_link_mutable(LinkId(k)) ==> !final(driver).spec_graph().links@.contains_key(k)
            &&& forall|k: u64|
                #[trigger] old(driver).spec_graph().links@.contains_key(k) && !old(driver).spec_link_mutable(LinkId(k))
                    && spec_sole_wherever_matched(&old(driver).spec_graph(), keys@, k)
                    ==> final(driver).spec_graph().links@.contains_key(k)
        },
{
    *removed_keys = Vec::new();
    let mut disconnected: Vec<Link> = Vec::new();
    let ghost key_views = pairs_view(keys@);
    let ghost stat = driver.spec_is_static();
    let ghost g0 = driver.spec_graph();
    let mut i: usize = 0;
    while i < keys.len()
        invariant
            stat == old(driver).spec_is_static(),
            g0 == old(driver).spec_graph(),
            stat ==> {
                &&& driver.spec_graph().nodes@ == g0.nodes@
                &&& driver.spec_graph().ports@ == g0.ports@
                &&& forall|j: int|
                    0 <= j < keys@.len() && spec_keys_linked(&g0, &(#[trigger] keys@[j]).0, &keys@[j].1)
                        ==> spec_keys_linked(&driver.spec_graph(), &keys@[j].0, &keys@[j].1) || exists|m: int|
                        0 <= m < removed_keys@.len() && pairs_compatible(removed_keys@[m], keys@[j])
            },
            i <= keys@.len(),
            key_views == pairs_view(keys@),
            disconnected@.len() == removed_keys@.len(),
            forall|j: int|
                0 <= j < removed_keys@.len() ==> key_views.contains(
                    #[trigger] pairs_view(removed_keys@)[j],
                ),
            driver.spec_is_static() == old(driver).spec_is_static(),
            stat ==> forall|k: u64|
                #[trigger] driver.spec_graph().links@.contains_key(k) ==> g0.links@.contains_key(k)
                    && driver.spec_graph().links@[k] == g0.links@[k],
            stat ==> forall|k: u64|
                #[trigger] g0.links@.contains_key(k) && !driver.spec_graph().links@.contains_key(k) ==> exists|m: int|
                    0 <= m < removed_keys@.len() && spec_link_matches(
                        &g0,
                        g0.links@[k],
                        &removed_keys@[m].0,
                        &removed_keys@[m].1,
                    ),
            stat ==> forall|l: LinkId|
                #[trigger] driver.spec_graph().links@.contains_key(l.0) ==> driver.spec_link_mutable(l)
                    == old(driver).spec_link_mutable(l),
            stat ==> forall|j: int, k: u64|
                0 <= j < i && #[trigger] spec_sole_link(&g0, keys@[j], k) && old(driver).spec_link_mutable(LinkId(k))
                    ==> !driver.spec_graph().links@.contains_key(k),
            stat ==> forall|k: u64|
                #[trigger] g0.links@.contains_key(k) && !old(driver).spec_link_mutable(LinkId(k))
                    && spec_sole_wherever_matched(&g0, keys@, k) ==> driver.spec_graph().links@.contains_key(k),
        decreases keys@.len() - i,
    {
        let pair = &keys[i];
        let ghost gp = driver.spec_graph();
        let protected = match driver.graph().find_link_by_keys(&pair.0, &pair.1) {
            Some(link) => !driver.is_link_mutable(link.id),
            None => false,
        };
        if !protected {
            let ghost gb = driver.spec_graph();
            match driver.disconnect_by_key_if_present(&pair.0, &pair.1) {
                Ok(Some(link)) => {
                    disconnected.push(link);
                    let copy = clone_pair(pair);
                    let ghost before = removed_keys@;
                    removed_keys.push(copy);
                    proof {
                        if stat {
                            let gn = driver.spec_graph();
                            assert(removed_keys@[before.len() as int] == copy);
                            assert forall|k: u64| #[trigger] g0.links@.contains_key(k) && !gn.links@.contains_key(k) implies exists|m: int|
                                0 <= m < removed_keys@.len() && spec_link_matches(
                                    &g0,
                                    g0.links@[k],
                                    &removed_keys@[m].0,
                                    &removed_keys@[m].1,
                                ) by {
                                if k == link.id.0 {
                                    assert(gp.links@[k] == link);
                                    assert(spec_link_matches(&g0, g0.links@[k], &removed_keys@[before.len() as int].0, &removed_keys@[before.len() as int].1));
                                } else {
                                    assert(!gp.links@.contains_key(k));
                                    let m = choose|m: int| 0 <= m < before.len() && spec_link_matches(
                                        &g0,
                                        g0.links@[k],
                                        &before[m].0,
                                        &before[m].1,
                                    );
                                    assert(removed_keys@[m] == before[m]);
                                }
                            }
                            let ga = driver.spec_graph();
                            assert forall|j: int|
                                0 <= j < keys@.len() && spec_keys_linked(&g0, &(#[trigger] keys@[j]).0, &keys@[j].1)
                                    implies spec_keys_linked(&ga, &keys@[j].0, &keys@[j].1) || exists|m: int|
                                    0 <= m < removed_keys@.len() && pairs_compatible(removed_keys@[m], keys@[j]) by {
                                if exists|m: int| 0 <= m < before.len() && pairs_compatible(before[m], keys@[j]) {
                                    let m = choose|m: int| 0 <= m < before.len() && pairs_compatible(before[m], keys@[j]);
                                    assert(removed_keys@[m] == before[m]);
                                } else {
                                    assert(spec_keys_linked(&gb, &keys@[j].0, &keys@[j].1));
                                    let k = choose|k: u64| #[trigger] gb.links@.contains_key(k) && spec_link_matches(
                                        &gb,
                                        gb.links@[k],
                                        &keys@[j].0,
                                        &keys@[j].1,
                                    );
                                    if k != link.id.0 {
                                        assert(ga.links@.contains_key(k) && ga.links@[k] == gb.links@[k]);
                                    } else {
                                        assert(removed_keys@[before.len() as int] == copy);
                                        assert(pairs_compatible(copy, keys@[j]));
                                    }
                                }
                            }
                        }
                        assert(key_views[i as int] == pair_view(copy));
                        assert forall|j: int| 0 <= j < removed_keys@.len() implies key_views.contains(
                            #[trigger] pairs_view(removed_keys@)[j],
                        ) by {
                            if j < before.len() {
                                assert(pairs_view(removed_keys@)[j] == pairs_view(before)[j]);
                            }
                        }
                    }
                },
                Ok(None) => {},
                Err(error) => {
                    let ghost removed = removed_keys@;
                    let ghost ge = driver.spec_graph();
                    let stranded = rollback_disconnects(driver, removed_keys.as_slice());
                    proof {
                        if stat && stranded == 0 {
                            let gf = driver.spec_graph();
                            assert forall|j: int|
                                0 <= j < keys@.len() && spec_keys_linked(&g0, &(#[trigger] keys@[j]).0, &keys@[j].1)
                                    implies spec_keys_linked(&gf, &keys@[j].0, &keys@[j].1) by {
                                if spec_keys_linked(&ge, &keys@[j].0, &keys@[j].1) {
                                    lemma_linked_kept(ge, gf, keys@[j]);
                                } else {
                                    let m = choose|m: int| 0 <= m < removed.len() && pairs_compatible(removed[m], keys@[j]);
                                    assert(spec_keys_linked(&gf, &removed[m].0, &removed[m].1));
                                    lemma_linked_compatible(gf, removed[m], keys@[j]);
                                }
                            }
                        }
                    }
                    *removed_keys = Vec::new();
                    return Err(group_failure(operation, error, stranded));
                },
            }
        }
        i = i + 1;
    }
    Ok(disconnected)
}

/// Reconnect every previously removed pair, returning the restored links.
/// An undo that fails partway is reported as partially applied: the graph is
/// then in neither the before nor the after state. On a static driver no
/// link is taken away, and after a full restore every pair is linked.
pub(crate) fn restore_keys<D: GraphDriver>(driver: &mut D, operation: &'static str, removed_keys: &[EndpointPair]) -> (result:
    Result<Vec<Link>, CommandError>)
    ensures
        final(driver).spec_is_static() == old(driver).spec_is_static(),
        match result {
            Ok(links) => links@.len() <= removed_keys@.len(),
            Err(error) => error matches CommandError::PartiallyApplied { operation: op, stranded, .. }
                && op == operation && 0 < stranded <= removed_keys@.len(),
        },
        old(driver).spec_is_static() ==> {
            &&& final(driver).spec_graph().nodes@ == old(driver).spec_graph().nodes@
            &&& final(driver).spec_graph().ports@ == old(driver).spec_graph().ports@
            &&& links_kept(old(driver).spec_graph().links@, final(driver).spec_graph().links@)
        },
        old(driver).spec_is_static() && result is Ok ==> forall|m: int|
            0 <= m < removed_keys@.len() ==> spec_keys_linked(
                &final(driver).spec_graph(),
                &(#[trigger] removed_keys@[m]).0,
                &removed_keys@[m].1,
            ),
{
    let ghost stat = driver.spec_is_static();
    let ghost g0 = driver.spec_graph();
    let mut restored: Vec<Link> = Vec::new();
    let mut failures: Vec<String> = Vec::new();
    let mut i: usize = 0;
    while i < removed_keys.len()
        invariant
            i <= removed_keys@.len(),
            restored@.len() + failures@.len() <= i,
            stat == old(driver).spec_is_static(),
            g0 == old(driver).spec_graph(),
            driver.spec_is_static() == stat,
            stat ==> {
                &&& driver.spec_graph().nodes@ == g0.nodes@
                &&& driver.spec_graph().ports@ == g0.ports@
                &&& links_kept(g0.links@, driver.spec_graph().links@)
            },
            stat && failures@.len() == 0 ==> forall|m: int|
                0 <= m < i ==> spec_keys_linked(
                    &driver.spec_graph(),
                    &(#[trigger] removed_keys@[m]).0,
                    &removed_keys@[m].1,
                ),
        decreases removed_keys@.len() - i,
    {
        let pair = &removed_keys[i];
        let ghost before = driver.spec_graph();
        let outcome = driver.connect_by_key_if_missing(&pair.0, &pair.1);
        proof {
            if stat {
                let after = driver.spec_graph();
                assert(links_kept(before.links@, after.links@));
                assert(links_kept(g0.links@, after.links@)) by {
                    assert forall|k: u64| #[trigger] g0.links@.contains_key(k) implies after.links@.contains_key(k)
                        && after.links@[k] == g0.links@[k] by {
                        assert(before.links@.contains_key(k));
                    }
                }
                if failures@.len() == 0 && outcome is Ok {
                    assert forall|m: int| 0 <= m < i implies spec_keys_linked(
                        &after,
                        &(#[trigger] removed_keys@[m]).0,
                        &removed_keys@[m].1,
                    ) by {
                        lemma_linked_kept(before, after, removed_keys@[m]);
                    }
                    if let Ok(Some(link)) = outcome {
                        assert(after.links@.contains_key(link.id.0));
                    }
                }
            }
        }
        match outcome {
            Ok(Some(link)) => restored.push(link),
            Ok(None) => {},
            Err(error) => failures.push(error.message()),
        }
        i = i + 1;
    }
    if failures.len() > 0 {
        let cause = join(&failures, "; ");
        return Err(CommandError::PartiallyApplied { operation, cause, stranded: failures.len() });
    }
    Ok(restored)
}

} // verus!
