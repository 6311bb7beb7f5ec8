//! Creating links, one pair or a whole group at a time.

use vstd::prelude::*;
use crate::backend::BackendError;
use crate::command::error::CommandError;
use crate::command::transaction::{
    clone_opt_pair, clone_pair, dedup_pairs, group_failure, join, lemma_linked_compatible,
    lemma_linked_kept, lemma_newest_is_linked, lemma_removed_is_newest, lemma_with_links,
    lemma_with_links_keeps, lemma_with_links_remove_last, links_kept, opt_pair_view, pair_description, pair_view,
    pairs_compatible, pairs_view, rollback_connects, spec_created_on, spec_dedup, spec_links_added,
    lemma_links_added_unchanged,
    spec_pair_description, stable_pair, with_links, EndpointPair,
};
use crate::driver::{same_graph, spec_key_resolves, spec_unavailable_message, GraphDriver};
use crate::graph::{key_view, spec_keys_linked, spec_link_matches, spec_port_key, Graph, KeyView, Link, PortKey};
use crate::ids::PortId;
use crate::text::{append_chars, append_str, decimal_chars, spec_decimal_chars, string_from_chars};

verus! {

/// Connect one pair of ports, identified for undo by their stable keys.
pub struct ConnectCommand {
    src: PortId,
    dst: PortId,
    link: Option<Link>,
    keys: Option<EndpointPair>,
}

/// The keys of a pair of ports in a graph, when both resolve.
pub open spec fn spec_stable_pair(g: &Graph, output: PortId, input: PortId) -> Option<(KeyView, KeyView)> {
    match (spec_port_key(g, output), spec_port_key(g, input)) {
        (Some(a), Some(b)) => Some((a, b)),
        _ => None,
    }
}

/// `after` is `before` with one new link between the ports two keys name,
/// which no link of `before` ran between.
pub open spec fn spec_link_added(before: Graph, after: Graph, link: Link, output: PortKey, input: PortKey) -> bool {
    &&& !before.links@.contains_key(link.id.0)
    &&& after.links@ == before.links@.insert(link.id.0, link)
    &&& after.nodes@ == before.nodes@
    &&& after.ports@ == before.ports@
    &&& !spec_keys_linked(&before, &output, &input)
    &&& spec_link_matches(&after, link, &output, &input)
}

/// `after` is `before` without one link between the ports two keys name,
/// or `before` unchanged when no link ran between them.
pub open spec fn spec_link_removed(before: Graph, after: Graph, output: PortKey, input: PortKey) -> bool {
    ||| exists|removed: Link|
        {
            &&& #[trigger] before.links@.contains_key(removed.id.0)
            &&& before.links@[removed.id.0] == removed
            &&& spec_link_matches(&before, removed, &output, &input)
            &&& after.links@ == before.links@.remove(removed.id.0)
            &&& after.nodes@ == before.nodes@
            &&& after.ports@ == before.ports@
        }
    ||| {
        &&& crate::driver::same_graph(after, before)
        &&& !spec_keys_linked(&before, &output, &input)
    }
}

/// Undoing a connect command right after it made a link takes exactly that
/// link out again: the links are as they were before the command ran.
pub proof fn lemma_connect_then_undo_restores(
    before: Graph,
    connected: Graph,
    undone: Graph,
    link: Link,
    output: PortKey,
    input: PortKey,
)
    requires
        spec_link_added(before, connected, link, output, input),
        spec_link_removed(connected, undone, output, input),
    ensures
        undone.links@ == before.links@,
        undone.nodes@ == before.nodes@,
        undone.ports@ == before.ports@,
{
    assert(connected.links@.contains_key(link.id.0));
    if exists|removed: Link|
        {
            &&& #[trigger] connected.links@.contains_key(removed.id.0)
            &&& connected.links@[removed.id.0] == removed
            &&& spec_link_matches(&connected, removed, &output, &input)
            &&& undone.links@ == connected.links@.remove(removed.id.0)
            &&& undone.nodes@ == connected.nodes@
            &&& undone.ports@ == connected.ports@
        } {
        let removed = choose|removed: Link|
            {
                &&& #[trigger] connected.links@.contains_key(removed.id.0)
                &&& connected.links@[removed.id.0] == removed
                &&& spec_link_matches(&connected, removed, &output, &input)
                &&& undone.links@ == connected.links@.remove(removed.id.0)
                &&& undone.nodes@ == connected.nodes@
                &&& undone.ports@ == connected.ports@
            };
        if removed.id.0 != link.id.0 {
            assert(before.links@.contains_key(removed.id.0));
            assert(spec_link_matches(&before, before.links@[removed.id.0], &output, &input));
            assert(spec_keys_linked(&before, &output, &input));
        }
        assert(undone.links@ =~= before.links@);
    } else {
        assert(spec_keys_linked(&connected, &output, &input));
    }
}

impl ConnectCommand {
    /// The link this command created, if its last execution made one.
    pub closed spec fn created(&self) -> Option<Link> {
        self.link
    }

    /// The endpoints this command connects, once known.
    pub closed spec fn endpoints(&self) -> Option<EndpointPair> {
        self.keys
    }

    pub closed spec fn ports(&self) -> (PortId, PortId) {
        (self.src, self.dst)
    }

    pub fn new(src: PortId, dst: PortId) -> (command: Self)
        ensures
            command.ports() == (src, dst),
            command.created() is None,
            command.endpoints() is None,
    {
        ConnectCommand { src, dst, link: None, keys: None }
    }

    /// Connect the ports two stable keys name.
    pub fn from_keys(output: PortKey, input: PortKey) -> (command: Self)
        ensures
            command.created() is None,
            command.endpoints() == Some((output, input)),
    {
        ConnectCommand { src: PortId(0), dst: PortId(0), link: None, keys: Some((output, input)) }
    }

    pub fn name(&self) -> (name: &'static str)
        ensures
            name@ == "Connect"@,
    {
        "Connect"
    }

    pub fn description(&self) -> (text: String)
        ensures
            text@ == spec_pair_description("Connect"@, self.endpoints()),
    {
        pair_description(self.name(), &self.keys)
    }

    /// What running `execute` promises, relating the command and the driver
    /// before the call to both after it.
    pub open spec fn executed<D: GraphDriver>(
        before: Self,
        after: Self,
        d0: D,
        d1: D,
        result: Result<(), CommandError>,
    ) -> bool {
        &&& d1.spec_is_static() == d0.spec_is_static()
        &&& after.ports() == before.ports()
        &&& result is Err ==> result->Err_0 is Backend
        &&& before.endpoints() is Some ==> after.endpoints() == before.endpoints()
        &&& before.endpoints() is None && d0.spec_is_static() ==> opt_pair_view(
            after.endpoints(),
        ) == spec_stable_pair(&d0.spec_graph(), before.ports().0, before.ports().1)
        &&& result is Ok ==> match after.endpoints() {
            Some(keys) => match after.created() {
                Some(link) => {
                    &&& d1.spec_graph().links@.contains_key(link.id.0)
                    &&& spec_link_matches(&d1.spec_graph(), link, &keys.0, &keys.1)
                },
                None => spec_keys_linked(&d1.spec_graph(), &keys.0, &keys.1),
            },
            None => after.created() == before.created(),
        }
        &&& d0.spec_is_static() ==> {
            ||| crate::driver::same_graph(d1.spec_graph(), d0.spec_graph())
            ||| (result is Ok && after.endpoints() is Some && after.created() is Some
                && spec_link_added(
                d0.spec_graph(),
                d1.spec_graph(),
                after.created()->Some_0,
                after.endpoints()->Some_0.0,
                after.endpoints()->Some_0.1,
            ))
        }
        &&& d0.spec_is_static() && before.endpoints() is None && spec_stable_pair(
            &d0.spec_graph(),
            before.ports().0,
            before.ports().1,
        ) is None ==> result is Ok && after == before
        &&& d0.spec_is_static() && after.endpoints() is Some && spec_keys_linked(
            &d0.spec_graph(),
            &after.endpoints()->Some_0.0,
            &after.endpoints()->Some_0.1,
        ) ==> result is Ok && after.created() is None && same_graph(d1.spec_graph(), d0.spec_graph())
        &&& d0.spec_is_static() && result is Err ==> after.endpoints() is Some && !spec_keys_linked(
            &d0.spec_graph(),
            &after.endpoints()->Some_0.0,
            &after.endpoints()->Some_0.1,
        )
        &&& d0.spec_is_static() && after.endpoints() is Some && !spec_keys_linked(
            &d0.spec_graph(),
            &after.endpoints()->Some_0.0,
            &after.endpoints()->Some_0.1,
        ) && !spec_key_resolves(&d0.spec_graph(), &after.endpoints()->Some_0.0) ==> (result matches Err(
            CommandError::Backend(BackendError::Native(m)),
        ) && m@ == spec_unavailable_message("source"@, after.endpoints()->Some_0.0))
        &&& d0.spec_is_static() && after.endpoints() is Some && !spec_keys_linked(
            &d0.spec_graph(),
            &after.endpoints()->Some_0.0,
            &after.endpoints()->Some_0.1,
        ) && spec_key_resolves(&d0.spec_graph(), &after.endpoints()->Some_0.0) && !spec_key_resolves(
            &d0.spec_graph(),
            &after.endpoints()->Some_0.1,
        ) ==> (result matches Err(CommandError::Backend(BackendError::Native(m))) && m@
            == spec_unavailable_message("destination"@, after.endpoints()->Some_0.1))
    }

    /// Connect the pair unless it is already linked. The endpoints are
    /// resolved to stable keys the first time, so a redo finds the same
    /// ports even if the backend renumbered them.
    pub fn execute<D: GraphDriver>(&mut self, driver: &mut D) -> (result: Result<(), CommandError>)
        ensures
            Self::executed(*old(self), *final(self), *old(driver), *final(driver), result),
    {
        match driver.refresh() {
            Ok(_) => {},
            Err(error) => return Err(CommandError::Backend(error)),
        }
        let keys = match &self.keys {
            Some(pair) => Some(clone_pair(pair)),
            None => stable_pair(driver.graph(), self.src, self.dst),
        };
        let (output, input) = match keys {
            Some(pair) => pair,
            None => return Ok(()),
        };
        let recorded = (output.clone(), input.clone());
        match driver.connect_by_key_if_missing(&output, &input) {
            Ok(link) => {
                self.keys = Some(recorded);
                self.link = link;
                Ok(())
            },
            Err(error) => {
                self.keys = Some(recorded);
                Err(CommandError::Backend(error))
            },
        }
    }

    /// What running `undo` promises, relating the command and the driver
    /// before the call to both after it.
    pub open spec fn undone<D: GraphDriver>(
        before: Self,
        after: Self,
        d0: D,
        d1: D,
        result: Result<(), CommandError>,
    ) -> bool {
        &&& d1.spec_is_static() == d0.spec_is_static()
        &&& after.ports() == before.ports()
        &&& after.endpoints() == before.endpoints()
        &&& before.created() is None ==> result is Ok && after.created() is None
        &&& before.created() is Some && before.endpoints() is None ==> result
            == Err::<(), CommandError>(CommandError::MissingUndoLink)
        &&& result is Ok ==> after.created() is None
        &&& result is Err ==> after.created() == before.created()
        &&& before.created() is Some && before.endpoints() is Some && result is Err
            ==> result->Err_0 is Backend
        &&& d0.spec_is_static() && before.created() is Some && result is Ok ==> match before.endpoints() {
            Some(keys) => spec_link_removed(
                d0.spec_graph(),
                d1.spec_graph(),
                keys.0,
                keys.1,
            ),
            None => false,
        }
    }

    /// Remove the link this command made, and clear any suppression of the
    /// pair. Nothing is undone for a pair that was already linked.
    pub fn undo<D: GraphDriver>(&mut self, driver: &mut D) -> (result: Result<(), CommandError>)
        ensures
            Self::undone(*old(self), *final(self), *old(driver), *final(driver), result),
    {
        if self.link.is_none() {
            return Ok(());
        }
        let keys = match &self.keys {
            Some(pair) => pair,
            None => return Err(CommandError::MissingUndoLink),
        };
        let ghost g1 = driver.spec_graph();
        match driver.disconnect_by_key_if_present(&keys.0, &keys.1) {
            Ok(removed) => {
                proof {
                    if let Some(r) = removed {
                        if old(driver).spec_is_static() {
                            assert(g1.links@.contains_key(r.id.0));
                        }
                    }
                }
            },
            Err(error) => return Err(CommandError::Backend(error)),
        }
        driver.allow_connection(&keys.0, &keys.1);
        self.link = None;
        Ok(())
    }
}

/// The stable keys of each pair of ports that resolves, in order.
pub open spec fn spec_stable_pairs(g: &Graph, pairs: Seq<(PortId, PortId)>) -> Seq<(KeyView, KeyView)>
    decreases pairs.len(),
{
    if pairs.len() == 0 {
        Seq::empty()
    } else {
        let rest = spec_stable_pairs(g, pairs.drop_last());
        match spec_stable_pair(g, pairs.last().0, pairs.last().1) {
            Some(pair) => rest.push(pair),
            None => rest,
        }
    }
}

/// `Connect group ({n} pairs)`, counting the larger of the keyed and the
/// numbered pairs.
pub open spec fn spec_group_description(keys: nat, pairs: nat) -> Seq<char> {
    "Connect group ("@ + spec_decimal_chars(if keys >= pairs { keys } else { pairs }) + " pairs)"@
}

/// `after` is `before` with exactly the links a group connect created added:
/// one fresh link per created pair, and nothing else changed.
pub open spec fn spec_group_connected(before: Graph, after: Graph, created: Seq<Link>, keys: Seq<EndpointPair>) -> bool {
    &&& after.nodes@ == before.nodes@
    &&& after.ports@ == before.ports@
    &&& after.links@ == with_links(before.links@, created)
    &&& spec_created_on(&before, created, keys)
}

/// Connects a group of compatible ports as one undoable action.
pub struct ConnectManyCommand {
    pairs: Vec<(PortId, PortId)>,
    keys: Vec<EndpointPair>,
    links: Vec<Link>,
    created_keys: Vec<EndpointPair>,
}

impl ConnectManyCommand {
    /// The pairs this command connects, once known.
    pub closed spec fn endpoints(&self) -> Seq<EndpointPair> {
        self.keys@
    }

    /// The pairs its last execution created (the others were already linked).
    pub closed spec fn created(&self) -> Seq<EndpointPair> {
        self.created_keys@
    }

    pub closed spec fn created_links(&self) -> Seq<Link> {
        self.links@
    }

    pub closed spec fn port_pairs(&self) -> Seq<(PortId, PortId)> {
        self.pairs@
    }

    pub fn new(pairs: Vec<(PortId, PortId)>) -> (command: Self)
        ensures
            command.port_pairs() == pairs@,
            command.endpoints().len() == 0,
            command.created().len() == 0,
            command.created_links().len() == 0,
    {
        ConnectManyCommand { pairs, keys: Vec::new(), links: Vec::new(), created_keys: Vec::new() }
    }

    /// A group given by stable keys; repeated pairs are kept once.
    pub fn with_keys(pairs: Vec<(PortId, PortId)>, keys: Vec<EndpointPair>) -> (command: Self)
        ensures
            command.port_pairs() == pairs@,
            pairs_view(command.endpoints()) == spec_dedup(pairs_view(keys@)),
            command.created().len() == 0,
            command.created_links().len() == 0,
    {
        let keys = dedup_pairs(keys);
        ConnectManyCommand { pairs, keys, links: Vec::new(), created_keys: Vec::new() }
    }

    pub fn name(&self) -> (name: &'static str)
        ensures
            name@ == "Connect group"@,
    {
        "Connect group"
    }

    /// `Connect group ({n} pairs)`, counting the larger of the keyed and the
    /// numbered pairs.
    pub fn description(&self) -> (text: String)
        ensures
            text@ == spec_group_description(self.endpoints().len(), self.port_pairs().len()),
    {
        let count = if self.keys.len() >= self.pairs.len() {
            self.keys.len()
        } else {
            self.pairs.len()
        };
        let mut t: Vec<char> = Vec::new();
        append_str(&mut t, "Connect group (");
        let digits = decimal_chars(count as u64);
        append_chars(&mut t, digits.as_slice());
        append_str(&mut t, " pairs)");
        string_from_chars(t.as_slice())
    }

    /// What running `execute` promises, relating the command and the driver
    /// before the call to both after it.
    pub open spec fn executed<D: GraphDriver>(
        before: Self,
        after: Self,
        d0: D,
        d1: D,
        result: Result<(), CommandError>,
    ) -> bool {
        &&& d1.spec_is_static() == d0.spec_is_static()
        &&& d0.spec_is_static() && result is Err ==> exists|j: int|
            0 <= j < after.endpoints().len() && !spec_keys_linked(
                &d0.spec_graph(),
                &(#[trigger] after.endpoints()[j]).0,
                &after.endpoints()[j].1,
            )
        &&& d0.spec_is_static() && result is Ok ==> spec_group_connected(
            d0.spec_graph(),
            d1.spec_graph(),
            after.created_links(),
            after.created(),
        )
        &&& after.port_pairs() == before.port_pairs()
        &&& before.endpoints().len() > 0 ==> after.endpoints() == before.endpoints()
        &&& before.endpoints().len() == 0 && d0.spec_is_static() && result is Ok
            ==> pairs_view(after.endpoints()) == spec_dedup(
            spec_stable_pairs(&d0.spec_graph(), before.port_pairs()),
        )
        &&& d0.spec_is_static() && result is Err ==> {
            &&& d1.spec_graph().nodes@ == d0.spec_graph().nodes@
            &&& d1.spec_graph().ports@ == d0.spec_graph().ports@
            &&& ((result matches Err(CommandError::Backend(_))) <==> d1.spec_graph().links@
                == d0.spec_graph().links@)
        }
        &&& d0.spec_is_static() ==> match result {
            Err(CommandError::PartiallyApplied { stranded, .. }) => spec_links_added(
                d0.spec_graph().links@,
                d1.spec_graph().links@,
                stranded as nat,
            ),
            _ => true,
        }
        &&& match result {
            Ok(()) => {
                &&& after.created().len() == after.created_links().len()
                &&& forall|j: int|
                    0 <= j < after.created().len() ==> pairs_view(after.endpoints()).contains(
                        #[trigger] pairs_view(after.created())[j],
                    )
            },
            Err(error) => {
                &&& after.created().len() == 0
                &&& after.created_links().len() == 0
                &&& (error is Backend || (error matches CommandError::PartiallyApplied {
                    operation,
                    stranded,
                    ..
                } && operation@ == "Connect group"@ && stranded > 0))
            },
        }
    }

    /// Connect every pair that is not already linked. All or nothing: when
    /// one pair fails, every link this execution created is removed again,
    /// and only a removal that also fails is reported as partial.
    pub fn execute<D: GraphDriver>(&mut self, driver: &mut D) -> (result: Result<(), CommandError>)
        ensures
            Self::executed(*old(self), *final(self), *old(driver), *final(driver), result),
    {
        match driver.refresh() {
            Ok(_) => {},
            Err(error) => {
                self.links = Vec::new();
                self.created_keys = Vec::new();
                return Err(CommandError::Backend(error));
            },
        }
        if self.keys.len() == 0 {
            let ghost g = driver.spec_graph();
            let mut collected: Vec<EndpointPair> = Vec::new();
            let mut i: usize = 0;
            assert(self.pairs@.subrange(0, 0) =~= Seq::<(PortId, PortId)>::empty());
            while i < self.pairs.len()
                invariant
                    i <= self.pairs@.len(),
                    g == driver.spec_graph(),
                    pairs_view(collected@) == spec_stable_pairs(&g, self.pairs@.subrange(0, i as int)),
                decreases self.pairs@.len() - i,
            {
                let (src, dst) = self.pairs[i];
                let ghost prefix = self.pairs@.subrange(0, i + 1);
                assert(prefix.drop_last() =~= self.pairs@.subrange(0, i as int));
                match stable_pair(driver.graph(), src, dst) {
                    Some(pair) => {
                        let ghost before = collected@;
                        collected.push(pair);
                        assert(pairs_view(collected@) =~= pairs_view(before).push(pair_view(pair)));
                    },
                    None => {},
                }
                i = i + 1;
            }
            assert(self.pairs@.subrange(0, self.pairs@.len() as int) =~= self.pairs@);
            self.keys = dedup_pairs(collected);
        }
        self.links = Vec::new();
        self.created_keys = Vec::new();
        let ghost key_views = pairs_view(self.keys@);
        let ghost start = driver.spec_graph();
        let ghost stat = driver.spec_is_static();
        let mut i: usize = 0;
        proof {
            assert(with_links(start.links@, self.links@) == start.links@);
        }
        while i < self.keys.len()
            invariant
                stat == old(driver).spec_is_static(),
                stat ==> start == old(driver).spec_graph(),
                stat ==> {
                    &&& driver.spec_graph().nodes@ == start.nodes@
                    &&& driver.spec_graph().ports@ == start.ports@
                    &&& driver.spec_graph().links@ == with_links(start.links@, self.links@)
                    &&& spec_created_on(&start, self.links@, self.created_keys@)
                },
                i <= self.keys@.len(),
                key_views == pairs_view(self.keys@),
                self.links@.len() == self.created_keys@.len(),
                forall|j: int|
                    0 <= j < self.created_keys@.len() ==> key_views.contains(
                        #[trigger] pairs_view(self.created_keys@)[j],
                    ),
                driver.spec_is_static() == old(driver).spec_is_static(),
                self.pairs@ == old(self).pairs@,
                old(self).keys@.len() > 0 ==> self.keys@ == old(self).keys@,
                old(self).keys@.len() == 0 && old(driver).spec_is_static() ==> pairs_view(self.keys@)
                    == spec_dedup(spec_stable_pairs(&old(driver).spec_graph(), old(self).pairs@)),
            decreases self.keys@.len() - i,
        {
            let pair = clone_pair(&self.keys[i]);
            let ghost pre = driver.spec_graph();
            match driver.connect_by_key_if_missing(&pair.0, &pair.1) {
                Ok(Some(link)) => {
                    proof {
                        if stat {
                            lemma_created_on_push(start, self.links@, self.created_keys@, pre, link, pair);
                        }
                    }
                    self.links.push(link);
                    let ghost before = self.created_keys@;
                    self.created_keys.push(pair);
                    proof {
                        assert(key_views[i as int] == pair_view(pair));
                        assert forall|j: int| 0 <= j < self.created_keys@.len() implies key_views.contains(
                            #[trigger] pairs_view(self.created_keys@)[j],
                        ) by {
                            if j < before.len() {
                                assert(pairs_view(self.created_keys@)[j] == pairs_view(before)[j]);
                            }
                        }
                    }
                },
                Ok(None) => {},
                Err(error) => {
                    proof {
                        if stat {
                            assert(!spec_keys_linked(&start, &self.keys@[i as int].0, &self.keys@[i as int].1)) by {
                                if spec_keys_linked(&start, &self.keys@[i as int].0, &self.keys@[i as int].1) {
                                    assert forall|k: u64| #[trigger] start.links@.contains_key(k) implies pre.links@.contains_key(k)
                                        && pre.links@[k] == start.links@[k] by {
                                        assert forall|m: int| 0 <= m < self.links@.len() implies self.links@[m].id.0 != k by {
                                            assert(!start.links@.contains_key(self.links@[m].id.0));
                                        }
                                        lemma_with_links_keeps(start.links@, self.links@, k);
                                    }
                                    lemma_linked_kept(start, pre, pair);
                                }
                            }
                        }
                    }
                    let stranded = rollback_connects(
                        driver,
                        self.created_keys.as_slice(),
                        Ghost(start),
                        Ghost(self.links@),
                    );
                    proof {
                        if stat {
                            lemma_links_added_unchanged(start.links@, driver.spec_graph().links@, stranded as nat);
                        }
                    }
                    self.links = Vec::new();
                    self.created_keys = Vec::new();
                    assert(self.endpoints()[i as int] == self.keys@[i as int]);
                    return Err(group_failure("Connect group", error, stranded));
                },
            }
            i = i + 1;
        }
        Ok(())
    }

    /// What running `undo` promises, relating the command and the driver
    /// before the call to both after it.
    pub open spec fn undone<D: GraphDriver>(
        before: Self,
        after: Self,
        d0: D,
        d1: D,
        result: Result<(), CommandError>,
    ) -> bool {
        &&& d1.spec_is_static() == d0.spec_is_static()
        &&& d0.spec_is_static() && result is Ok ==> forall|start: Graph|
            #[trigger] spec_group_connected(start, d0.spec_graph(), before.created_links(), before.created())
                ==> {
                &&& d1.spec_graph().nodes@ == start.nodes@
                &&& d1.spec_graph().ports@ == start.ports@
                &&& d1.spec_graph().links@ == start.links@
            }
        &&& after.port_pairs() == before.port_pairs()
        &&& after.endpoints() == before.endpoints()
        &&& match result {
            Ok(()) => after.created().len() == 0 && after.created_links().len() == 0,
            Err(error) => {
                &&& after.created() == before.created()
                &&& after.created_links() == before.created_links()
                &&& (error is Backend || (error matches CommandError::PartiallyApplied {
                    operation,
                    stranded,
                    ..
                } && operation@ == "Connect group undo"@ && 0 < stranded <= before.created().len()))
            },
        }
        &&& d0.spec_is_static() && (result matches Err(CommandError::Backend(_))) ==> {
            &&& d1.spec_graph().nodes@ == d0.spec_graph().nodes@
            &&& d1.spec_graph().ports@ == d0.spec_graph().ports@
            &&& forall|j: int|
                0 <= j < before.created().len() && spec_keys_linked(
                    &d0.spec_graph(),
                    &(#[trigger] before.created()[j]).0,
                    &before.created()[j].1,
                ) ==> spec_keys_linked(
                    &d1.spec_graph(),
                    &before.created()[j].0,
                    &before.created()[j].1,
                )
        }
    }

    /// Remove the links this command created, newest first. When a removal
    /// fails, the links already removed are reconnected and the command is
    /// left as it was, so the undo can be retried.
    pub fn undo<D: GraphDriver>(&mut self, driver: &mut D) -> (result: Result<(), CommandError>)
        ensures
            Self::undone(*old(self), *final(self), *old(driver), *final(driver), result),
    {
        let ghost stat = driver.spec_is_static();
        let ghost g0 = driver.spec_graph();
        let ghost keys = self.created_keys@;
        let ghost made = self.links@;
        let mut disconnected: Vec<EndpointPair> = Vec::new();
        let mut i: usize = self.created_keys.len();
        proof {
            assert forall|start: Graph| #[trigger] spec_group_connected(start, g0, made, keys) implies g0.links@
                == with_links(start.links@, made.subrange(0, keys.len() as int)) by {
                assert(made.subrange(0, keys.len() as int) =~= made);
            }
        }
        while i > 0
            invariant
                i <= self.created_keys@.len(),
                made == self.links@,
                stat ==> forall|start: Graph|
                    #[trigger] spec_group_connected(start, g0, made, keys) ==> {
                        &&& driver.spec_graph().nodes@ == start.nodes@
                        &&& driver.spec_graph().ports@ == start.ports@
                        &&& driver.spec_graph().links@ == with_links(start.links@, made.subrange(0, i as int))
                    },
                disconnected@.len() + i <= self.created_keys@.len(),
                self == old(self),
                keys == self.created_keys@,
                stat == old(driver).spec_is_static(),
                g0 == old(driver).spec_graph(),
                driver.spec_is_static() == old(driver).spec_is_static(),
                stat ==> {
                    &&& driver.spec_graph().nodes@ == g0.nodes@
                    &&& driver.spec_graph().ports@ == g0.ports@
                    &&& forall|j: int|
                        0 <= j < keys.len() && spec_keys_linked(&g0, &(#[trigger] keys[j]).0, &keys[j].1)
                            ==> spec_keys_linked(&driver.spec_graph(), &keys[j].0, &keys[j].1) || exists|m: int|
                            0 <= m < disconnected@.len() && pairs_compatible(disconnected@[m], keys[j])
                },
            decreases i,
        {
            i = i - 1;
            let pair = &self.created_keys[i];
            let ghost gb = driver.spec_graph();
            match driver.disconnect_by_key_if_present_without_suppression(&pair.0, &pair.1) {
                Ok(Some(link)) => {
                    let ghost gm = driver.spec_graph();
                    proof {
                        if stat {
                            assert forall|start: Graph| #[trigger] spec_group_connected(start, g0, made, keys) implies gm.links@
                                == with_links(start.links@, made.subrange(0, i as int)) by {
                                let prefix = made.subrange(0, i + 1);
                                lemma_removed_is_newest(start, made, keys, i as int, gb, link);
                                lemma_with_links_remove_last(start.links@, prefix);
                                assert(prefix.drop_last() =~= made.subrange(0, i as int));
                            }
                        }
                    }
                    driver.allow_connection(&pair.0, &pair.1);
                    let copy = clone_pair(pair);
                    let ghost before = disconnected@;
                    disconnected.push(copy);
                    proof {
                        if stat {
                            let ga = driver.spec_graph();
                            assert forall|j: int|
                                0 <= j < keys.len() && spec_keys_linked(&g0, &(#[trigger] keys[j]).0, &keys[j].1)
                                    implies spec_keys_linked(&ga, &keys[j].0, &keys[j].1) || exists|m: int|
                                    0 <= m < disconnected@.len() && pairs_compatible(disconnected@[m], keys[j]) by {
                                if exists|m: int| 0 <= m < before.len() && pairs_compatible(before[m], keys[j]) {
                                    let m = choose|m: int| 0 <= m < before.len() && pairs_compatible(before[m], keys[j]);
                                    assert(disconnected@[m] == before[m]);
                                } else {
                                    assert(spec_keys_linked(&gb, &keys[j].0, &keys[j].1));
                                    let k = choose|k: u64| #[trigger] gb.links@.contains_key(k) && spec_link_matches(
                                        &gb,
                                        gb.links@[k],
                                        &keys[j].0,
                                        &keys[j].1,
                                    );
                                    if k != link.id.0 {
                                        assert(ga.links@.contains_key(k) && ga.links@[k] == gb.links@[k]);
                                    } else {
                                        assert(disconnected@[before.len() as int] == copy);
                                        assert(pairs_compatible(copy, keys[j]));
                                    }
                                }
                            }
                        }
                    }
                },
                Ok(None) => {
                    proof {
                        if stat {
                            assert forall|start: Graph| #[trigger] spec_group_connected(start, g0, made, keys) implies false by {
                                lemma_newest_is_linked(start, made, keys, i as int, gb);
                            }
                        }
                    }
                },
                Err(error) => {
                    let ghost ge = driver.spec_graph();
                    let mut rollback_errors: Vec<String> = Vec::new();
                    let mut j: usize = disconnected.len();
                    while j > 0
                        invariant
                            j <= disconnected@.len(),
                            rollback_errors@.len() + j <= disconnected@.len(),
                            driver.spec_is_static() == old(driver).spec_is_static(),
                            stat == old(driver).spec_is_static(),
                            stat && rollback_errors@.len() == 0 ==> {
                                &&& driver.spec_graph().nodes@ == ge.nodes@
                                &&& driver.spec_graph().ports@ == ge.ports@
                                &&& links_kept(ge.links@, driver.spec_graph().links@)
                                &&& forall|m: int|
                                    j <= m < disconnected@.len() ==> spec_keys_linked(
                                        &driver.spec_graph(),
                                        &(#[trigger] disconnected@[m]).0,
                                        &disconnected@[m].1,
                                    )
                            },
                        decreases j,
                    {
                        j = j - 1;
                        let undone = &disconnected[j];
                        let ghost before = driver.spec_graph();
                        let outcome = driver.connect_by_key_if_missing(&undone.0, &undone.1);
                        proof {
                            if stat && rollback_errors@.len() == 0 && outcome is Ok {
                                let after = driver.spec_graph();
                                assert(links_kept(before.links@, after.links@));
                                assert forall|m: int| j + 1 <= m < disconnected@.len() implies spec_keys_linked(
                                    &after,
                                    &(#[trigger] disconnected@[m]).0,
                                    &disconnected@[m].1,
                                ) by {
                                    lemma_linked_kept(before, after, disconnected@[m]);
                                }
                                if let Ok(Some(made)) = outcome {
                                    assert(after.links@.contains_key(made.id.0));
                                }
                            }
                        }
                        match outcome {
                            Ok(_) => {},
                            Err(restore) => rollback_errors.push(restore.message()),
                        }
                    }
                    proof {
                        if stat && rollback_errors@.len() == 0 {
                            let gf = driver.spec_graph();
                            assert forall|k: int|
                                0 <= k < keys.len() && spec_keys_linked(&g0, &(#[trigger] keys[k]).0, &keys[k].1)
                                    implies spec_keys_linked(&gf, &keys[k].0, &keys[k].1) by {
                                if spec_keys_linked(&ge, &keys[k].0, &keys[k].1) {
                                    lemma_linked_kept(ge, gf, keys[k]);
                                } else {
                                    let m = choose|m: int|
                                        0 <= m < disconnected@.len() && pairs_compatible(disconnected@[m], keys[k]);
                                    assert(spec_keys_linked(&gf, &disconnected@[m].0, &disconnected@[m].1));
                                    lemma_linked_compatible(gf, disconnected@[m], keys[k]);
                                }
                            }
                        }
                    }
                    if rollback_errors.len() == 0 {
                        return Err(CommandError::Backend(error));
                    }
                    let mut t: Vec<char> = Vec::new();
                    let first = error.message();
                    append_str(&mut t, first.as_str());
                    append_str(&mut t, "; reconnecting undone links failed: ");
                    let rest = join(&rollback_errors, "; ");
                    append_str(&mut t, rest.as_str());
                    return Err(
                        CommandError::PartiallyApplied {
                            operation: "Connect group undo",
                            cause: string_from_chars(t.as_slice()),
                            stranded: rollback_errors.len(),
                        },
                    );
                },
            }
        }
        proof {
            assert(made.subrange(0, 0) =~= Seq::<Link>::empty());
        }
        self.links = Vec::new();
        self.created_keys = Vec::new();
        Ok(())
    }
}

/// Undoing a group connect right after it ran takes out exactly the links it
/// made: nodes, ports and links are as they were before the group was
/// connected. This holds on a driver whose graph only it changes.
pub proof fn lemma_connect_group_then_undo_restores<D: GraphDriver>(
    c0: ConnectManyCommand,
    c1: ConnectManyCommand,
    c2: ConnectManyCommand,
    d0: D,
    d1: D,
    d2: D,
)
    requires
        ConnectManyCommand::executed(c0, c1, d0, d1, Ok(())),
        ConnectManyCommand::undone(c1, c2, d1, d2, Ok(())),
        d0.spec_is_static(),
    ensures
        d2.spec_graph().links@ == d0.spec_graph().links@,
        d2.spec_graph().nodes@ == d0.spec_graph().nodes@,
        d2.spec_graph().ports@ == d0.spec_graph().ports@,
{
    assert(spec_group_connected(d0.spec_graph(), d1.spec_graph(), c1.created_links(), c1.created()));
}

/// Recording one more created link keeps the record of a group connect.
proof fn lemma_created_on_push(
    start: Graph,
    created: Seq<Link>,
    keys: Seq<EndpointPair>,
    pre: Graph,
    link: Link,
    pair: EndpointPair,
)
    requires
        spec_created_on(&start, created, keys),
        pre.nodes@ == start.nodes@,
        pre.ports@ == start.ports@,
        pre.links@ == with_links(start.links@, created),
        !pre.links@.contains_key(link.id.0),
        !spec_keys_linked(&pre, &pair.0, &pair.1),
        spec_link_matches(&start, link, &pair.0, &pair.1),
    ensures
        spec_created_on(&start, created.push(link), keys.push(pair)),
        with_links(start.links@, created.push(link)) == pre.links@.insert(link.id.0, link),
{
    lemma_with_links(start.links@, created);
    let c2 = created.push(link);
    let k2 = keys.push(pair);
    assert(c2.drop_last() =~= created);
    assert(!start.links@.contains_key(link.id.0)) by {
        if start.links@.contains_key(link.id.0) {
            if forall|i: int| 0 <= i < created.len() ==> created[i].id.0 != link.id.0 {
                assert(pre.links@.contains_key(link.id.0));
            } else {
                let i = choose|i: int| 0 <= i < created.len() && !(created[i].id.0 != link.id.0);
                assert(pre.links@.contains_key(created[i].id.0));
            }
        }
    }
    assert forall|i: int| 0 <= i < created.len() implies created[i].id != link.id by {
        assert(pre.links@.contains_key(created[i].id.0));
    }
    assert(!spec_keys_linked(&start, &pair.0, &pair.1)) by {
        if spec_keys_linked(&start, &pair.0, &pair.1) {
            let k = choose|k: u64| #[trigger] start.links@.contains_key(k) && spec_link_matches(
                &start,
                start.links@[k],
                &pair.0,
                &pair.1,
            );
            assert forall|i: int| 0 <= i < created.len() implies created[i].id.0 != k by {
                assert(!start.links@.contains_key(created[i].id.0));
            }
            crate::command::transaction::lemma_with_links_keeps(start.links@, created, k);
            assert(pre.links@.contains_key(k) && pre.links@[k] == start.links@[k]);
        }
    }
    assert forall|j: int| 0 <= j < created.len() implies !spec_link_matches(
        &start,
        created[j],
        &pair.0,
        &pair.1,
    ) by {
        assert(pre.links@.contains_key(created[j].id.0) && pre.links@[created[j].id.0] == created[j]);
    }
    assert forall|i: int| 0 <= i < c2.len() implies !start.links@.contains_key(#[trigger] c2[i].id.0) by {
        if i < created.len() {
            assert(c2[i] == created[i]);
        }
    }
    assert forall|i: int, j: int| 0 <= i < j < c2.len() implies c2[i].id != c2[j].id by {
        if j < created.len() {
            assert(c2[i] == created[i] && c2[j] == created[j]);
        } else {
            assert(c2[i] == created[i]);
        }
    }
    assert forall|i: int| 0 <= i < c2.len() implies spec_link_matches(&start, #[trigger] c2[i], &k2[i].0, &k2[i].1) by {
        if i < created.len() {
            assert(c2[i] == created[i] && k2[i] == keys[i]);
        }
    }
    assert forall|i: int| 0 <= i < c2.len() implies !spec_keys_linked(&start, &(#[trigger] k2[i]).0, &k2[i].1) by {
        if i < created.len() {
            assert(k2[i] == keys[i]);
        }
    }
    assert forall|i: int, j: int| 0 <= j < i < c2.len() implies !spec_link_matches(
        &start,
        #[trigger] c2[j],
        &(#[trigger] k2[i]).0,
        &k2[i].1,
    ) by {
        assert(c2[j] == created[j]);
        if i < created.len() {
            assert(k2[i] == keys[i]);
        } else {
            assert(k2[i] == pair);
        }
    }
}

} // verus!
