//! Removing links: one, a chosen set, or every mutable link.

use vstd::prelude::*;
use crate::command::connect::spec_stable_pair;
use crate::command::error::CommandError;
use crate::command::transaction::{
    spec_sole_link, spec_sole_wherever_matched, lemma_matching_pairs_compatible, clone_pair, disconnect_keys, lemma_linked_compatible, lemma_linked_kept, links_kept,
    pair_description, pair_view, pairs_compatible, pairs_view, restore_keys, spec_pair_description, stable_pair,
    EndpointPair,
};
use crate::driver::{same_graph, GraphDriver};
use crate::graph::{spec_keys_linked, spec_link_matches, spec_port_key, Graph, KeyView, Link};
use crate::id_map::{lemma_seq_map_index, Keyed};
use crate::ids::LinkId;
use crate::text::{append_chars, append_str, decimal_chars, spec_decimal_chars, string_from_chars};

verus! {

/// `{name} ({count} links)`.
pub open spec fn spec_count_description(name: Seq<char>, count: nat) -> Seq<char> {
    name + " ("@ + spec_decimal_chars(count) + " links)"@
}

fn count_description(name: &str, count: usize) -> (text: String)
    ensures
        text@ == spec_count_description(name@, count as nat),
{
    let mut t: Vec<char> = Vec::new();
    append_str(&mut t, name);
    append_str(&mut t, " (");
    let digits = decimal_chars(count as u64);
    append_chars(&mut t, digits.as_slice());
    append_str(&mut t, " links)");
    string_from_chars(t.as_slice())
}

/// Remove one link, remembered by its endpoints so undo can recreate it.
pub struct DisconnectCommand {
    link: Option<Link>,
    link_id: LinkId,
    keys: Option<EndpointPair>,
    removed: bool,
}

impl DisconnectCommand {
    pub closed spec fn endpoints(&self) -> Option<EndpointPair> {
        self.keys
    }

    /// Whether the last execution removed a link (and undo has not yet put
    /// it back).
    pub closed spec fn is_removed(&self) -> bool {
        self.removed
    }

    pub closed spec fn target(&self) -> LinkId {
        self.link_id
    }

    pub closed spec fn last_link(&self) -> Option<Link> {
        self.link
    }

    pub fn new(link_id: LinkId) -> (command: Self)
        ensures
            command.target() == link_id,
            command.endpoints() is None,
            !command.is_removed(),
    {
        DisconnectCommand { link: None, link_id, keys: None, removed: false }
    }

    /// Disconnect a link whose endpoints are known from `graph`.
    pub fn from_link(graph: &Graph, link: Link) -> (command: Self)
        ensures
            command.target() == link.id,
            command.last_link() == Some(link),
            !command.is_removed(),
    {
        let keys = stable_pair(graph, link.output_port, link.input_port);
        DisconnectCommand { link_id: link.id, keys, link: Some(link), removed: false }
    }

    pub fn name(&self) -> (name: &'static str)
        ensures
            name@ == "Disconnect"@,
    {
        "Disconnect"
    }

    pub fn description(&self) -> (text: String)
        ensures
            text@ == spec_pair_description("Disconnect"@, self.endpoints()),
    {
        pair_description(self.name(), &self.keys)
    }

    /// What running `execute` promises, relating the command and the driver
    /// before the call to both after it.
    pub open spec fn executed<D: GraphDriver>(
        before: Self,
        after: Self,
        d0: D,
        d1: D,
        result: Result<(), CommandError>,
    ) -> bool {
        &&& d1.spec_is_static() == d0.spec_is_static()
        &&& before.endpoints() is Some ==> after.endpoints() == before.endpoints()
        &&& result is Err ==> result->Err_0 is Backend && !after.is_removed()
        &&& after.is_removed() ==> {
            &&& after.endpoints() is Some
            &&& after.last_link() matches Some(link)
            &&& link.id == after.target()
            &&& !d1.spec_graph().links@.contains_key(link.id.0)
        }
        &&& d0.spec_is_static() && !after.is_removed() ==> same_graph(d1.spec_graph(), d0.spec_graph())
        &&& d0.spec_is_static() && after.is_removed() ==> ({
            let link = after.last_link()->Some_0;
            &&& d0.spec_graph().links@.contains_key(link.id.0)
            &&& d0.spec_graph().links@[link.id.0] == link
            &&& spec_link_matches(&d0.spec_graph(), link, &after.endpoints()->Some_0.0, &after.endpoints()->Some_0.1)
            &&& d1.spec_graph().links@ == d0.spec_graph().links@.remove(link.id.0)
            &&& d1.spec_graph().nodes@ == d0.spec_graph().nodes@
            &&& d1.spec_graph().ports@ == d0.spec_graph().ports@
        })
        &&& d0.spec_is_static() && result is Ok && after.endpoints() is Some && spec_keys_linked(
            &d0.spec_graph(),
            &after.endpoints()->Some_0.0,
            &after.endpoints()->Some_0.1,
        ) && (forall|k: u64|
            #[trigger] d0.spec_graph().links@.contains_key(k) && spec_link_matches(
                &d0.spec_graph(),
                d0.spec_graph().links@[k],
                &after.endpoints()->Some_0.0,
                &after.endpoints()->Some_0.1,
            ) ==> d0.spec_link_mutable(LinkId(k))) ==> after.is_removed()
    }

    /// Remove the link between the recorded endpoints, unless the backend
    /// only observes it.
    pub fn execute<D: GraphDriver>(&mut self, driver: &mut D) -> (result: Result<(), CommandError>)
        ensures
            Self::executed(*old(self), *final(self), *old(driver), *final(driver), result),
    {
        self.removed = false;
        match driver.refresh() {
            Ok(_) => {},
            Err(error) => return Err(CommandError::Backend(error)),
        }
        if self.keys.is_none() {
            self.keys = match driver.graph().link(self.link_id) {
                Some(link) => stable_pair(driver.graph(), link.output_port, link.input_port),
                None => None,
            };
        }
        let pair = match &self.keys {
            Some(pair) => clone_pair(pair),
            None => return Ok(()),
        };
        match driver.graph().find_link_by_keys(&pair.0, &pair.1) {
            Some(link) => {
                if !driver.is_link_mutable(link.id) {
                    return Ok(());
                }
            },
            None => {},
        }
        match driver.disconnect_by_key_if_present(&pair.0, &pair.1) {
            Ok(Some(link)) => {
                self.link_id = link.id;
                self.link = Some(link);
                self.removed = true;
                Ok(())
            },
            Ok(None) => Ok(()),
            Err(error) => Err(CommandError::Backend(error)),
        }
    }

    /// What running `undo` promises, relating the command and the driver
    /// before the call to both after it.
    pub open spec fn undone<D: GraphDriver>(
        before: Self,
        after: Self,
        d0: D,
        d1: D,
        result: Result<(), CommandError>,
    ) -> bool {
        &&& d1.spec_is_static() == d0.spec_is_static()
        &&& after.endpoints() == before.endpoints()
        &&& !before.is_removed() ==> result is Ok && !after.is_removed()
        &&& before.is_removed() && before.endpoints() is None ==> result
            == Err::<(), CommandError>(CommandError::MissingUndoLink)
        &&& result is Ok ==> !after.is_removed()
        &&& result is Err ==> after.is_removed() == before.is_removed()
        &&& result is Ok && before.is_removed() ==> match after.endpoints() {
            Some(keys) => spec_keys_linked(&d1.spec_graph(), &keys.0, &keys.1),
            None => false,
        }
        &&& !before.is_removed() ==> d1 == d0
        &&& d0.spec_is_static() ==> {
            &&& d1.spec_graph().nodes@ == d0.spec_graph().nodes@
            &&& d1.spec_graph().ports@ == d0.spec_graph().ports@
            &&& links_kept(d0.spec_graph().links@, d1.spec_graph().links@)
        }
    }

    /// Reconnect the endpoints if this command removed their link.
    pub fn undo<D: GraphDriver>(&mut self, driver: &mut D) -> (result: Result<(), CommandError>)
        ensures
            Self::undone(*old(self), *final(self), *old(driver), *final(driver), result),
    {
        if !self.removed {
            return Ok(());
        }
        let pair = match &self.keys {
            Some(pair) => clone_pair(pair),
            None => return Err(CommandError::MissingUndoLink),
        };
        match driver.connect_by_key_if_missing(&pair.0, &pair.1) {
            Ok(Some(restored)) => {
                self.link_id = restored.id;
                self.link = Some(restored);
            },
            Ok(None) => {
                match driver.graph().find_link_by_keys(&pair.0, &pair.1) {
                    Some(restored) => {
                        self.link_id = restored.id;
                        self.link = Some(restored);
                    },
                    None => {},
                }
            },
            Err(error) => return Err(CommandError::Backend(error)),
        }
        self.removed = false;
        Ok(())
    }
}

/// The stable key pairs of the chosen links that the graph holds, in order.
pub open spec fn spec_target_pairs(g: &Graph, targets: Seq<LinkId>) -> Seq<(KeyView, KeyView)>
    decreases targets.len(),
{
    if targets.len() == 0 {
        Seq::empty()
    } else {
        let rest = spec_target_pairs(g, targets.drop_last());
        let id = targets.last().0;
        if g.links@.contains_key(id) {
            match spec_stable_pair(g, g.links@[id].output_port, g.links@[id].input_port) {
                Some(pair) => rest.push(pair),
                None => rest,
            }
        } else {
            rest
        }
    }
}

/// What a group disconnect that succeeded did on a static driver: a chosen
/// pair whose one link was user-mutable is no longer linked, and was
/// recorded as removed under a compatible pair.
pub open spec fn spec_group_disconnected(
    chosen: Seq<EndpointPair>,
    removed: Seq<EndpointPair>,
    g0: Graph,
    g1: Graph,
    mutable: spec_fn(u64) -> bool,
) -> bool {
    &&& forall|k: u64|
        #[trigger] g1.links@.contains_key(k) ==> g0.links@.contains_key(k) && g1.links@[k] == g0.links@[k]
    &&& forall|j: int, k: u64|
        0 <= j < chosen.len() && #[trigger] spec_sole_link(&g0, chosen[j], k) && mutable(k) ==> {
            &&& !spec_keys_linked(&g1, &chosen[j].0, &chosen[j].1)
            &&& exists|m: int| 0 <= m < removed.len() && pairs_compatible(removed[m], chosen[j])
        }
}

/// Both ends of link `k` have stable keys.
pub open spec fn spec_keyed_link(g: &Graph, k: u64) -> bool {
    &&& spec_port_key(g, g.links@[k].output_port) is Some
    &&& spec_port_key(g, g.links@[k].input_port) is Some
}

/// The facts a group disconnect records give what it promises.
proof fn lemma_group_disconnected(
    chosen: Seq<EndpointPair>,
    removed: Seq<EndpointPair>,
    g0: Graph,
    g1: Graph,
    mutable: spec_fn(u64) -> bool,
)
    requires
        g1.nodes@ == g0.nodes@,
        g1.ports@ == g0.ports@,
        forall|k: u64|
            #[trigger] g1.links@.contains_key(k) ==> g0.links@.contains_key(k) && g1.links@[k] == g0.links@[k],
        forall|k: u64|
            #[trigger] g0.links@.contains_key(k) && !g1.links@.contains_key(k) ==> exists|m: int|
                0 <= m < removed.len() && spec_link_matches(&g0, g0.links@[k], &removed[m].0, &removed[m].1),
        forall|j: int, k: u64|
            0 <= j < chosen.len() && #[trigger] spec_sole_link(&g0, chosen[j], k) && mutable(k)
                ==> !g1.links@.contains_key(k),
    ensures
        spec_group_disconnected(chosen, removed, g0, g1, mutable),
{
    assert forall|j: int, k: u64|
        0 <= j < chosen.len() && #[trigger] spec_sole_link(&g0, chosen[j], k) && mutable(k) implies {
            &&& !spec_keys_linked(&g1, &chosen[j].0, &chosen[j].1)
            &&& exists|m: int| 0 <= m < removed.len() && pairs_compatible(removed[m], chosen[j])
        } by {
        if spec_keys_linked(&g1, &chosen[j].0, &chosen[j].1) {
            let k2 = choose|k2: u64| #[trigger] g1.links@.contains_key(k2) && spec_link_matches(&g1, g1.links@[k2], &chosen[j].0, &chosen[j].1);
            assert(g0.links@.contains_key(k2) && spec_link_matches(&g0, g0.links@[k2], &chosen[j].0, &chosen[j].1));
        }
        let m = choose|m: int| 0 <= m < removed.len() && spec_link_matches(&g0, g0.links@[k], &removed[m].0, &removed[m].1);
        lemma_matching_pairs_compatible(&g0, g0.links@[k], removed[m], chosen[j]);
    }
}

/// Disconnect a chosen set of links as one undoable operation.
pub struct DisconnectManyCommand {
    link_ids: Vec<LinkId>,
    keys: Vec<EndpointPair>,
    removed_keys: Vec<EndpointPair>,
    links: Vec<Link>,
}

impl DisconnectManyCommand {
    pub closed spec fn endpoints(&self) -> Seq<EndpointPair> {
        self.keys@
    }

    /// The pairs the last execution actually removed.
    pub closed spec fn removed(&self) -> Seq<EndpointPair> {
        self.removed_keys@
    }

    pub closed spec fn targets(&self) -> Seq<LinkId> {
        self.link_ids@
    }

    pub fn new(link_ids: Vec<LinkId>) -> (command: Self)
        ensures
            command.targets() == link_ids@,
            command.endpoints().len() == 0,
            command.removed().len() == 0,
    {
        DisconnectManyCommand { link_ids, keys: Vec::new(), removed_keys: Vec::new(), links: Vec::new() }
    }

    /// Disconnect links whose endpoints are known from `graph`; links whose
    /// ports are gone are left out of the keys.
    pub fn from_links(graph: &Graph, links: Vec<Link>) -> (command: Self)
        ensures
            command.targets().len() == links@.len(),
            forall|j: int| 0 <= j < links@.len() ==> #[trigger] command.targets()[j] == links@[j].id,
            command.endpoints().len() <= links@.len(),
            command.removed().len() == 0,
    {
        let mut keys: Vec<EndpointPair> = Vec::new();
        let mut link_ids: Vec<LinkId> = Vec::new();
        let mut i: usize = 0;
        while i < links.len()
            invariant
                i <= links@.len(),
                link_ids@.len() == i,
                keys@.len() <= i,
                forall|j: int| 0 <= j < i ==> #[trigger] link_ids@[j] == links@[j].id,
            decreases links@.len() - i,
        {
            let link = links[i];
            link_ids.push(link.id);
            match stable_pair(graph, link.output_port, link.input_port) {
                Some(pair) => keys.push(pair),
                None => {},
            }
            i = i + 1;
        }
        DisconnectManyCommand { link_ids, keys, removed_keys: Vec::new(), links }
    }

    pub fn name(&self) -> (name: &'static str)
        ensures
            name@ == "Disconnect group"@,
    {
        "Disconnect group"
    }

    pub fn description(&self) -> (text: String)
        ensures
            text@ == spec_count_description("Disconnect group"@, self.endpoints().len()),
    {
        count_description(self.name(), self.keys.len())
    }

    /// What running `execute` promises, relating the command and the driver
    /// before the call to both after it.
    pub open spec fn executed<D: GraphDriver>(
        before: Self,
        after: Self,
        d0: D,
        d1: D,
        result: Result<(), CommandError>,
    ) -> bool {
        &&& d1.spec_is_static() == d0.spec_is_static()
        &&& d0.spec_is_static() && before.endpoints().len() == 0 ==> pairs_view(after.endpoints())
            == spec_target_pairs(&d0.spec_graph(), before.targets())
        &&& d0.spec_is_static() && result is Ok ==> spec_group_disconnected(
            after.endpoints(),
            after.removed(),
            d0.spec_graph(),
            d1.spec_graph(),
            |k: u64| d0.spec_link_mutable(LinkId(k)),
        )
        &&& d0.spec_is_static() && result is Ok ==> forall|k: u64|
            #[trigger] d0.spec_graph().links@.contains_key(k) && !d0.spec_link_mutable(LinkId(k))
                && spec_sole_wherever_matched(&d0.spec_graph(), after.endpoints(), k)
                ==> d1.spec_graph().links@.contains_key(k)
        &&& d0.spec_is_static() && result is Ok ==> {
            &&& d1.spec_graph().nodes@ == d0.spec_graph().nodes@
            &&& d1.spec_graph().ports@ == d0.spec_graph().ports@
            &&& forall|j: int|
                0 <= j < after.endpoints().len() && spec_keys_linked(
                    &d0.spec_graph(),
                    &(#[trigger] after.endpoints()[j]).0,
                    &after.endpoints()[j].1,
                ) ==> spec_keys_linked(&d1.spec_graph(), &after.endpoints()[j].0, &after.endpoints()[j].1)
                    || exists|m: int| 0 <= m < after.removed().len() && pairs_compatible(after.removed()[m], after.endpoints()[j])
        }
        &&& after.targets() == before.targets()
        &&& before.endpoints().len() > 0 ==> after.endpoints() == before.endpoints()
        &&& match result {
            Ok(()) => forall|j: int|
                0 <= j < after.removed().len() ==> pairs_view(after.endpoints()).contains(
                    #[trigger] pairs_view(after.removed())[j],
                ),
            Err(error) => error is Backend || (error matches CommandError::PartiallyApplied {
                operation,
                stranded,
                ..
            } && operation@ == "Disconnect group"@ && stranded > 0),
        }
        &&& result is Err && after.removed() != before.removed() ==> after.removed().len() == 0
        &&& d0.spec_is_static() && (result matches Err(CommandError::Backend(_))) ==> {
            &&& d1.spec_graph().nodes@ == d0.spec_graph().nodes@
            &&& d1.spec_graph().ports@ == d0.spec_graph().ports@
            &&& forall|j: int|
                0 <= j < after.endpoints().len() && spec_keys_linked(
                    &d0.spec_graph(),
                    &(#[trigger] after.endpoints()[j]).0,
                    &after.endpoints()[j].1,
                ) ==> spec_keys_linked(
                    &d1.spec_graph(),
                    &after.endpoints()[j].0,
                    &after.endpoints()[j].1,
                )
        }
    }

    /// Disconnect every chosen link that is user-mutable. All or nothing: a
    /// failure reconnects what was removed.
    pub fn execute<D: GraphDriver>(&mut self, driver: &mut D) -> (result: Result<(), CommandError>)
        ensures
            Self::executed(*old(self), *final(self), *old(driver), *final(driver), result),
    {
        match driver.refresh() {
            Ok(_) => {},
            Err(error) => return Err(CommandError::Backend(error)),
        }
        if self.keys.len() == 0 {
            let ghost g = driver.spec_graph();
            let mut keys: Vec<EndpointPair> = Vec::new();
            let mut i: usize = 0;
            assert(self.link_ids@.subrange(0, 0) =~= Seq::<LinkId>::empty());
            assert(pairs_view(keys@) =~= Seq::<(KeyView, KeyView)>::empty());
            while i < self.link_ids.len()
                invariant
                    i <= self.link_ids@.len(),
                    g == driver.spec_graph(),
                    pairs_view(keys@) == spec_target_pairs(&g, self.link_ids@.subrange(0, i as int)),
                decreases self.link_ids@.len() - i,
            {
                let ghost prefix = self.link_ids@.subrange(0, i + 1);
                assert(prefix.drop_last() =~= self.link_ids@.subrange(0, i as int));
                let ghost before = keys@;
                match driver.graph().link(self.link_ids[i]) {
                    Some(link) => match stable_pair(driver.graph(), link.output_port, link.input_port) {
                        Some(pair) => {
                            keys.push(pair);
                            assert(pairs_view(keys@) =~= pairs_view(before).push(pair_view(pair)));
                        },
                        None => {},
                    },
                    None => {},
                }
                i = i + 1;
            }
            assert(self.link_ids@.subrange(0, self.link_ids@.len() as int) =~= self.link_ids@);
            self.keys = keys;
        }
        match disconnect_keys(driver, "Disconnect group", self.keys.as_slice(), &mut self.removed_keys) {
            Ok(links) => {
                proof {
                    if old(driver).spec_is_static() {
                        lemma_group_disconnected(
                            self.keys@,
                            self.removed_keys@,
                            old(driver).spec_graph(),
                            driver.spec_graph(),
                            |k: u64| old(driver).spec_link_mutable(LinkId(k)),
                        );
                    }
                }
                self.links = links;
                proof {
                    if old(driver).spec_is_static() {
                        assert forall|j: int|
                            0 <= j < self.endpoints().len() && spec_keys_linked(
                                &old(driver).spec_graph(),
                                &(#[trigger] self.endpoints()[j]).0,
                                &self.endpoints()[j].1,
                            ) && !spec_keys_linked(&driver.spec_graph(), &self.endpoints()[j].0, &self.endpoints()[j].1)
                            implies exists|m: int| 0 <= m < self.removed().len() && pairs_compatible(self.removed()[m], self.endpoints()[j]) by {
                            assert(self.endpoints()[j] == self.keys@[j]);
                            let m = choose|m: int| 0 <= m < self.removed_keys@.len() && pairs_compatible(self.removed_keys@[m], self.keys@[j]);
                            assert(self.removed()[m] == self.removed_keys@[m]);
                        }
                    }
                }
                Ok(())
            },
            Err(error) => Err(error),
        }
    }

    /// What running `undo` promises, relating the command and the driver
    /// before the call to both after it.
    pub open spec fn undone<D: GraphDriver>(
        before: Self,
        after: Self,
        d0: D,
        d1: D,
        result: Result<(), CommandError>,
    ) -> bool {
        &&& d1.spec_is_static() == d0.spec_is_static()
        &&& after.endpoints() == before.endpoints()
        &&& after.removed() == before.removed()
        &&& after.targets() == before.targets()
        &&& result matches Err(error) ==> (error matches CommandError::PartiallyApplied {
            operation,
            stranded,
            ..
        } && operation@ == "Disconnect group"@ && 0 < stranded <= before.removed().len())
        &&& d0.spec_is_static() ==> {
            &&& d1.spec_graph().nodes@ == d0.spec_graph().nodes@
            &&& d1.spec_graph().ports@ == d0.spec_graph().ports@
            &&& links_kept(d0.spec_graph().links@, d1.spec_graph().links@)
        }
        &&& d0.spec_is_static() && result is Ok ==> forall|m: int|
            0 <= m < before.removed().len() ==> spec_keys_linked(
                &d1.spec_graph(),
                &(#[trigger] before.removed()[m]).0,
                &before.removed()[m].1,
            )
    }

    /// Reconnect every pair the last execution removed.
    pub fn undo<D: GraphDriver>(&mut self, driver: &mut D) -> (result: Result<(), CommandError>)
        ensures
            Self::undone(*old(self), *final(self), *old(driver), *final(driver), result),
    {
        match restore_keys(driver, "Disconnect group", self.removed_keys.as_slice()) {
            Ok(links) => {
                self.links = links;
                Ok(())
            },
            Err(error) => Err(error),
        }
    }
}

/// Disconnect every live, user-mutable link as one undoable operation.
pub struct DisconnectAllCommand {
    links: Vec<Link>,
    keys: Vec<EndpointPair>,
    removed_keys: Vec<EndpointPair>,
}

impl DisconnectAllCommand {
    pub closed spec fn endpoints(&self) -> Seq<EndpointPair> {
        self.keys@
    }

    pub closed spec fn removed(&self) -> Seq<EndpointPair> {
        self.removed_keys@
    }

    pub fn new() -> (command: Self)
        ensures
            command.endpoints().len() == 0,
            command.removed().len() == 0,
    {
        DisconnectAllCommand { links: Vec::new(), keys: Vec::new(), removed_keys: Vec::new() }
    }

    pub fn name(&self) -> (name: &'static str)
        ensures
            name@ == "Disconnect all"@,
    {
        "Disconnect all"
    }

    pub fn description(&self) -> (text: String)
        ensures
            text@ == spec_count_description("Disconnect all"@, self.endpoints().len()),
    {
        count_description(self.name(), self.keys.len())
    }

    /// What running `execute` promises, relating the command and the driver
    /// before the call to both after it.
    pub open spec fn executed<D: GraphDriver>(
        before: Self,
        after: Self,
        d0: D,
        d1: D,
        result: Result<(), CommandError>,
    ) -> bool {
        &&& d1.spec_is_static() == d0.spec_is_static()
        &&& d0.spec_is_static() && result is Ok ==> spec_group_disconnected(
            after.endpoints(),
            after.removed(),
            d0.spec_graph(),
            d1.spec_graph(),
            |k: u64| d0.spec_link_mutable(LinkId(k)),
        )
        &&& d0.spec_is_static() && result is Ok ==> forall|k: u64|
            #[trigger] d0.spec_graph().links@.contains_key(k) && !d0.spec_link_mutable(LinkId(k))
                && spec_sole_wherever_matched(&d0.spec_graph(), after.endpoints(), k)
                ==> d1.spec_graph().links@.contains_key(k)
        &&& d0.spec_is_static() && result is Ok ==> forall|k: u64|
            #[trigger] d0.spec_graph().links@.contains_key(k) && spec_keyed_link(&d0.spec_graph(), k)
                && spec_sole_wherever_matched(&d0.spec_graph(), after.endpoints(), k) ==> (d0.spec_link_mutable(
                LinkId(k),
            ) <==> !d1.spec_graph().links@.contains_key(k))
        &&& d0.spec_is_static() && result is Ok ==> {
            &&& d1.spec_graph().nodes@ == d0.spec_graph().nodes@
            &&& d1.spec_graph().ports@ == d0.spec_graph().ports@
            &&& forall|j: int|
                0 <= j < after.endpoints().len() && spec_keys_linked(
                    &d0.spec_graph(),
                    &(#[trigger] after.endpoints()[j]).0,
                    &after.endpoints()[j].1,
                ) ==> spec_keys_linked(&d1.spec_graph(), &after.endpoints()[j].0, &after.endpoints()[j].1)
                    || exists|m: int| 0 <= m < after.removed().len() && pairs_compatible(after.removed()[m], after.endpoints()[j])
        }
        &&& match result {
            Ok(()) => forall|j: int|
                0 <= j < after.removed().len() ==> pairs_view(after.endpoints()).contains(
                    #[trigger] pairs_view(after.removed())[j],
                ),
            Err(error) => error is Backend || (error matches CommandError::PartiallyApplied {
                operation,
                stranded,
                ..
            } && operation@ == "Disconnect all"@ && stranded > 0),
        }
        &&& d0.spec_is_static() && (result matches Err(CommandError::Backend(_))) ==> {
            &&& d1.spec_graph().nodes@ == d0.spec_graph().nodes@
            &&& d1.spec_graph().ports@ == d0.spec_graph().ports@
            &&& forall|j: int|
                0 <= j < after.endpoints().len() && spec_keys_linked(
                    &d0.spec_graph(),
                    &(#[trigger] after.endpoints()[j]).0,
                    &after.endpoints()[j].1,
                ) ==> spec_keys_linked(
                    &d1.spec_graph(),
                    &after.endpoints()[j].0,
                    &after.endpoints()[j].1,
                )
        }
    }

    /// Disconnect every user-mutable link; observed links stay.
    pub fn execute<D: GraphDriver>(&mut self, driver: &mut D) -> (result: Result<(), CommandError>)
        ensures
            Self::executed(*old(self), *final(self), *old(driver), *final(driver), result),
    {
        match driver.refresh() {
            Ok(_) => {},
            Err(error) => return Err(CommandError::Backend(error)),
        }
        let mut keys: Vec<EndpointPair> = Vec::new();
        let ghost g = driver.spec_graph();
        let links = driver.graph().links.values();
        let mut i: usize = 0;
        while i < links.len()
            invariant
                i <= links@.len(),
                g == driver.spec_graph(),
                links@ == g.links.entries(),
                forall|m: int|
                    0 <= m < i && driver.spec_link_mutable((#[trigger] links@[m]).id) && spec_port_key(
                        &g,
                        links@[m].output_port,
                    ) is Some && spec_port_key(&g, links@[m].input_port) is Some ==> exists|j: int|
                        0 <= j < keys@.len() && spec_link_matches(&g, links@[m], &keys@[j].0, &keys@[j].1),
            decreases links@.len() - i,
        {
            let link = links[i];
            let ghost before = keys@;
            if driver.is_link_mutable(link.id) {
                match stable_pair(driver.graph(), link.output_port, link.input_port) {
                    Some(pair) => {
                        keys.push(pair);
                        proof {
                            assert(keys@[before.len() as int] == pair);
                        }
                    },
                    None => {},
                }
            }
            proof {
                assert forall|m: int|
                    0 <= m < i + 1 && driver.spec_link_mutable((#[trigger] links@[m]).id) && spec_port_key(
                        &g,
                        links@[m].output_port,
                    ) is Some && spec_port_key(&g, links@[m].input_port) is Some implies exists|j: int|
                        0 <= j < keys@.len() && spec_link_matches(&g, links@[m], &keys@[j].0, &keys@[j].1) by {
                    if m < i {
                        let j = choose|j: int| 0 <= j < before.len() && spec_link_matches(&g, links@[m], &before[j].0, &before[j].1);
                        assert(keys@[j] == before[j]);
                    } else {
                        assert(links@[m] == link);
                        assert(keys@.len() == before.len() + 1);
                        assert(spec_link_matches(&g, link, &keys@[before.len() as int].0, &keys@[before.len() as int].1));
                    }
                }
            }
            i = i + 1;
        }
        proof {
            if old(driver).spec_is_static() {
                assert forall|k: u64|
                    #[trigger] g.links@.contains_key(k) && old(driver).spec_link_mutable(LinkId(k)) && spec_keyed_link(&g, k)
                        implies exists|j: int|
                        0 <= j < keys@.len() && spec_link_matches(&g, g.links@[k], &keys@[j].0, &keys@[j].1) by {
                    let m = choose|m: int| 0 <= m < links@.len() && links@[m].id_key() == k;
                    lemma_seq_map_index(links@, m);
                    assert(links@[m].id == LinkId(k));
                    assert(driver.spec_link_mutable(links@[m].id));
                }
            }
        }
        self.keys = keys;
        match disconnect_keys(driver, "Disconnect all", self.keys.as_slice(), &mut self.removed_keys) {
            Ok(links) => {
                proof {
                    if old(driver).spec_is_static() {
                        lemma_group_disconnected(
                            self.keys@,
                            self.removed_keys@,
                            old(driver).spec_graph(),
                            driver.spec_graph(),
                            |k: u64| old(driver).spec_link_mutable(LinkId(k)),
                        );
                    }
                }
                self.links = links;
                proof {
                    if old(driver).spec_is_static() {
                        let g0 = old(driver).spec_graph();
                        let g1 = driver.spec_graph();
                        assert forall|k: u64|
                            #[trigger] g0.links@.contains_key(k) && spec_keyed_link(&g0, k)
                                && spec_sole_wherever_matched(&g0, self.endpoints(), k) implies (old(driver).spec_link_mutable(
                            LinkId(k),
                        ) <==> !g1.links@.contains_key(k)) by {
                            if old(driver).spec_link_mutable(LinkId(k)) {
                                let j = choose|j: int|
                                    0 <= j < self.keys@.len() && spec_link_matches(&g, g.links@[k], &self.keys@[j].0, &self.keys@[j].1);
                                assert(spec_sole_link(&g0, self.keys@[j], k));
                                if g1.links@.contains_key(k) {
                                    assert(g1.links@[k] == g0.links@[k]);
                                    assert(spec_keys_linked(&g1, &self.keys@[j].0, &self.keys@[j].1));
                                }
                            }
                        }
                        assert forall|j: int|
                            0 <= j < self.endpoints().len() && spec_keys_linked(
                                &old(driver).spec_graph(),
                                &(#[trigger] self.endpoints()[j]).0,
                                &self.endpoints()[j].1,
                            ) && !spec_keys_linked(&driver.spec_graph(), &self.endpoints()[j].0, &self.endpoints()[j].1)
                            implies exists|m: int| 0 <= m < self.removed().len() && pairs_compatible(self.removed()[m], self.endpoints()[j]) by {
                            assert(self.endpoints()[j] == self.keys@[j]);
                            let m = choose|m: int| 0 <= m < self.removed_keys@.len() && pairs_compatible(self.removed_keys@[m], self.keys@[j]);
                            assert(self.removed()[m] == self.removed_keys@[m]);
                        }
                    }
                }
                Ok(())
            },
            Err(error) => Err(error),
        }
    }

    /// What running `undo` promises, relating the command and the driver
    /// before the call to both after it.
    pub open spec fn undone<D: GraphDriver>(
        before: Self,
        after: Self,
        d0: D,
        d1: D,
        result: Result<(), CommandError>,
    ) -> bool {
        &&& d1.spec_is_static() == d0.spec_is_static()
        &&& after.endpoints() == before.endpoints()
        &&& after.removed() == before.removed()
        &&& result matches Err(error) ==> (error matches CommandError::PartiallyApplied {
            operation,
            stranded,
            ..
        } && operation@ == "Disconnect all"@ && 0 < stranded <= before.removed().len())
        &&& d0.spec_is_static() ==> {
            &&& d1.spec_graph().nodes@ == d0.spec_graph().nodes@
            &&& d1.spec_graph().ports@ == d0.spec_graph().ports@
            &&& links_kept(d0.spec_graph().links@, d1.spec_graph().links@)
        }
        &&& d0.spec_is_static() && result is Ok ==> forall|m: int|
            0 <= m < before.removed().len() ==> spec_keys_linked(
                &d1.spec_graph(),
                &(#[trigger] before.removed()[m]).0,
                &before.removed()[m].1,
            )
    }

    /// Reconnect every pair the last execution removed.
    pub fn undo<D: GraphDriver>(&mut self, driver: &mut D) -> (result: Result<(), CommandError>)
        ensures
            Self::undone(*old(self), *final(self), *old(driver), *final(driver), result),
    {
        match restore_keys(driver, "Disconnect all", self.removed_keys.as_slice()) {
            Ok(links) => {
                self.links = links;
                Ok(())
            },
            Err(error) => Err(error),
        }
    }
}

/// Undoing a disconnect right after it ran puts the connection back: when
/// the recorded endpoints were linked before the disconnect, they are linked
/// again after the undo, and no node or port changed. This holds on a driver
/// whose graph only it changes.
pub proof fn lemma_disconnect_then_undo_restores<D: GraphDriver>(
    c0: DisconnectCommand,
    c1: DisconnectCommand,
    c2: DisconnectCommand,
    d0: D,
    d1: D,
    d2: D,
)
    requires
        DisconnectCommand::executed(c0, c1, d0, d1, Ok(())),
        DisconnectCommand::undone(c1, c2, d1, d2, Ok(())),
        d0.spec_is_static(),
        c1.endpoints() is Some,
        spec_keys_linked(&d0.spec_graph(), &c1.endpoints()->Some_0.0, &c1.endpoints()->Some_0.1),
    ensures
        spec_keys_linked(&d2.spec_graph(), &c1.endpoints()->Some_0.0, &c1.endpoints()->Some_0.1),
        d2.spec_graph().nodes@ == d0.spec_graph().nodes@,
        d2.spec_graph().ports@ == d0.spec_graph().ports@,
{
    let keys = c1.endpoints()->Some_0;
    if !c1.is_removed() {
        lemma_linked_kept(d0.spec_graph(), d1.spec_graph(), keys);
    }
}

/// Undoing a group disconnect right after it ran reconnects the group:
/// every chosen pair that was linked before is linked again, and no node or
/// port changed. This holds on a driver whose graph only it changes.
pub proof fn lemma_disconnect_group_then_undo_restores<D: GraphDriver>(
    c0: DisconnectManyCommand,
    c1: DisconnectManyCommand,
    c2: DisconnectManyCommand,
    d0: D,
    d1: D,
    d2: D,
)
    requires
        DisconnectManyCommand::executed(c0, c1, d0, d1, Ok(())),
        DisconnectManyCommand::undone(c1, c2, d1, d2, Ok(())),
        d0.spec_is_static(),
    ensures
        forall|j: int|
            0 <= j < c1.endpoints().len() && spec_keys_linked(
                &d0.spec_graph(),
                &(#[trigger] c1.endpoints()[j]).0,
                &c1.endpoints()[j].1,
            ) ==> spec_keys_linked(&d2.spec_graph(), &c1.endpoints()[j].0, &c1.endpoints()[j].1),
        d2.spec_graph().nodes@ == d0.spec_graph().nodes@,
        d2.spec_graph().ports@ == d0.spec_graph().ports@,
{
    lemma_restored_after_removal(c1.endpoints(), c1.removed(), d0.spec_graph(), d1.spec_graph(), d2.spec_graph());
}

/// Undoing a disconnect-all right after it ran reconnects what it removed:
/// every pair it chose that was linked before is linked again, and no node
/// or port changed. This holds on a driver whose graph only it changes.
pub proof fn lemma_disconnect_all_then_undo_restores<D: GraphDriver>(
    c0: DisconnectAllCommand,
    c1: DisconnectAllCommand,
    c2: DisconnectAllCommand,
    d0: D,
    d1: D,
    d2: D,
)
    requires
        DisconnectAllCommand::executed(c0, c1, d0, d1, Ok(())),
        DisconnectAllCommand::undone(c1, c2, d1, d2, Ok(())),
        d0.spec_is_static(),
    ensures
        forall|j: int|
            0 <= j < c1.endpoints().len() && spec_keys_linked(
                &d0.spec_graph(),
                &(#[trigger] c1.endpoints()[j]).0,
                &c1.endpoints()[j].1,
            ) ==> spec_keys_linked(&d2.spec_graph(), &c1.endpoints()[j].0, &c1.endpoints()[j].1),
        d2.spec_graph().nodes@ == d0.spec_graph().nodes@,
        d2.spec_graph().ports@ == d0.spec_graph().ports@,
{
    lemma_restored_after_removal(c1.endpoints(), c1.removed(), d0.spec_graph(), d1.spec_graph(), d2.spec_graph());
}

/// Pairs that were kept or removed-and-relinked are linked at the end.
proof fn lemma_restored_after_removal(
    chosen: Seq<EndpointPair>,
    removed: Seq<EndpointPair>,
    g0: Graph,
    g1: Graph,
    g2: Graph,
)
    requires
        g1.nodes@ == g0.nodes@,
        g1.ports@ == g0.ports@,
        g2.nodes@ == g1.nodes@,
        g2.ports@ == g1.ports@,
        links_kept(g1.links@, g2.links@),
        forall|j: int|
            0 <= j < chosen.len() && spec_keys_linked(&g0, &(#[trigger] chosen[j]).0, &chosen[j].1)
                ==> spec_keys_linked(&g1, &chosen[j].0, &chosen[j].1) || exists|m: int|
                0 <= m < removed.len() && pairs_compatible(removed[m], chosen[j]),
        forall|m: int| 0 <= m < removed.len() ==> spec_keys_linked(&g2, &(#[trigger] removed[m]).0, &removed[m].1),
    ensures
        forall|j: int|
            0 <= j < chosen.len() && spec_keys_linked(&g0, &(#[trigger] chosen[j]).0, &chosen[j].1)
                ==> spec_keys_linked(&g2, &chosen[j].0, &chosen[j].1),
{
    assert forall|j: int|
        0 <= j < chosen.len() && spec_keys_linked(&g0, &(#[trigger] chosen[j]).0, &chosen[j].1) implies spec_keys_linked(
        &g2,
        &chosen[j].0,
        &chosen[j].1,
    ) by {
        if spec_keys_linked(&g1, &chosen[j].0, &chosen[j].1) {
            lemma_linked_kept(g1, g2, chosen[j]);
        } else {
            let m = choose|m: int| 0 <= m < removed.len() && pairs_compatible(removed[m], chosen[j]);
            lemma_linked_compatible(g2, removed[m], chosen[j]);
        }
    }
}

} // verus!
