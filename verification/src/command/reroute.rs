//! Moving one end of an existing link to a different port.

use vstd::prelude::*;
use crate::backend::{spec_backend_message, BackendError};
use crate::command::connect::spec_stable_pair;
use crate::command::error::CommandError;
use crate::command::transaction::{
    pairs_compatible, spec_sole_link,
    clone_opt_pair, pair_description, pair_view, spec_pair_description, stable_pair, EndpointPair,
};
use crate::driver::GraphDriver;
use crate::graph::{spec_keys_linked, Direction, Graph, KeyView};
use crate::ids::{LinkId, PortId};
use crate::text::{append_str, string_from_chars};

verus! {

/// The endpoints a reroute moves from and to: the link's current endpoints,
/// and the same link with the end of the dropped port's direction replaced
/// by that port. `None` when the link or port is gone, either pair does not
/// resolve, or the port is where the link already ends.
pub open spec fn spec_reroute(g: &Graph, link_id: LinkId, new_port: PortId) -> Option<(
    (KeyView, KeyView),
    (KeyView, KeyView),
)> {
    if !g.links@.contains_key(link_id.0) || !g.ports@.contains_key(new_port.0) {
        None
    } else {
        let link = g.links@[link_id.0];
        match spec_stable_pair(g, link.output_port, link.input_port) {
            None => None,
            Some(old) => {
                let ends = if g.ports@[new_port.0].direction == Direction::Source {
                    (new_port, link.input_port)
                } else {
                    (link.output_port, new_port)
                };
                if ends.0 == link.output_port && ends.1 == link.input_port {
                    None
                } else {
                    match spec_stable_pair(g, ends.0, ends.1) {
                        Some(new) => Some((old, new)),
                        None => None,
                    }
                }
            },
        }
    }
}

/// Move one end of an existing link to a different port.
///
/// Dragging an edge is a single user action, so it is a single undoable
/// one: the old route is removed and the new one made together, and undo
/// puts the old route back.
pub struct RerouteLinkCommand {
    link_id: LinkId,
    /// Port the dragged end was dropped on; its direction decides which end
    /// of the link it replaces.
    new_port: PortId,
    /// The link's endpoints before and after, captured while executing so an
    /// undo survives the backend renumbering its ports.
    old_keys: Option<EndpointPair>,
    new_keys: Option<EndpointPair>,
    applied: bool,
    /// Whether this command created the new link rather than finding one
    /// already there. Undo only removes a link it made.
    created_new: bool,
}

impl RerouteLinkCommand {
    pub closed spec fn is_applied(&self) -> bool {
        self.applied
    }

    pub closed spec fn created_new_link(&self) -> bool {
        self.created_new
    }

    pub closed spec fn old_endpoints(&self) -> Option<EndpointPair> {
        self.old_keys
    }

    pub closed spec fn new_endpoints(&self) -> Option<EndpointPair> {
        self.new_keys
    }

    pub closed spec fn target(&self) -> (LinkId, PortId) {
        (self.link_id, self.new_port)
    }

    pub fn new(link_id: LinkId, new_port: PortId) -> (command: Self)
        ensures
            command.target() == (link_id, new_port),
            !command.is_applied(),
            command.old_endpoints() is None,
            command.new_endpoints() is None,
    {
        RerouteLinkCommand {
            link_id,
            new_port,
            old_keys: None,
            new_keys: None,
            applied: false,
            created_new: false,
        }
    }

    /// Which end moves, and what the link becomes.
    pub fn resolve<D: GraphDriver>(&self, driver: &D) -> (result: Result<(EndpointPair, EndpointPair), CommandError>)
        ensures
            match result {
                Ok((old, new)) => spec_reroute(&driver.spec_graph(), self.target().0, self.target().1) == Some(
                    (pair_view(old), pair_view(new)),
                ),
                Err(error) => spec_reroute(&driver.spec_graph(), self.target().0, self.target().1) is None
                    && error == CommandError::MissingUndoLink,
            },
    {
        let graph = driver.graph();
        let link = match graph.link(self.link_id) {
            Some(link) => *link,
            None => return Err(CommandError::MissingUndoLink),
        };
        let target_direction = match graph.port(self.new_port) {
            Some(port) => port.direction,
            None => return Err(CommandError::MissingUndoLink),
        };
        let old = match stable_pair(graph, link.output_port, link.input_port) {
            Some(pair) => pair,
            None => return Err(CommandError::MissingUndoLink),
        };
        let (output, input) = if target_direction.is_source() {
            (self.new_port, link.input_port)
        } else {
            (link.output_port, self.new_port)
        };
        if output == link.output_port && input == link.input_port {
            return Err(CommandError::MissingUndoLink);
        }
        let new = match stable_pair(graph, output, input) {
            Some(pair) => pair,
            None => return Err(CommandError::MissingUndoLink),
        };
        Ok((old, new))
    }

    pub fn name(&self) -> (name: &'static str)
        ensures
            name@ == "Reroute"@,
    {
        "Reroute"
    }

    pub fn description(&self) -> (text: String)
        ensures
            text@ == spec_pair_description("Reroute"@, self.new_endpoints()),
    {
        pair_description(self.name(), &self.new_keys)
    }

    /// What running `execute` promises, relating the command and the driver
    /// before the call to both after it.
    pub open spec fn executed<D: GraphDriver>(
        before: Self,
        after: Self,
        d0: D,
        d1: D,
        result: Result<(), CommandError>,
    ) -> bool {
        &&& d1.spec_is_static() == d0.spec_is_static()
        &&& after.target() == before.target()
        &&& result is Err ==> after == before
        &&& result is Ok ==> {
            &&& after.is_applied()
            &&& after.new_endpoints() matches Some(new)
            &&& after.old_endpoints() is Some
            &&& spec_keys_linked(&d1.spec_graph(), &new.0, &new.1)
        }
        &&& result matches Err(CommandError::PartiallyApplied { operation, stranded, .. })
            ==> operation@ == "Reroute"@ && stranded == 1
        &&& d0.spec_is_static() ==> d1.spec_graph().nodes@ == d0.spec_graph().nodes@
            && d1.spec_graph().ports@ == d0.spec_graph().ports@
        &&& d0.spec_is_static() && result is Ok ==> spec_keys_linked(
            &d0.spec_graph(),
            &after.old_endpoints()->Some_0.0,
            &after.old_endpoints()->Some_0.1,
        )
        &&& d0.spec_is_static() && (before.old_endpoints() is None || before.new_endpoints() is None)
            && spec_reroute(&d0.spec_graph(), before.target().0, before.target().1) is None ==> result
            == Err::<(), CommandError>(CommandError::MissingUndoLink)
        &&& d0.spec_is_static() && result is Ok ==> forall|k: u64|
            #[trigger] spec_sole_link(&d0.spec_graph(), after.old_endpoints()->Some_0, k) && !pairs_compatible(
                after.new_endpoints()->Some_0,
                after.old_endpoints()->Some_0,
            ) ==> !spec_keys_linked(
                &d1.spec_graph(),
                &after.old_endpoints()->Some_0.0,
                &after.old_endpoints()->Some_0.1,
            )
        &&& d0.spec_is_static() && before.old_endpoints() is Some && before.new_endpoints() is Some && (result matches Err(
            CommandError::Backend(_),
        )) ==> spec_keys_linked(
            &d1.spec_graph(),
            &before.old_endpoints()->Some_0.0,
            &before.old_endpoints()->Some_0.1,
        )
    }

    /// Remove the old route, then make the new one; if the new one is
    /// refused, the old route is restored. A redo replays the endpoints
    /// captured the first time round.
    pub fn execute<D: GraphDriver>(&mut self, driver: &mut D) -> (result: Result<(), CommandError>)
        ensures
            Self::executed(*old(self), *final(self), *old(driver), *final(driver), result),
    {
        match driver.refresh() {
            Ok(_) => {},
            Err(error) => return Err(CommandError::Backend(error)),
        }
        let recorded = match (clone_opt_pair(&self.old_keys), clone_opt_pair(&self.new_keys)) {
            (Some(old), Some(new)) => (old, new),
            _ => match self.resolve(driver) {
                Ok(pairs) => pairs,
                Err(error) => return Err(error),
            },
        };
        let (old, new) = recorded;
        let old_link = match driver.graph().find_link_by_keys(&old.0, &old.1) {
            Some(link) => link,
            None => return Err(CommandError::MissingUndoLink),
        };
        if !driver.is_link_mutable(old_link.id) {
            return Err(
                CommandError::Backend(
                    BackendError::unsupported("this link is observed and cannot be rerouted"),
                ),
            );
        }
        let removed_old = match driver.disconnect_by_key_if_present_without_suppression(&old.0, &old.1) {
            Ok(removed) => removed.is_some(),
            Err(error) => return Err(CommandError::Backend(error)),
        };
        if removed_old {
            driver.suppress_connection(&old.0, &old.1);
        }
        match driver.connect_by_key_if_missing(&new.0, &new.1) {
            Ok(created) => {
                self.created_new = created.is_some();
                self.old_keys = Some(old);
                self.new_keys = Some(new);
                self.applied = true;
                Ok(())
            },
            Err(error) => {
                if removed_old {
                    match driver.connect_by_key_if_missing(&old.0, &old.1) {
                        Ok(_) => {},
                        Err(restore) => {
                            let mut t: Vec<char> = Vec::new();
                            let first = error.message();
                            append_str(&mut t, first.as_str());
                            append_str(&mut t, "; restoring the previous route failed: ");
                            let second = restore.message();
                            append_str(&mut t, second.as_str());
                            return Err(
                                CommandError::PartiallyApplied {
                                    operation: "Reroute",
                                    cause: string_from_chars(t.as_slice()),
                                    stranded: 1,
                                },
                            );
                        },
                    }
                }
                Err(CommandError::Backend(error))
            },
        }
    }

    /// What running `undo` promises, relating the command and the driver
    /// before the call to both after it.
    pub open spec fn undone<D: GraphDriver>(
        before: Self,
        after: Self,
        d0: D,
        d1: D,
        result: Result<(), CommandError>,
    ) -> bool {
        &&& d1.spec_is_static() == d0.spec_is_static()
        &&& after.target() == before.target()
        &&& after.old_endpoints() == before.old_endpoints()
        &&& after.new_endpoints() == before.new_endpoints()
        &&& !before.is_applied() ==> result is Ok && after == before
        &&& result is Err ==> after == before
        &&& result is Ok ==> !after.is_applied()
        &&& result is Ok && before.is_applied() ==> !after.created_new_link()
        &&& result is Ok && before.is_applied() ==> match after.old_endpoints() {
            Some(old) => spec_keys_linked(&d1.spec_graph(), &old.0, &old.1),
            None => false,
        }
        &&& result matches Err(CommandError::PartiallyApplied { operation, stranded, .. })
            ==> operation@ == "Reroute"@ && (stranded == 1 || stranded == 2)
        &&& d0.spec_is_static() ==> d1.spec_graph().nodes@ == d0.spec_graph().nodes@
            && d1.spec_graph().ports@ == d0.spec_graph().ports@
        &&& d0.spec_is_static() && result is Ok && before.is_applied() && before.created_new_link() ==> forall|k: u64|
            #[trigger] spec_sole_link(&d0.spec_graph(), before.new_endpoints()->Some_0, k) && !pairs_compatible(
                before.new_endpoints()->Some_0,
                before.old_endpoints()->Some_0,
            ) ==> !spec_keys_linked(
                &d1.spec_graph(),
                &before.new_endpoints()->Some_0.0,
                &before.new_endpoints()->Some_0.1,
            )
    }

    /// Take the new route down if this command made it, and put the old one
    /// back. When the old route cannot be restored the new one is put back
    /// too; only when that also fails is the undo reported with both
    /// failures.
    pub fn undo<D: GraphDriver>(&mut self, driver: &mut D) -> (result: Result<(), CommandError>)
        ensures
            Self::undone(*old(self), *final(self), *old(driver), *final(driver), result),
    {
        if !self.applied {
            return Ok(());
        }
        let new = match clone_opt_pair(&self.new_keys) {
            Some(pair) => pair,
            None => return Err(CommandError::MissingUndoLink),
        };
        let old = match clone_opt_pair(&self.old_keys) {
            Some(pair) => pair,
            None => return Err(CommandError::MissingUndoLink),
        };
        let removed_new = if self.created_new {
            match driver.disconnect_by_key_if_present_without_suppression(&new.0, &new.1) {
                Ok(removed) => {
                    if removed.is_some() {
                        driver.allow_connection(&new.0, &new.1);
                    }
                    removed.is_some()
                },
                Err(error) => return Err(CommandError::Backend(error)),
            }
        } else {
            false
        };
        match driver.connect_by_key_if_missing(&old.0, &old.1) {
            Ok(_) => {},
            Err(error) => {
                if removed_new {
                    match driver.connect_by_key_if_missing(&new.0, &new.1) {
                        Ok(_) => return Err(CommandError::Backend(error)),
                        Err(rollback) => {
                            let mut t: Vec<char> = Vec::new();
                            append_str(&mut t, "restoring the original route failed: ");
                            let first = error.message();
                            append_str(&mut t, first.as_str());
                            append_str(
                                &mut t,
                                "; and the rerouted connection could not be put back either: ",
                            );
                            let second = rollback.message();
                            append_str(&mut t, second.as_str());
                            return Err(
                                CommandError::PartiallyApplied {
                                    operation: "Reroute",
                                    cause: string_from_chars(t.as_slice()),
                                    stranded: 2,
                                },
                            );
                        },
                    }
                }
                return Err(
                    CommandError::PartiallyApplied {
                        operation: "Reroute",
                        cause: error.message(),
                        stranded: 1,
                    },
                );
            },
        }
        self.applied = false;
        self.created_new = false;
        Ok(())
    }
}

/// Undoing a reroute right after it ran puts the original route back: the
/// link's old endpoints are linked again. On a driver whose graph only it
/// changes, they were linked before the reroute, and no node or port
/// changed.
pub proof fn lemma_reroute_then_undo_restores<D: GraphDriver>(
    c0: RerouteLinkCommand,
    c1: RerouteLinkCommand,
    c2: RerouteLinkCommand,
    d0: D,
    d1: D,
    d2: D,
)
    requires
        RerouteLinkCommand::executed(c0, c1, d0, d1, Ok(())),
        RerouteLinkCommand::undone(c1, c2, d1, d2, Ok(())),
    ensures
        c1.old_endpoints() is Some,
        spec_keys_linked(&d2.spec_graph(), &c1.old_endpoints()->Some_0.0, &c1.old_endpoints()->Some_0.1),
        !c2.is_applied(),
        d0.spec_is_static() ==> spec_keys_linked(
            &d0.spec_graph(),
            &c1.old_endpoints()->Some_0.0,
            &c1.old_endpoints()->Some_0.1,
        ),
        d0.spec_is_static() ==> d2.spec_graph().nodes@ == d0.spec_graph().nodes@
            && d2.spec_graph().ports@ == d0.spec_graph().ports@,
{
}

} // verus!
