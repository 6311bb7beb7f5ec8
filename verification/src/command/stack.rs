//! The undo/redo stack and the commands it holds.

use vstd::prelude::*;
use crate::command::connect::{spec_group_description, ConnectCommand, ConnectManyCommand};
use crate::command::disconnect::{
    spec_count_description, DisconnectAllCommand, DisconnectCommand, DisconnectManyCommand,
};
use crate::command::transaction::spec_pair_description;
use crate::command::error::CommandError;
use crate::command::reroute::RerouteLinkCommand;
use crate::driver::GraphDriver;

verus! {

/// Every undoable graph operation.
pub enum GraphCommand {
    Connect(ConnectCommand),
    ConnectMany(ConnectManyCommand),
    Disconnect(DisconnectCommand),
    DisconnectMany(DisconnectManyCommand),
    DisconnectAll(DisconnectAllCommand),
    Reroute(RerouteLinkCommand),
}

/// The label each kind of command is shown with.
pub open spec fn spec_command_name(command: GraphCommand) -> Seq<char> {
    match command {
        GraphCommand::Connect(_) => "Connect"@,
        GraphCommand::ConnectMany(_) => "Connect group"@,
        GraphCommand::Disconnect(_) => "Disconnect"@,
        GraphCommand::DisconnectMany(_) => "Disconnect group"@,
        GraphCommand::DisconnectAll(_) => "Disconnect all"@,
        GraphCommand::Reroute(_) => "Reroute"@,
    }
}

/// How a command is described in the history.
pub open spec fn spec_command_description(command: GraphCommand) -> Seq<char> {
    match command {
        GraphCommand::Connect(c) => spec_pair_description("Connect"@, c.endpoints()),
        GraphCommand::ConnectMany(c) => spec_group_description(
            c.endpoints().len(),
            c.port_pairs().len(),
        ),
        GraphCommand::Disconnect(c) => spec_pair_description("Disconnect"@, c.endpoints()),
        GraphCommand::DisconnectMany(c) => spec_count_description(
            "Disconnect group"@,
            c.endpoints().len(),
        ),
        GraphCommand::DisconnectAll(c) => spec_count_description(
            "Disconnect all"@,
            c.endpoints().len(),
        ),
        GraphCommand::Reroute(c) => spec_pair_description("Reroute"@, c.new_endpoints()),
    }
}

/// The labels of a sequence of commands.
pub open spec fn command_names(commands: Seq<GraphCommand>) -> Seq<Seq<char>> {
    commands.map_values(|c: GraphCommand| spec_command_name(c))
}

impl From<ConnectCommand> for GraphCommand {
    fn from(command: ConnectCommand) -> (wrapped: Self) {
        GraphCommand::Connect(command)
    }
}

impl vstd::std_specs::convert::FromSpecImpl<ConnectCommand> for GraphCommand {
    open spec fn obeys_from_spec() -> bool {
        true
    }

    open spec fn from_spec(v: ConnectCommand) -> Self {
        GraphCommand::Connect(v)
    }
}

impl From<ConnectManyCommand> for GraphCommand {
    fn from(command: ConnectManyCommand) -> (wrapped: Self) {
        GraphCommand::ConnectMany(command)
    }
}

impl vstd::std_specs::convert::FromSpecImpl<ConnectManyCommand> for GraphCommand {
    open spec fn obeys_from_spec() -> bool {
        true
    }

    open spec fn from_spec(v: ConnectManyCommand) -> Self {
        GraphCommand::ConnectMany(v)
    }
}

impl From<DisconnectCommand> for GraphCommand {
    fn from(command: DisconnectCommand) -> (wrapped: Self) {
        GraphCommand::Disconnect(command)
    }
}

impl vstd::std_specs::convert::FromSpecImpl<DisconnectCommand> for GraphCommand {
    open spec fn obeys_from_spec() -> bool {
        true
    }

    open spec fn from_spec(v: DisconnectCommand) -> Self {
        GraphCommand::Disconnect(v)
    }
}

impl From<DisconnectManyCommand> for GraphCommand {
    fn from(command: DisconnectManyCommand) -> (wrapped: Self) {
        GraphCommand::DisconnectMany(command)
    }
}

impl vstd::std_specs::convert::FromSpecImpl<DisconnectManyCommand> for GraphCommand {
    open spec fn obeys_from_spec() -> bool {
        true
    }

    open spec fn from_spec(v: DisconnectManyCommand) -> Self {
        GraphCommand::DisconnectMany(v)
    }
}

impl From<DisconnectAllCommand> for GraphCommand {
    fn from(command: DisconnectAllCommand) -> (wrapped: Self) {
        GraphCommand::DisconnectAll(command)
    }
}

impl vstd::std_specs::convert::FromSpecImpl<DisconnectAllCommand> for GraphCommand {
    open spec fn obeys_from_spec() -> bool {
        true
    }

    open spec fn from_spec(v: DisconnectAllCommand) -> Self {
        GraphCommand::DisconnectAll(v)
    }
}

impl From<RerouteLinkCommand> for GraphCommand {
    fn from(command: RerouteLinkCommand) -> (wrapped: Self) {
        GraphCommand::Reroute(command)
    }
}

impl vstd::std_specs::convert::FromSpecImpl<RerouteLinkCommand> for GraphCommand {
    open spec fn obeys_from_spec() -> bool {
        true
    }

    open spec fn from_spec(v: RerouteLinkCommand) -> Self {
        GraphCommand::Reroute(v)
    }
}

impl GraphCommand {
    pub fn name(&self) -> (name: &'static str)
        ensures
            name@ == spec_command_name(*self),
    {
        match self {
            GraphCommand::Connect(c) => c.name(),
            GraphCommand::ConnectMany(c) => c.name(),
            GraphCommand::Disconnect(c) => c.name(),
            GraphCommand::DisconnectMany(c) => c.name(),
            GraphCommand::DisconnectAll(c) => c.name(),
            GraphCommand::Reroute(c) => c.name(),
        }
    }

    pub fn description(&self) -> (text: String)
        ensures
            text@ == spec_command_description(*self),
    {
        match self {
            GraphCommand::Connect(c) => c.description(),
            GraphCommand::ConnectMany(c) => c.description(),
            GraphCommand::Disconnect(c) => c.description(),
            GraphCommand::DisconnectMany(c) => c.description(),
            GraphCommand::DisconnectAll(c) => c.description(),
            GraphCommand::Reroute(c) => c.description(),
        }
    }

    /// Running a command does what its own kind's `execute` promises.
    pub open spec fn executed<D: GraphDriver>(
        before: Self,
        after: Self,
        d0: D,
        d1: D,
        result: Result<(), CommandError>,
    ) -> bool {
        match (before, after) {
            (GraphCommand::Connect(b), GraphCommand::Connect(a)) => ConnectCommand::executed(b, a, d0, d1, result),
            (GraphCommand::ConnectMany(b), GraphCommand::ConnectMany(a)) => ConnectManyCommand::executed(b, a, d0, d1, result),
            (GraphCommand::Disconnect(b), GraphCommand::Disconnect(a)) => DisconnectCommand::executed(b, a, d0, d1, result),
            (GraphCommand::DisconnectMany(b), GraphCommand::DisconnectMany(a)) => DisconnectManyCommand::executed(b, a, d0, d1, result),
            (GraphCommand::DisconnectAll(b), GraphCommand::DisconnectAll(a)) => DisconnectAllCommand::executed(b, a, d0, d1, result),
            (GraphCommand::Reroute(b), GraphCommand::Reroute(a)) => RerouteLinkCommand::executed(b, a, d0, d1, result),
            _ => false,
        }
    }

    /// Undoing a command does what its own kind's `undo` promises.
    pub open spec fn undone<D: GraphDriver>(
        before: Self,
        after: Self,
        d0: D,
        d1: D,
        result: Result<(), CommandError>,
    ) -> bool {
        match (before, after) {
            (GraphCommand::Connect(b), GraphCommand::Connect(a)) => ConnectCommand::undone(b, a, d0, d1, result),
            (GraphCommand::ConnectMany(b), GraphCommand::ConnectMany(a)) => ConnectManyCommand::undone(b, a, d0, d1, result),
            (GraphCommand::Disconnect(b), GraphCommand::Disconnect(a)) => DisconnectCommand::undone(b, a, d0, d1, result),
            (GraphCommand::DisconnectMany(b), GraphCommand::DisconnectMany(a)) => DisconnectManyCommand::undone(b, a, d0, d1, result),
            (GraphCommand::DisconnectAll(b), GraphCommand::DisconnectAll(a)) => DisconnectAllCommand::undone(b, a, d0, d1, result),
            (GraphCommand::Reroute(b), GraphCommand::Reroute(a)) => RerouteLinkCommand::undone(b, a, d0, d1, result),
            _ => false,
        }
    }

    pub fn execute<D: GraphDriver>(&mut self, driver: &mut D) -> (result: Result<(), CommandError>)
        ensures
            Self::executed(*old(self), *final(self), *old(driver), *final(driver), result),
    {
        match self {
            GraphCommand::Connect(c) => c.execute(driver),
            GraphCommand::ConnectMany(c) => c.execute(driver),
            GraphCommand::Disconnect(c) => c.execute(driver),
            GraphCommand::DisconnectMany(c) => c.execute(driver),
            GraphCommand::DisconnectAll(c) => c.execute(driver),
            GraphCommand::Reroute(c) => c.execute(driver),
        }
    }

    pub fn undo<D: GraphDriver>(&mut self, driver: &mut D) -> (result: Result<(), CommandError>)
        ensures
            Self::undone(*old(self), *final(self), *old(driver), *final(driver), result),
    {
        match self {
            GraphCommand::Connect(c) => c.undo(driver),
            GraphCommand::ConnectMany(c) => c.undo(driver),
            GraphCommand::Disconnect(c) => c.undo(driver),
            GraphCommand::DisconnectMany(c) => c.undo(driver),
            GraphCommand::DisconnectAll(c) => c.undo(driver),
            GraphCommand::Reroute(c) => c.undo(driver),
        }
    }
}

/// The stacks' labels after an undo moves the newest undoable command over.
pub open spec fn spec_after_undo(undo: Seq<Seq<char>>, redo: Seq<Seq<char>>) -> (Seq<Seq<char>>, Seq<Seq<char>>) {
    (undo.drop_last(), redo.push(undo.last()))
}

/// The stacks' labels after a redo moves the newest redoable command back.
pub open spec fn spec_after_redo(undo: Seq<Seq<char>>, redo: Seq<Seq<char>>) -> (Seq<Seq<char>>, Seq<Seq<char>>) {
    (undo.push(redo.last()), redo.drop_last())
}

/// Undo followed by redo puts both stacks back as they were, and so does
/// redo followed by undo.
pub proof fn lemma_undo_redo_round_trip(undo: Seq<Seq<char>>, redo: Seq<Seq<char>>)
    ensures
        undo.len() > 0 ==> {
            let (u, r) = spec_after_undo(undo, redo);
            spec_after_redo(u, r) == (undo, redo)
        },
        redo.len() > 0 ==> {
            let (u, r) = spec_after_redo(undo, redo);
            spec_after_undo(u, r) == (undo, redo)
        },
{
    if undo.len() > 0 {
        let (u, r) = spec_after_undo(undo, redo);
        assert(u.push(r.last()) =~= undo);
        assert(r.drop_last() =~= redo);
    }
    if redo.len() > 0 {
        let (u, r) = spec_after_redo(undo, redo);
        assert(u.drop_last() =~= undo);
        assert(r.push(u.last()) =~= redo);
    }
}

/// Executed commands, newest last, and the commands an undo moved aside.
pub struct CommandStack {
    undo_stack: Vec<GraphCommand>,
    redo_stack: Vec<GraphCommand>,
}

impl CommandStack {
    /// The undoable commands, oldest first.
    pub closed spec fn undo_entries(&self) -> Seq<GraphCommand> {
        self.undo_stack@
    }

    /// The redoable commands, oldest first.
    pub closed spec fn redo_entries(&self) -> Seq<GraphCommand> {
        self.redo_stack@
    }

    /// The labels of the undoable commands, oldest first.
    pub closed spec fn undo_names(&self) -> Seq<Seq<char>> {
        command_names(self.undo_stack@)
    }

    /// The labels of the redoable commands, oldest first.
    pub closed spec fn redo_names(&self) -> Seq<Seq<char>> {
        command_names(self.redo_stack@)
    }

    /// The labels are those of the entries, in the same order.
    pub proof fn lemma_names_of_entries(&self)
        ensures
            self.undo_names() == command_names(self.undo_entries()),
            self.redo_names() == command_names(self.redo_entries()),
    {
    }

    pub fn new() -> (stack: Self)
        ensures
            stack.undo_names().len() == 0,
            stack.redo_names().len() == 0,
    {
        CommandStack { undo_stack: Vec::new(), redo_stack: Vec::new() }
    }

    /// Run a command. Only a command that succeeded is recorded, and
    /// recording a new command discards everything that could be redone.
    pub fn execute<D: GraphDriver>(&mut self, command: GraphCommand, driver: &mut D) -> (result: Result<(), CommandError>)
        ensures
            final(driver).spec_is_static() == old(driver).spec_is_static(),
            match result {
                Ok(()) => {
                    &&& final(self).undo_names() == old(self).undo_names().push(spec_command_name(command))
                    &&& final(self).redo_names().len() == 0
                },
                Err(_) => {
                    &&& final(self).undo_names() == old(self).undo_names()
                    &&& final(self).redo_names() == old(self).redo_names()
                },
            },
            match result {
                Ok(()) => {
                    &&& final(self).undo_entries().len() == old(self).undo_entries().len() + 1
                    &&& final(self).undo_entries().drop_last() == old(self).undo_entries()
                    &&& final(self).redo_entries().len() == 0
                    &&& GraphCommand::executed(
                        command,
                        final(self).undo_entries().last(),
                        *old(driver),
                        *final(driver),
                        result,
                    )
                },
                Err(_) => {
                    &&& final(self).undo_entries() == old(self).undo_entries()
                    &&& final(self).redo_entries() == old(self).redo_entries()
                    &&& exists|after: GraphCommand|
                        #[trigger] GraphCommand::executed(command, after, *old(driver), *final(driver), result)
                },
            },
    {
        let ghost original = command;
        let mut command = command;
        match command.execute(driver) {
            Ok(()) => {},
            Err(error) => {
                assert(GraphCommand::executed(original, command, *old(driver), *driver, Err(error)));
                return Err(error);
            },
        }
        let ghost before = self.undo_stack@;
        self.undo_stack.push(command);
        self.redo_stack = Vec::new();
        proof {
            assert(command_names(self.undo_stack@) =~= command_names(before).push(
                spec_command_name(command),
            ));
            assert(command_names(self.redo_stack@) =~= Seq::<Seq<char>>::empty());
            assert(self.undo_stack@.drop_last() =~= before);
        }
        Ok(())
    }

    /// Undo the newest command: `Ok(false)` when there is none. A command
    /// whose undo fails stays where it was, so the undo can be retried.
    pub fn undo<D: GraphDriver>(&mut self, driver: &mut D) -> (result: Result<bool, CommandError>)
        ensures
            final(driver).spec_is_static() == old(driver).spec_is_static(),
            (result == Ok::<bool, CommandError>(false)) == (old(self).undo_names().len() == 0),
            match result {
                Ok(true) => {
                    &&& old(self).undo_names().len() > 0
                    &&& (final(self).undo_names(), final(self).redo_names()) == spec_after_undo(
                        old(self).undo_names(),
                        old(self).redo_names(),
                    )
                },
                _ => {
                    &&& final(self).undo_names() == old(self).undo_names()
                    &&& final(self).redo_names() == old(self).redo_names()
                },
            },            match result {
                Ok(true) => {
                    &&& final(self).undo_entries() == old(self).undo_entries().drop_last()
                    &&& final(self).redo_entries().len() == old(self).redo_entries().len() + 1
                    &&& final(self).redo_entries().drop_last() == old(self).redo_entries()
                    &&& GraphCommand::undone(
                        old(self).undo_entries().last(),
                        final(self).redo_entries().last(),
                        *old(driver),
                        *final(driver),
                        Ok(()),
                    )
                },
                Ok(false) => {
                    &&& final(self).undo_entries() == old(self).undo_entries()
                    &&& final(self).redo_entries() == old(self).redo_entries()
                    &&& *final(driver) == *old(driver)
                },
                Err(error) => {
                    &&& final(self).undo_entries().len() == old(self).undo_entries().len()
                    &&& final(self).undo_entries().drop_last() == old(self).undo_entries().drop_last()
                    &&& final(self).redo_entries() == old(self).redo_entries()
                    &&& GraphCommand::undone(
                        old(self).undo_entries().last(),
                        final(self).undo_entries().last(),
                        *old(driver),
                        *final(driver),
                        Err(error),
                    )
                },
            },
    {
        let ghost undo_before = self.undo_stack@;
        let ghost redo_before = self.redo_stack@;
        let mut command = match self.undo_stack.pop() {
            Some(command) => command,
            None => return Ok(false),
        };
        let ghost name = spec_command_name(command);
        match command.undo(driver) {
            Ok(()) => {},
            Err(error) => {
                self.undo_stack.push(command);
                proof {
                    assert(command_names(self.undo_stack@) =~= command_names(undo_before));
                }
                return Err(error);
            },
        }
        self.redo_stack.push(command);
        proof {
            assert(command_names(self.undo_stack@) =~= command_names(undo_before).drop_last());
            assert(command_names(self.redo_stack@) =~= command_names(redo_before).push(
                command_names(undo_before).last(),
            ));
        }
        Ok(true)
    }

    /// Redo the newest undone command: `Ok(false)` when there is none. A
    /// command whose redo fails stays where it was.
    pub fn redo<D: GraphDriver>(&mut self, driver: &mut D) -> (result: Result<bool, CommandError>)
        ensures
            final(driver).spec_is_static() == old(driver).spec_is_static(),
            (result == Ok::<bool, CommandError>(false)) == (old(self).redo_names().len() == 0),
            match result {
                Ok(true) => {
                    &&& old(self).redo_names().len() > 0
                    &&& (final(self).undo_names(), final(self).redo_names()) == spec_after_redo(
                        old(self).undo_names(),
                        old(self).redo_names(),
                    )
                },
                _ => {
                    &&& final(self).undo_names() == old(self).undo_names()
                    &&& final(self).redo_names() == old(self).redo_names()
                },
            },            match result {
                Ok(true) => {
                    &&& final(self).redo_entries() == old(self).redo_entries().drop_last()
                    &&& final(self).undo_entries().len() == old(self).undo_entries().len() + 1
                    &&& final(self).undo_entries().drop_last() == old(self).undo_entries()
                    &&& GraphCommand::executed(
                        old(self).redo_entries().last(),
                        final(self).undo_entries().last(),
                        *old(driver),
                        *final(driver),
                        Ok(()),
                    )
                },
                Ok(false) => {
                    &&& final(self).undo_entries() == old(self).undo_entries()
                    &&& final(self).redo_entries() == old(self).redo_entries()
                    &&& *final(driver) == *old(driver)
                },
                Err(error) => {
                    &&& final(self).redo_entries().len() == old(self).redo_entries().len()
                    &&& final(self).redo_entries().drop_last() == old(self).redo_entries().drop_last()
                    &&& final(self).undo_entries() == old(self).undo_entries()
                    &&& GraphCommand::executed(
                        old(self).redo_entries().last(),
                        final(self).redo_entries().last(),
                        *old(driver),
                        *final(driver),
                        Err(error),
                    )
                },
            },
    {
        let ghost undo_before = self.undo_stack@;
        let ghost redo_before = self.redo_stack@;
        let mut command = match self.redo_stack.pop() {
            Some(command) => command,
            None => return Ok(false),
        };
        match command.execute(driver) {
            Ok(()) => {},
            Err(error) => {
                self.redo_stack.push(command);
                proof {
                    assert(command_names(self.redo_stack@) =~= command_names(redo_before));
                }
                return Err(error);
            },
        }
        self.undo_stack.push(command);
        proof {
            assert(command_names(self.redo_stack@) =~= command_names(redo_before).drop_last());
            assert(command_names(self.undo_stack@) =~= command_names(undo_before).push(
                command_names(redo_before).last(),
            ));
        }
        Ok(true)
    }

    pub fn can_undo(&self) -> (can: bool)
        ensures
            can == (self.undo_names().len() > 0),
    {
        self.undo_stack.len() > 0
    }

    pub fn can_redo(&self) -> (can: bool)
        ensures
            can == (self.redo_names().len() > 0),
    {
        self.redo_stack.len() > 0
    }

    /// The label of the command an undo would revert.
    pub fn undo_label(&self) -> (label: Option<&'static str>)
        ensures
            match label {
                Some(name) => self.undo_names().len() > 0 && name@ == self.undo_names().last(),
                None => self.undo_names().len() == 0,
            },
    {
        let n = self.undo_stack.len();
        if n == 0 {
            None
        } else {
            Some(self.undo_stack[n - 1].name())
        }
    }

    /// The label of the command a redo would repeat.
    pub fn redo_label(&self) -> (label: Option<&'static str>)
        ensures
            match label {
                Some(name) => self.redo_names().len() > 0 && name@ == self.redo_names().last(),
                None => self.redo_names().len() == 0,
            },
    {
        let n = self.redo_stack.len();
        if n == 0 {
            None
        } else {
            Some(self.redo_stack[n - 1].name())
        }
    }

    /// The undoable commands' descriptions, newest first.
    pub fn undo_history(&self) -> (history: Vec<String>)
        ensures
            history@.len() == self.undo_names().len(),
            forall|j: int|
                0 <= j < history@.len() ==> #[trigger] history@[j]@ == spec_command_description(
                    self.undo_entries()[self.undo_entries().len() - 1 - j],
                ),
    {
        let mut history: Vec<String> = Vec::new();
        let mut i: usize = self.undo_stack.len();
        while i > 0
            invariant
                i <= self.undo_stack@.len(),
                history@.len() + i == self.undo_stack@.len(),
                forall|j: int|
                    0 <= j < history@.len() ==> #[trigger] history@[j]@ == spec_command_description(
                        self.undo_stack@[self.undo_stack@.len() - 1 - j],
                    ),
            decreases i,
        {
            i = i - 1;
            let text = self.undo_stack[i].description();
            history.push(text);
        }
        history
    }

    /// The redoable commands' descriptions, newest first.
    pub fn redo_history(&self) -> (history: Vec<String>)
        ensures
            history@.len() == self.redo_names().len(),
            forall|j: int|
                0 <= j < history@.len() ==> #[trigger] history@[j]@ == spec_command_description(
                    self.redo_entries()[self.redo_entries().len() - 1 - j],
                ),
    {
        let mut history: Vec<String> = Vec::new();
        let mut i: usize = self.redo_stack.len();
        while i > 0
            invariant
                i <= self.redo_stack@.len(),
                history@.len() + i == self.redo_stack@.len(),
                forall|j: int|
                    0 <= j < history@.len() ==> #[trigger] history@[j]@ == spec_command_description(
                        self.redo_stack@[self.redo_stack@.len() - 1 - j],
                    ),
            decreases i,
        {
            i = i - 1;
            let text = self.redo_stack[i].description();
            history.push(text);
        }
        history
    }
}

impl Default for CommandStack {
    fn default() -> (stack: Self)
        ensures
            stack.undo_names().len() == 0,
            stack.redo_names().len() == 0,
    {
        CommandStack::new()
    }
}

} // verus!
