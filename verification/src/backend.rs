//! What a backend operation can fail with.

use vstd::prelude::*;
use crate::effects::EffectInstanceConfig;
use crate::graph::{spec_graph_error_message, GraphError, PortKey};
use crate::ids::{NodeId, PortId};
use crate::text::{append_str, string_from_chars};

verus! {

#[derive(Debug)]
pub enum BackendError {
    /// The graph model refused the change.
    Graph(GraphError),
    /// The backend cannot do this at all.
    Unsupported(String),
    /// The native audio system reported a failure.
    Native(String),
}

pub type BackendResult<T> = Result<T, BackendError>;

/// What each backend error says.
pub open spec fn spec_backend_message(error: BackendError) -> Seq<char> {
    match error {
        BackendError::Graph(graph) => spec_graph_error_message(graph),
        BackendError::Unsupported(message) => "backend operation is not available: "@ + message@,
        BackendError::Native(message) => "native backend error: "@ + message@,
    }
}

impl From<GraphError> for BackendError {
    fn from(error: GraphError) -> (converted: Self) {
        BackendError::Graph(error)
    }
}

impl vstd::std_specs::convert::FromSpecImpl<GraphError> for BackendError {
    open spec fn obeys_from_spec() -> bool {
        true
    }

    open spec fn from_spec(v: GraphError) -> Self {
        BackendError::Graph(v)
    }
}

impl BackendError {
    /// A failure reported by the native audio system.
    pub fn native(message: &str) -> (error: Self)
        ensures
            error matches BackendError::Native(m) && m@ == message@,
    {
        BackendError::Native(message.to_owned())
    }

    /// An operation this backend does not offer.
    pub fn unsupported(message: &str) -> (error: Self)
        ensures
            error matches BackendError::Unsupported(m) && m@ == message@,
    {
        BackendError::Unsupported(message.to_owned())
    }

    /// The error's message.
    pub fn message(&self) -> (text: String)
        ensures
            text@ == spec_backend_message(*self),
    {
        match self {
            BackendError::Graph(graph) => graph.message(),
            BackendError::Unsupported(message) => {
                let mut t: Vec<char> = Vec::new();
                append_str(&mut t, "backend operation is not available: ");
                append_str(&mut t, message.as_str());
                string_from_chars(t.as_slice())
            },
            BackendError::Native(message) => {
                let mut t: Vec<char> = Vec::new();
                append_str(&mut t, "native backend error: ");
                append_str(&mut t, message.as_str());
                string_from_chars(t.as_slice())
            },
        }
    }

    pub fn effect_source_unavailable() -> (error: Self)
        ensures
            error matches BackendError::Native(m) && m@ == "effect source port is unavailable"@,
    {
        Self::native("effect source port is unavailable")
    }

    pub fn effect_destination_unavailable() -> (error: Self)
        ensures
            error matches BackendError::Native(m) && m@ == "effect destination port is unavailable"@,
    {
        Self::native("effect destination port is unavailable")
    }

    pub fn effect_not_linked() -> (error: Self)
        ensures
            error matches BackendError::Native(m) && m@
                == "effect source and destination are not linked"@,
    {
        Self::native("effect source and destination are not linked")
    }

    pub fn effect_source_disappeared() -> (error: Self)
        ensures
            error matches BackendError::Native(m) && m@
                == "effect source disappeared while removing effect"@,
    {
        Self::native("effect source disappeared while removing effect")
    }

    pub fn effect_destination_disappeared() -> (error: Self)
        ensures
            error matches BackendError::Native(m) && m@
                == "effect destination disappeared while removing effect"@,
    {
        Self::native("effect destination disappeared while removing effect")
    }

    pub fn effect_routing_incomplete() -> (error: Self)
        ensures
            error matches BackendError::Native(m) && m@
                == "effect routing is incomplete and cannot be restored"@,
    {
        Self::native("effect routing is incomplete and cannot be restored")
    }

    pub fn unknown_effect_instance(instance_id: &str) -> (error: Self)
        ensures
            error matches BackendError::Native(m) && m@ == "unknown effect instance "@ + instance_id@,
    {
        let mut t: Vec<char> = Vec::new();
        append_str(&mut t, "unknown effect instance ");
        append_str(&mut t, instance_id);
        BackendError::Native(string_from_chars(t.as_slice()))
    }

    pub fn effect_already_exists(instance_id: &str) -> (error: Self)
        ensures
            error matches BackendError::Native(m) && m@ == "effect instance "@ + instance_id@
                + " already exists"@,
    {
        let mut t: Vec<char> = Vec::new();
        append_str(&mut t, "effect instance ");
        append_str(&mut t, instance_id);
        append_str(&mut t, " already exists");
        BackendError::Native(string_from_chars(t.as_slice()))
    }
}

/// Effect processing is not offered by a backend.
pub fn unsupported_effect() -> (error: BackendError)
    ensures
        error matches BackendError::Unsupported(m) && m@
            == "effect processing is not available for this backend"@,
{
    BackendError::unsupported("effect processing is not available for this backend")
}

/// A node operation (`layout`, `mute`, `volume`) is not offered by a backend.
pub fn unsupported_node_op(operation: &str) -> (error: BackendError)
    ensures
        error matches BackendError::Unsupported(m) && m@ == "node "@ + operation@
            + " is not supported by this backend"@,
{
    let mut t: Vec<char> = Vec::new();
    append_str(&mut t, "node ");
    append_str(&mut t, operation);
    append_str(&mut t, " is not supported by this backend");
    BackendError::Unsupported(string_from_chars(t.as_slice()))
}

/// `{operation} failed: {error}` as a native error.
pub fn native_error(operation: &str, error: &str) -> (failure: BackendError)
    ensures
        failure matches BackendError::Native(m) && m@ == operation@ + " failed: "@ + error@,
{
    let mut t: Vec<char> = Vec::new();
    append_str(&mut t, operation);
    append_str(&mut t, " failed: ");
    append_str(&mut t, error);
    BackendError::Native(string_from_chars(t.as_slice()))
}

/// `could not create effect: {reason}`.
pub fn effect_create_failed(reason: &str) -> (error: BackendError)
    ensures
        error matches BackendError::Native(m) && m@ == "could not create effect: "@ + reason@,
{
    let mut t: Vec<char> = Vec::new();
    append_str(&mut t, "could not create effect: ");
    append_str(&mut t, reason);
    BackendError::Native(string_from_chars(t.as_slice()))
}

/// What is needed to create a free-standing effect node: one audio input
/// and one audio output, patched like any other node.
#[derive(Debug)]
pub struct EffectNodeRequest {
    pub instance_id: String,
    pub effect_id: String,
    pub module_file: Option<String>,
    pub enabled: bool,
}

/// What is needed to insert an effect into an existing link. The endpoint
/// keys are taken before the graph changes, so the original link can be
/// restored after the backend has renumbered its ports.
#[derive(Debug)]
pub struct EffectInsertRequest {
    pub instance_id: String,
    pub effect_id: String,
    pub module_file: Option<String>,
    pub source: PortKey,
    pub destination: PortKey,
    pub enabled: bool,
}

impl From<EffectInsertRequest> for EffectNodeRequest {
    fn from(request: EffectInsertRequest) -> (node: Self) {
        EffectNodeRequest {
            instance_id: request.instance_id,
            effect_id: request.effect_id,
            module_file: request.module_file,
            enabled: request.enabled,
        }
    }
}

impl vstd::std_specs::convert::FromSpecImpl<EffectInsertRequest> for EffectNodeRequest {
    open spec fn obeys_from_spec() -> bool {
        true
    }

    open spec fn from_spec(request: EffectInsertRequest) -> Self {
        EffectNodeRequest {
            instance_id: request.instance_id,
            effect_id: request.effect_id,
            module_file: request.module_file,
            enabled: request.enabled,
        }
    }
}

/// An effect the backend hosts: its configuration, its node and ports, and,
/// when it was inserted into a link, the endpoints of that link.
#[derive(Debug)]
pub struct EffectInstance {
    pub config: EffectInstanceConfig,
    pub node_id: NodeId,
    pub input_port: PortId,
    pub output_port: PortId,
    pub source: Option<PortKey>,
    pub destination: Option<PortKey>,
    pub error: Option<String>,
}

impl Clone for EffectInstance {
    fn clone(&self) -> (copy: Self)
        ensures
            copy == *self,
    {
        let source = match &self.source {
            Some(key) => Some(key.clone()),
            None => None,
        };
        let destination = match &self.destination {
            Some(key) => Some(key.clone()),
            None => None,
        };
        let error = match &self.error {
            Some(text) => Some(text.clone()),
            None => None,
        };
        EffectInstance {
            config: self.config.clone(),
            node_id: self.node_id,
            input_port: self.input_port,
            output_port: self.output_port,
            source,
            destination,
            error,
        }
    }
}

} // verus!
