//! Graph models, stable identities, and the policies that a PipeWire-style
//! patchbay applies to them.

pub mod ids;
pub mod id_map;
pub mod text;
pub mod metering;
pub mod router;
pub mod graph;
pub mod i18n;
pub mod windows_audio;
pub mod windows_midi;
pub mod backend;
pub mod pipewire;
pub mod registry;
pub mod effects;
pub mod relay;
pub mod driver;
pub mod demo;
pub mod command;
pub mod patchbay;
pub mod patchbay_xml;
pub mod config;
pub mod windows_relay;
pub mod windows_routing;
pub mod layout;
