use pw_graph::config::{config_dir, config_path, join_path};
use pw_graph::demo::{DemoDriver, InMemoryDriver};
use pw_graph::driver::GraphDriver;
use pw_graph::effects::{
    check_manifest, required_exports, required_wasm_exports, validate_exports, AudioSpec, EffectError,
    EXPORT_INIT, EXPORT_PROCESS, EXPORT_RESET,
};
use pw_graph::graph::{Direction, Graph, GraphError, Node, NodeType, Port, PortType};
use pw_graph::i18n::{I18n, Locale};
use pw_graph::ids::{LinkId, NodeId, PortId};
use pw_graph::patchbay::Patchbay;
use pw_graph::relay::{
    parse_codec, parse_role, requested_pcm_length, parse_transport, port_u16, positive_u16, positive_u32, CodecKind, Role,
    TransportPreference,
};

fn graph() -> Graph {
    let mut graph = Graph::default();
    graph.add_node(Node::new(NodeId(1), "Source".into(), NodeType::PipeWire)).unwrap();
    graph.add_node(Node::new(NodeId(2), "Sink".into(), NodeType::PipeWire)).unwrap();
    graph
        .add_port(Port::new(PortId(1), NodeId(1), "out".into(), Direction::Source, PortType::Audio))
        .unwrap();
    graph
        .add_port(Port::new(PortId(2), NodeId(2), "in".into(), Direction::Sink, PortType::Audio))
        .unwrap();
    graph
}

#[test]
fn validates_and_removes_links() {
    let mut graph = graph();
    graph.add_link(LinkId(1), PortId(1), PortId(2)).unwrap();
    assert_eq!(graph.links.len(), 1);
    graph.remove_link(LinkId(1)).unwrap();
    assert!(graph.links.is_empty());
}

#[test]
fn rejects_wrong_direction() {
    let mut graph = graph();
    let error = graph.add_link(LinkId(1), PortId(2), PortId(1)).unwrap_err();
    assert_eq!(error, GraphError::NotSource(PortId(2)));
}

#[test]
fn a_pair_is_linked_at_most_once() {
    let mut graph = graph();
    graph.add_link(LinkId(1), PortId(1), PortId(2)).unwrap();
    assert_eq!(
        graph.add_link(LinkId(2), PortId(1), PortId(2)).unwrap_err(),
        GraphError::DuplicateConnection(PortId(1), PortId(2))
    );
    assert_eq!(
        graph.add_link(LinkId(1), PortId(1), PortId(2)).unwrap_err(),
        GraphError::DuplicateLink(LinkId(1))
    );
    assert_eq!(graph.remove_link(LinkId(7)).unwrap_err(), GraphError::MissingLink(LinkId(7)));
    assert_eq!(
        GraphError::PortNodeMismatch(PortId(3), NodeId(4), NodeId(5)).message(),
        "port 3 belongs to node 4, not node 5"
    );
    assert_eq!(GraphError::MissingLink(LinkId(7)).message(), "link 7 does not exist");
}

#[test]
fn demo_backend_connects_and_disconnects() {
    let mut driver = DemoDriver::demo();
    let link = driver.connect(PortId(1), PortId(3)).unwrap();
    assert_eq!(driver.graph().links.len(), 1);
    driver.disconnect(link.id).unwrap();
    assert!(driver.graph().links.is_empty());
}

#[test]
fn demo_backend_has_a_stable_graph_for_demo_runs() {
    let driver = DemoDriver::demo();
    assert_eq!(driver.graph().nodes.len(), 4);
    assert_eq!(driver.graph().ports.len(), 6);
    assert!(driver
        .graph()
        .nodes
        .values()
        .iter()
        .all(|node| node.node_type == NodeType::PipeWire));
}

#[test]
fn connecting_by_key_twice_adds_one_link() {
    let mut driver = InMemoryDriver::demo();
    let output = driver.graph().port_key(PortId(1)).unwrap();
    let input = driver.graph().port_key(PortId(3)).unwrap();
    assert!(driver.connect_by_key_if_missing(&output, &input).unwrap().is_some());
    assert!(driver.connect_by_key_if_missing(&output, &input).unwrap().is_none());
    assert_eq!(driver.graph().links.len(), 1);
    assert!(driver.disconnect_by_key_if_present(&output, &input).unwrap().is_some());
    assert!(driver.disconnect_by_key_if_present(&output, &input).unwrap().is_none());
    assert!(driver.is_connection_suppressed(&output, &input));
    let wrong = driver.connect(PortId(3), PortId(1));
    assert!(wrong.is_err());
}

#[test]
fn required_exports_are_validated() {
    let exports = required_exports();
    validate_exports(&exports).unwrap();
    let missing = [EXPORT_INIT, EXPORT_PROCESS, EXPORT_RESET];
    assert!(validate_exports(&missing).is_err());
}

#[test]
fn the_first_missing_export_in_name_order_is_reported() {
    assert_eq!(required_wasm_exports(), required_exports());
    match validate_exports(&["effect_reset", "effect_init"]) {
        Err(EffectError::MissingWasmExport(name)) => assert_eq!(name, "effect_metadata"),
        other => panic!("expected a missing export, got {other:?}"),
    }
    assert!(check_manifest(1, "test.effect").is_ok());
    assert!(matches!(check_manifest(2, "test.effect"), Err(EffectError::InvalidWasmManifest(m)) if m == "unsupported ABI version 2"));
    assert!(matches!(check_manifest(1, "   "), Err(EffectError::InvalidWasmManifest(m)) if m == "effect id cannot be empty"));
}

#[test]
fn audio_specs_need_a_rate_channels_and_frames() {
    let good = AudioSpec { sample_rate: 48_000, channels: 2, max_frames: 1024 };
    assert!(good.validate().is_ok());
    let bad = AudioSpec { sample_rate: 48_000, channels: 0, max_frames: 1024 };
    assert!(matches!(
        bad.validate(),
        Err(EffectError::InvalidAudioSpec { sample_rate: 48_000, channels: 0, max_frames: 1024 })
    ));
}

#[test]
fn spanish_translates_and_falls_back() {
    let i18n = I18n::new(Locale::Spanish);
    assert_eq!(i18n.text("toolbar.undo"), "Deshacer");
    assert_eq!(i18n.text("missing.key"), "missing.key");
}

#[test]
fn formatting_replaces_named_variables() {
    let i18n = I18n::new(Locale::default());
    assert_eq!(
        i18n.format("status.connected", &[("output", "1".into()), ("input", "2".into())]),
        "Connected port 1 to 2"
    );
}

#[test]
fn locales_parse_from_language_tags() {
    assert_eq!(Locale::parse(" ES_mx "), Locale::Spanish);
    assert_eq!(Locale::parse("fr-CA"), Locale::French);
    assert_eq!(Locale::parse("de"), Locale::English);
    for locale in Locale::ALL {
        assert_eq!(Locale::parse(locale.code()), locale);
    }
    assert_eq!(Locale::French.native_name(), "Français");
    let mut i18n = I18n::from_language("fr");
    assert_eq!(i18n.locale(), Locale::French);
    assert_eq!(i18n.text("toolbar.undo"), "Annuler");
    i18n.set_locale(Locale::English);
    assert_eq!(i18n.text("toolbar.undo"), "Undo");
    assert!(I18n::try_new(Locale::Spanish).is_some());
    assert_eq!(i18n.format("toolbar.undo", &[("x", "y".into())]), "Undo");
}

#[test]
fn parses_android_client_options() {
    assert_eq!(parse_role("emit").unwrap(), Role::Emit);
    assert_eq!(parse_role("receive").unwrap(), Role::Receive);
    assert_eq!(parse_role("both").unwrap(), Role::Both);
    assert_eq!(parse_codec("pcm").unwrap(), CodecKind::Pcm);
    assert_eq!(parse_codec("opus").unwrap(), CodecKind::Opus);
    assert_eq!(parse_transport("wifi").unwrap(), TransportPreference::Wifi);
}

#[test]
fn invalid_android_enum_options_are_errors_instead_of_defaults() {
    assert!(parse_role("not-a-role").is_err());
    assert!(parse_codec("not-a-codec").is_err());
    assert!(parse_transport("not-a-transport").is_err());
}

#[test]
fn jint_audio_values_are_checked_before_narrowing() {
    for value in [0, -1, -65536] {
        assert!(positive_u16("channels", value).is_err());
        assert!(positive_u32("sample rate", value).is_err());
    }
    for value in [65_536, 65_538] {
        assert!(positive_u16("channels", value).is_err());
    }
    assert_eq!(positive_u16("channels", 1).unwrap(), 1);
    assert_eq!(positive_u16("channels", 2).unwrap(), 2);
    assert_eq!(positive_u32("sample rate", 48_000).unwrap(), 48_000);
    assert_eq!(port_u16(0).unwrap(), 0);
    assert!(port_u16(-1).is_err());
    assert!(port_u16(65_536).is_err());
    assert_eq!(positive_u16("channels", 0).unwrap_err(), "channels must be positive");
    assert_eq!(parse_role(" BOTH ").unwrap(), Role::Both);
    assert_eq!(parse_role("Nope").unwrap_err(), "unknown client role 'nope'");
}

#[test]
fn activates_and_is_idempotent() {
    let mut patchbay = Patchbay::new("demo");
    patchbay.add_connection(PortId(1), PortId(3), true);
    let mut driver = InMemoryDriver::demo();
    assert_eq!(patchbay.activate(&mut driver, false, false).unwrap().connected, 1);
    assert_eq!(patchbay.activate(&mut driver, false, false).unwrap().already_present, 1);
}

#[test]
fn patchbay_rules_are_kept_once_and_can_be_forgotten() {
    let driver = InMemoryDriver::demo();
    let mut patchbay = Patchbay::new("demo");
    patchbay.add_graph_connection(driver.graph(), PortId(1), PortId(3), false);
    patchbay.add_graph_connection(driver.graph(), PortId(1), PortId(3), true);
    assert_eq!(patchbay.connections.len(), 1);
    assert!(patchbay.connections[0].pinned);
    assert_eq!(patchbay.connections[0].output_node, "Audio Capture");
    assert_eq!(patchbay.connections[0].output_name, "capture_FL");
    assert!(patchbay.remove_connection(PortId(1), PortId(3)));
    assert!(!patchbay.remove_connection(PortId(1), PortId(3)));
    assert!(patchbay.connections.is_empty());
}

#[test]
fn an_exclusive_activation_removes_unsaved_links() {
    let mut driver = InMemoryDriver::demo();
    driver.connect(PortId(2), PortId(4)).unwrap();
    let mut patchbay = Patchbay::new("demo");
    patchbay.add_graph_connection(driver.graph(), PortId(1), PortId(3), false);
    let report = patchbay.activate(&mut driver, true, false).unwrap();
    assert_eq!(report.disconnected, 1);
    assert_eq!(report.connected, 1);
    assert_eq!(driver.graph().links.len(), 1);

    let mut snapshot = Patchbay::new("snapshot");
    snapshot.snapshot_graph(driver.graph(), true);
    assert_eq!(snapshot.connections.len(), 1);
    let ports = snapshot.resolve_connection(driver.graph(), &snapshot.connections[0]);
    assert_eq!(ports, Some((PortId(1), PortId(3))));
}

#[test]
fn configuration_lives_under_the_xdg_directory() {
    assert_eq!(
        config_path("qpwgraph-rs", Some("/tmp/xdg"), Some("/home/u")),
        "/tmp/xdg/qpwgraph-rs/config.toml"
    );
    assert_eq!(
        config_path("qpwgraph-rs", None, Some("/home/u")),
        "/home/u/.config/qpwgraph-rs/config.toml"
    );
    assert_eq!(config_dir("app", None, None), "./.app");
    assert_eq!(join_path("/a/", "b"), "/a/b");
    assert_eq!(join_path("/a", "/b"), "/b");
}

fn position_of(positions: &[pw_graph::layout::NodePosition], id: NodeId) -> (u64, u64) {
    let found = positions.iter().find(|p| p.node == id).expect("every node is placed");
    (found.x, found.y)
}

fn layout_graph() -> Graph {
    let mut graph = Graph::default();
    for (id, name) in [(1, "Audio source"), (2, "Audio sink"), (3, "MIDI source")] {
        graph.add_node(Node::new(NodeId(id), name.into(), NodeType::PipeWire)).unwrap();
    }
    graph
        .add_port(Port::new(PortId(10), NodeId(1), "out".into(), Direction::Source, PortType::Audio))
        .unwrap();
    graph
        .add_port(Port::new(PortId(11), NodeId(2), "in".into(), Direction::Sink, PortType::Audio))
        .unwrap();
    graph
        .add_port(Port::new(PortId(12), NodeId(3), "out".into(), Direction::Source, PortType::MidiJack))
        .unwrap();
    graph
}

#[test]
fn default_layout_groups_media_and_direction() {
    let graph = layout_graph();
    let positions = graph.default_node_positions();
    assert!(position_of(&positions, NodeId(1)).0 < position_of(&positions, NodeId(2)).0);
    assert!(position_of(&positions, NodeId(1)).1 < position_of(&positions, NodeId(3)).1);
}

#[test]
fn default_layout_places_bands_and_columns_exactly() {
    let graph = layout_graph();
    let positions = graph.default_node_positions();
    assert_eq!(positions.len(), 3);
    assert_eq!(position_of(&positions, NodeId(1)), (40, 40));
    assert_eq!(position_of(&positions, NodeId(2)), (680, 40));
    // The audio band is one node with one port tall: 48 + 25 + 70, then a gap of 100.
    assert_eq!(position_of(&positions, NodeId(3)), (40, 283));
}

#[test]
fn default_layout_stacks_a_column_by_lowercase_name_then_id() {
    let mut graph = Graph::default();
    for (id, name) in [(1, "beta"), (2, "Alpha"), (3, "alpha"), (4, "idle")] {
        graph.add_node(Node::new(NodeId(id), name.into(), NodeType::PipeWire)).unwrap();
    }
    for (port, node) in [(10, 1), (11, 2), (12, 3), (13, 3)] {
        graph
            .add_port(Port::new(PortId(port), NodeId(node), "out".into(), Direction::Source, PortType::Audio))
            .unwrap();
    }
    let positions = graph.default_node_positions();
    // "Alpha" (id 2) and "alpha" (id 3) tie on the lower-cased name; the smaller id goes first.
    assert_eq!(position_of(&positions, NodeId(2)), (40, 40));
    assert_eq!(position_of(&positions, NodeId(3)), (40, 40 + 143));
    assert_eq!(position_of(&positions, NodeId(1)), (40, 40 + 143 + 168));
    // A node with no port is in the middle column of the last band.
    assert_eq!(position_of(&positions, NodeId(4)), (360, 40 + 143 + 168 + 143 + 100));
}

#[test]
fn an_auto_disconnect_activation_clears_the_rule_input() {
    let mut driver = InMemoryDriver::demo();
    driver.connect(PortId(2), PortId(3)).unwrap();
    driver.connect(PortId(2), PortId(4)).unwrap();
    let mut patchbay = Patchbay::new("demo");
    patchbay.add_graph_connection(driver.graph(), PortId(1), PortId(3), false);
    let report = patchbay.activate(&mut driver, false, true).unwrap();
    assert_eq!(report.disconnected, 1);
    assert_eq!(report.connected, 1);
    assert!(report.failed.is_empty());
    let into_playback_fl: Vec<_> =
        driver.graph().links.values().iter().filter(|l| l.input_port == PortId(3)).collect();
    assert_eq!(into_playback_fl.len(), 1);
    assert_eq!(into_playback_fl[0].output_port, PortId(1));
    assert_eq!(driver.graph().links.len(), 2, "links into other inputs stay");
}

#[test]
fn pcm_lengths_are_checked_against_the_array_and_the_quantum() {
    assert_eq!(requested_pcm_length(-1, 10, 8).unwrap_err(), "PCM length must not be negative");
    assert_eq!(requested_pcm_length(11, 10, 8).unwrap_err(), "PCM length exceeds the Java array");
    assert_eq!(requested_pcm_length(9, 10, 8).unwrap(), None);
    assert_eq!(requested_pcm_length(8, 10, 8).unwrap(), Some(8));
    assert_eq!(requested_pcm_length(0, 0, 8).unwrap(), Some(0));
}
