use pw_graph::graph::{Direction, Graph, GraphError, Link, Node, NodeType, Port, PortType};
use pw_graph::ids::{LinkId, NodeId, PortId};
use pw_graph::pipewire::native_link_error;
use pw_graph::registry::{
    build_graph_from_state, created_link_id, forget_global, parse_unsigned, record_global, GlobalKind,
    RegistryState,
};

fn props(pairs: &[(&str, &str)]) -> Vec<(String, String)> {
    pairs.iter().map(|(k, v)| (k.to_string(), v.to_string())).collect()
}

fn sample_state() -> RegistryState {
    let mut state = RegistryState::new();
    record_global(
        &mut state,
        10,
        GlobalKind::Node,
        &props(&[("node.name", "Synth"), ("media.class", "Audio/Source"), ("object.serial", "77")]),
    );
    record_global(&mut state, 11, GlobalKind::Node, &props(&[("node.name", "qpwgraph-rs meter 10")]));
    record_global(
        &mut state,
        13,
        GlobalKind::Node,
        &props(&[("node.description", "Speakers"), ("media.class", "Audio/Sink")]),
    );
    record_global(
        &mut state,
        20,
        GlobalKind::Port,
        &props(&[
            ("node.id", "10"),
            ("port.name", "out_FL"),
            ("port.direction", "out"),
            ("format.dsp", "32 bit float mono audio"),
            ("audio.channel", "FL"),
        ]),
    );
    record_global(&mut state, 21, GlobalKind::Port, &props(&[("node.id", "12"), ("port.direction", "in")]));
    record_global(&mut state, 22, GlobalKind::Port, &props(&[("node.id", "11"), ("port.direction", "in")]));
    record_global(&mut state, 23, GlobalKind::Port, &props(&[("node.id", "13"), ("port.direction", "in")]));
    record_global(
        &mut state,
        30,
        GlobalKind::Link,
        &props(&[("link.output.port", "20"), ("link.input.port", "23")]),
    );
    record_global(
        &mut state,
        31,
        GlobalKind::Link,
        &props(&[("link.output.port", "20"), ("link.input.port", "21")]),
    );
    state
}

#[test]
fn unsigned_numbers_parse_as_from_str_does() {
    assert_eq!(parse_unsigned("42", u32::MAX as u64), Some(42));
    assert_eq!(parse_unsigned("+7", u32::MAX as u64), Some(7));
    assert_eq!(parse_unsigned("007", u32::MAX as u64), Some(7));
    assert_eq!(parse_unsigned("", u32::MAX as u64), None);
    assert_eq!(parse_unsigned("+", u32::MAX as u64), None);
    assert_eq!(parse_unsigned("-1", u32::MAX as u64), None);
    assert_eq!(parse_unsigned("12a", u32::MAX as u64), None);
    assert_eq!(parse_unsigned("4294967295", u32::MAX as u64), Some(4294967295));
    assert_eq!(parse_unsigned("4294967296", u32::MAX as u64), None);
    assert_eq!(parse_unsigned("18446744073709551615", u64::MAX), Some(u64::MAX));
    assert_eq!(parse_unsigned("18446744073709551616", u64::MAX), None);
}

#[test]
fn globals_are_recorded_from_their_properties() {
    let state = sample_state();
    let synth = state.node(10).unwrap();
    assert_eq!(synth.name, "Synth");
    assert_eq!(synth.media_class, "Audio/Source");
    assert_eq!(synth.serial, Some(77));
    let speakers = state.node(13).unwrap();
    assert_eq!(speakers.name, "Speakers");
    assert_eq!(speakers.serial, None);
    let out = state.port(20).unwrap();
    assert_eq!(out.node_id, 10);
    assert_eq!(out.name, "out_FL");
    assert_eq!(out.direction, Direction::Source);
    assert_eq!(out.media_type, "32 bit float mono audio");
    assert_eq!(out.channel.as_deref(), Some("FL"));
    let input = state.port(23).unwrap();
    assert_eq!(input.name, "PipeWire port");
    assert_eq!(input.direction, Direction::Sink);
    assert_eq!(input.media_type, "");
    let link = state.link(30).unwrap();
    assert_eq!((link.output_port, link.input_port), (20, 23));
}

#[test]
fn unnamed_globals_get_fallbacks_and_bad_ids_read_as_zero() {
    let mut state = RegistryState::new();
    record_global(&mut state, 1, GlobalKind::Node, &props(&[]));
    record_global(&mut state, 2, GlobalKind::Port, &props(&[("node.id", "x"), ("port.direction", "OUT")]));
    record_global(&mut state, 3, GlobalKind::Other, &props(&[("node.name", "ignored")]));
    assert_eq!(state.node(1).unwrap().name, "PipeWire node");
    assert_eq!(state.node(1).unwrap().media_class, "");
    assert_eq!(state.port(2).unwrap().node_id, 0);
    assert_eq!(state.port(2).unwrap().direction, Direction::Sink);
    assert!(state.node(3).is_none());
}

#[test]
fn the_graph_shows_registry_nodes_ports_and_links() {
    let state = sample_state();
    let graph = build_graph_from_state(&state, &[NodeId(13)]).unwrap();
    assert_eq!(graph.node(NodeId(10)).unwrap().name, "Synth");
    assert_eq!(graph.node(NodeId(10)).unwrap().node_type, NodeType::PipeWire);
    assert_eq!(graph.node(NodeId(13)).unwrap().node_type, NodeType::Effect);
    assert!(graph.node(NodeId(11)).is_none(), "meter streams stay hidden");
    let out = graph.port(PortId(20)).unwrap();
    assert_eq!(out.port_type, PortType::Audio);
    assert_eq!(out.direction, Direction::Source);
    assert_eq!(graph.port(PortId(23)).unwrap().port_type, PortType::Audio);
    assert!(graph.port(PortId(21)).is_none());
    assert!(graph.port(PortId(22)).is_none());
    assert_eq!(graph.node(NodeId(10)).unwrap().ports, vec![PortId(20)]);
    assert_eq!(
        *graph.link(LinkId(30)).unwrap(),
        Link { id: LinkId(30), output_port: PortId(20), input_port: PortId(23) }
    );
    assert!(graph.link(LinkId(31)).is_none());
}

#[test]
fn a_withdrawn_global_leaves_the_graph() {
    let mut state = sample_state();
    forget_global(&mut state, 30);
    forget_global(&mut state, 13);
    assert!(state.link(30).is_none());
    let graph = build_graph_from_state(&state, &[]).unwrap();
    assert!(graph.link(LinkId(30)).is_none());
    assert!(graph.node(NodeId(13)).is_none());
    assert!(graph.port(PortId(23)).is_none());
}

fn native_graph() -> Graph {
    let mut graph = Graph::default();
    graph.add_node(Node::new(NodeId(1), "A".into(), NodeType::PipeWire)).unwrap();
    graph.add_node(Node::new(NodeId(2), "B".into(), NodeType::PipeWire)).unwrap();
    graph.add_port(Port::new(PortId(10), NodeId(1), "out".into(), Direction::Source, PortType::Unknown)).unwrap();
    graph.add_port(Port::new(PortId(11), NodeId(1), "midi".into(), Direction::Source, PortType::MidiJack)).unwrap();
    graph.add_port(Port::new(PortId(20), NodeId(2), "in".into(), Direction::Sink, PortType::Audio)).unwrap();
    graph
}

#[test]
fn native_links_accept_unknown_media_types() {
    let mut graph = native_graph();
    assert_eq!(native_link_error(&graph, PortId(10), PortId(20)), None);
    assert_eq!(
        native_link_error(&graph, PortId(11), PortId(20)),
        Some(GraphError::IncompatiblePorts(PortId(11), PortId(20)))
    );
    assert_eq!(native_link_error(&graph, PortId(20), PortId(10)), Some(GraphError::NotSource(PortId(20))));
    assert_eq!(native_link_error(&graph, PortId(10), PortId(11)), Some(GraphError::NotSink(PortId(11))));
    assert_eq!(native_link_error(&graph, PortId(99), PortId(20)), Some(GraphError::MissingPort(PortId(99))));
    graph.insert_existing_link(Link { id: LinkId(5), output_port: PortId(10), input_port: PortId(20) }).unwrap();
    assert_eq!(
        native_link_error(&graph, PortId(10), PortId(20)),
        Some(GraphError::DuplicateConnection(PortId(10), PortId(20)))
    );
}

#[test]
fn a_created_link_takes_the_id_the_registry_reports() {
    let mut state = sample_state();
    assert_eq!(created_link_id(&state, 20, 23, 99), 30);
    assert_eq!(created_link_id(&state, 23, 20, 99), 99);
    record_global(&mut state, 25, GlobalKind::Link, &props(&[("link.output.port", "20"), ("link.input.port", "23")]));
    assert_eq!(created_link_id(&state, 20, 23, 99), 25);
}
