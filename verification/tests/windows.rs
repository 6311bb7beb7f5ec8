use pw_graph::graph::{Direction, Graph, GraphError, Node, NodeType, Port, PortType};
use pw_graph::ids::LinkId;
use pw_graph::windows_audio::{add_session, session_display_name, session_node_local_id, session_port_local_id};
use pw_graph::ids::{backend_for_node, backend_for_port, BackendKind, NodeId, PortId};
use pw_graph::windows_audio::{
    endpoint_direction, endpoint_node_local_id, endpoint_port_local_id, graph_id, managed_link,
    session_direction, session_link_local_id, session_link_ports, stable_local_id, DataFlow,
};
use pw_graph::ids::LOCAL_ID_MASK;
use pw_graph::windows_midi::{
    device_from_caps, device_from_identity, fallback_identity, unique_identity, wide_name,
    DeviceKind, IdentityOccurrences,
};

#[test]
fn windows_stable_ids_are_deterministic_and_namespaced() {
    let endpoint = graph_id(endpoint_node_local_id("speaker-id"));
    let port = graph_id(endpoint_port_local_id("speaker-id"));
    assert_eq!(endpoint, graph_id(endpoint_node_local_id("speaker-id")));
    assert_ne!(endpoint, port);
    assert_eq!(backend_for_node(NodeId(endpoint)), Some(BackendKind::WindowsAudio));
    assert_eq!(backend_for_port(PortId(port)), Some(BackendKind::WindowsAudio));
}

#[test]
fn windows_session_link_identity_depends_on_both_native_identifiers() {
    assert_ne!(
        session_link_local_id("endpoint-a", "session-a"),
        session_link_local_id("endpoint-b", "session-a")
    );
    assert_ne!(
        session_link_local_id("endpoint-a", "session-a"),
        session_link_local_id("endpoint-a", "session-b")
    );
}

#[test]
fn windows_endpoint_and_session_direction_mapping_matches_core_audio_flow() {
    assert_eq!(endpoint_direction(DataFlow::Render), Direction::Sink);
    assert_eq!(endpoint_direction(DataFlow::Capture), Direction::Source);
    assert_eq!(session_direction(DataFlow::Render), Direction::Source);
    assert_eq!(session_direction(DataFlow::Capture), Direction::Sink);

    let session_port = PortId(10);
    let endpoint_port = PortId(20);
    assert_eq!(
        session_link_ports(DataFlow::Render, session_port, endpoint_port),
        (session_port, endpoint_port)
    );
    assert_eq!(
        session_link_ports(DataFlow::Capture, session_port, endpoint_port),
        (endpoint_port, session_port)
    );
}

#[test]
fn tests_stable_ids_are_deterministic_and_namespaced() {
    let endpoint = graph_id(endpoint_node_local_id("speaker-id"));
    let port = graph_id(endpoint_port_local_id("speaker-id"));
    assert_eq!(endpoint, graph_id(endpoint_node_local_id("speaker-id")));
    assert_ne!(endpoint, port);
    assert_eq!(backend_for_node(NodeId(endpoint)), Some(BackendKind::WindowsAudio));
    assert_eq!(backend_for_port(PortId(port)), Some(BackendKind::WindowsAudio));
}

#[test]
fn tests_session_link_identity_depends_on_both_native_identifiers() {
    assert_ne!(
        session_link_local_id("endpoint-a", "session-a"),
        session_link_local_id("endpoint-b", "session-a")
    );
    assert_ne!(
        session_link_local_id("endpoint-a", "session-a"),
        session_link_local_id("endpoint-a", "session-b")
    );
}

#[test]
fn tests_endpoint_and_session_direction_mapping_matches_core_audio_flow() {
    assert_eq!(endpoint_direction(DataFlow::Render), Direction::Sink);
    assert_eq!(endpoint_direction(DataFlow::Capture), Direction::Source);
    assert_eq!(session_direction(DataFlow::Render), Direction::Source);
    assert_eq!(session_direction(DataFlow::Capture), Direction::Sink);

    let session_port = PortId(10);
    let endpoint_port = PortId(20);
    assert_eq!(
        session_link_ports(DataFlow::Render, session_port, endpoint_port),
        (session_port, endpoint_port)
    );
    assert_eq!(
        session_link_ports(DataFlow::Capture, session_port, endpoint_port),
        (endpoint_port, session_port)
    );
}

#[test]
fn stable_local_id_is_fnv1a_cut_to_the_local_bits() {
    // The hash of the empty string is the offset basis itself.
    assert_eq!(stable_local_id(""), 0xcbf2_9ce4_8422_2325 & LOCAL_ID_MASK);
    // ("a" ^ basis) * 0x1000_0000_01b3, wrapped and cut to 56 bits.
    assert_eq!(stable_local_id("a"), 32_888_920_475_823_244);
    assert_eq!(endpoint_node_local_id("x"), stable_local_id("endpoint-node:x"));
    assert_eq!(session_link_local_id("e", "s"), stable_local_id("session-link:e:s"));
}

#[test]
fn managed_links_keep_their_identity_across_rebuilds() {
    let first = managed_link(PortId(12), PortId(345));
    let again = managed_link(PortId(12), PortId(345));
    assert_eq!(first, again);
    assert_eq!(first.output_port, PortId(12));
    assert_eq!(first.input_port, PortId(345));
    assert_eq!(
        first.id.0,
        graph_id(stable_local_id("route-link:12:345"))
    );
}

#[test]
fn device_names_stop_at_the_nul_padding() {
    let mut raw = [0u16; 32];
    for (slot, value) in raw.iter_mut().zip("MPK mini".encode_utf16()) {
        *slot = value;
    }
    assert_eq!(wide_name(&raw), "MPK mini");
    assert_eq!(wide_name(&[0u16; 8]), "");
}

#[test]
fn inputs_and_outputs_never_share_an_id() {
    let input = device_from_caps(0, DeviceKind::Input, "in".into());
    let output = device_from_caps(0, DeviceKind::Output, "out".into());
    assert_ne!(input.node_id, output.node_id);
    assert_ne!(input.port_id, output.port_id);
    assert_ne!(input.node_id.0, input.port_id.0);
}

#[test]
fn device_identity_does_not_change_when_winmm_reorders_indices() {
    let first = device_from_identity(0, DeviceKind::Input, "keyboard".into(), "\\\\?\\midi#{stable-key}");
    let reordered = device_from_identity(7, DeviceKind::Input, "keyboard".into(), "\\\\?\\midi#{stable-key}");
    let different = device_from_identity(0, DeviceKind::Input, "keyboard".into(), "\\\\?\\midi#{other-key}");

    assert_eq!(first.node_id, reordered.node_id);
    assert_eq!(first.port_id, reordered.port_id);
    assert_ne!(first.node_id, different.node_id);
    assert_ne!(first.port_id, different.port_id);
}

#[test]
fn fallback_identity_includes_direction_and_device_description() {
    let input = fallback_identity(DeviceKind::Input, "same", 1, 2, 3);
    let output = fallback_identity(DeviceKind::Output, "same", 1, 2, 3);
    assert_ne!(input, output);
    assert_ne!(input, fallback_identity(DeviceKind::Input, "other", 1, 2, 3));
}

#[test]
fn identity_occurrences_are_scoped_to_each_direction() {
    let mut identities = IdentityOccurrences::new();
    assert_eq!(
        unique_identity(DeviceKind::Input, "same-interface".into(), &mut identities),
        "same-interface"
    );
    assert_eq!(
        unique_identity(DeviceKind::Output, "same-interface".into(), &mut identities),
        "same-interface"
    );
    assert_eq!(
        unique_identity(DeviceKind::Input, "same-interface".into(), &mut identities),
        "same-interface#2"
    );
}

#[test]
fn every_id_lands_in_the_windows_midi_namespace() {
    let device = device_from_caps(3, DeviceKind::Output, "synth".into());
    assert_eq!(backend_for_node(device.node_id), Some(BackendKind::WindowsMidi));
    assert_eq!(backend_for_port(device.port_id), Some(BackendKind::WindowsMidi));
}

#[test]
fn fallback_identity_spells_out_every_field() {
    assert_eq!(
        fallback_identity(DeviceKind::Output, "  Synth  ", 0x1a, 0xbeef, 0x0102_0304),
        "fallback:output:001a:beef:01020304:Synth"
    );
    assert_eq!(
        fallback_identity(DeviceKind::Input, "x", 0, 0, 0),
        "fallback:input:0000:0000:00000000:x"
    );
}

#[test]
fn repeated_identities_count_up() {
    let mut identities = IdentityOccurrences::new();
    let names: Vec<String> = (0..11)
        .map(|_| unique_identity(DeviceKind::Input, "dup".into(), &mut identities))
        .collect();
    assert_eq!(names[0], "dup");
    assert_eq!(names[1], "dup#2");
    assert_eq!(names[10], "dup#11");
}

#[test]
fn midi_identities_hash_with_the_fnv_prime() {
    // FNV-1a("winmm-midi:input:x") cut to 52 bits, tagged as an input node.
    let device = device_from_identity(0, DeviceKind::Input, "k".into(), "x");
    let mut hash: u64 = 0xcbf2_9ce4_8422_2325;
    for byte in "winmm-midi:input:x".bytes() {
        hash ^= u64::from(byte);
        hash = hash.wrapping_mul(0x100_0000_01b3);
    }
    let local = hash & 0x000F_FFFF_FFFF_FFFF;
    assert_eq!(device.node_id.0, 0x0300_0000_0000_0000 | 0x0010_0000_0000_0000 | local);
    assert_eq!(device.port_id.0, 0x0300_0000_0000_0000 | 0x0040_0000_0000_0000 | local);
}

#[test]
fn wide_names_replace_broken_utf16() {
    assert_eq!(wide_name(&[0x41, 0xD800, 0x42, 0]), "A\u{FFFD}B");
    assert_eq!(wide_name(&[0x41, 0x42]), "AB");
    assert_eq!(wide_name(&[0xD83C, 0xDFB9, 0]), "\u{1F3B9}");
    assert_eq!(wide_name(&[0xDC00, 0x41, 0]), "\u{FFFD}A");
    assert_eq!(wide_name(&[0xD83C, 0xD83C, 0xDFB9]), "\u{FFFD}\u{1F3B9}");
}

#[test]
fn the_relay_format_describes_interleaved_stereo_float() {
    let format = pw_graph::windows_relay::relay_format();
    let (tag, channels) = (format.format_tag, format.channels);
    let (rate, bits) = (format.samples_per_sec, format.bits_per_sample);
    let (block_align, avg_bytes) = (format.block_align, format.avg_bytes_per_sec);

    assert_eq!(tag, pw_graph::windows_relay::WAVE_FORMAT_IEEE_FLOAT);
    assert_eq!(channels, pw_graph::windows_relay::RELAY_CHANNELS);
    assert_eq!(rate, pw_graph::windows_relay::RELAY_SAMPLE_RATE);
    assert_eq!(bits, 32);
    assert_eq!(block_align, pw_graph::windows_relay::RELAY_CHANNELS * 4);
    assert_eq!(avg_bytes, pw_graph::windows_relay::RELAY_SAMPLE_RATE * u32::from(block_align));
}

#[test]
fn winmm_failures_name_the_operation_and_status() {
    match pw_graph::windows_midi::mm_error("midiInOpen", 4) {
        pw_graph::backend::BackendError::Native(message) => {
            assert_eq!(message, "Windows MIDI midiInOpen failed (mmsyserr 4)");
        }
        other => panic!("unexpected error {other:?}"),
    }
}

#[test]
fn native_errors_join_operation_and_cause() {
    match pw_graph::backend::native_error("connect ports", "device busy") {
        pw_graph::backend::BackendError::Native(message) => {
            assert_eq!(message, "connect ports failed: device busy");
        }
        other => panic!("unexpected error {other:?}"),
    }
}

#[test]
fn sessions_are_named_by_display_name_then_process() {
    assert_eq!(session_display_name("Music".into(), Some("app.exe".into()), 7), "Music");
    assert_eq!(session_display_name("  ".into(), Some("app.exe".into()), 7), "app.exe");
    assert_eq!(session_display_name(String::new(), None, 4321), "Audio session (4321)");
}

#[test]
fn a_session_joins_the_graph_with_its_port_and_link() {
    let mut graph = Graph::default();
    graph.add_node(Node::new(NodeId(1), "Speakers".into(), NodeType::WindowsAudioEndpoint)).unwrap();
    graph.add_port(Port::new(PortId(1), NodeId(1), "playback".into(), Direction::Sink, PortType::Audio)).unwrap();
    let node = add_session(&mut graph, "ep", PortId(1), DataFlow::Render, "s1", "Music".into()).unwrap();
    assert_eq!(node, NodeId(graph_id(session_node_local_id("ep", "s1"))));
    assert_eq!(graph.node(node).unwrap().name, "Music");
    assert_eq!(graph.node(node).unwrap().node_type, NodeType::WindowsAudioSession);
    let port = PortId(graph_id(session_port_local_id("ep", "s1")));
    assert_eq!(graph.port(port).unwrap().direction, Direction::Source);
    let link = graph.link(LinkId(graph_id(session_link_local_id("ep", "s1")))).unwrap();
    assert_eq!((link.output_port, link.input_port), (port, PortId(1)));
    assert_eq!(
        add_session(&mut graph, "ep", PortId(1), DataFlow::Render, "s1", "Again".into()),
        Err(GraphError::DuplicateNode(node))
    );
}
