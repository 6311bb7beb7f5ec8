use pw_graph::backend::{BackendError, EffectInsertRequest, EffectNodeRequest};
use pw_graph::demo::DemoDriver;
use pw_graph::driver::GraphDriver;
use pw_graph::effects::NOISE_GATE_ID;
use pw_graph::graph::{GraphError, NodeType};
use pw_graph::ids::{NodeId, PortId};
use pw_graph::metering::{MeterPolicy, NodeAudioState, NodeCapabilities, UNITY_VOLUME_BITS};
use pw_graph::pipewire::{measurable_nodes, port_keys_equal, wanted_meter_nodes, BlockedConnections};

fn insert_request(driver: &DemoDriver, instance_id: &str, output: u64, input: u64) -> EffectInsertRequest {
    EffectInsertRequest {
        instance_id: instance_id.into(),
        effect_id: NOISE_GATE_ID.into(),
        module_file: None,
        source: driver.graph().port_key(PortId(output)).unwrap(),
        destination: driver.graph().port_key(PortId(input)).unwrap(),
        enabled: true,
    }
}

fn native_message(error: BackendError) -> String {
    match error {
        BackendError::Native(message) => message,
        other => panic!("expected a native error, got {other:?}"),
    }
}

#[test]
fn demo_backend_inserts_and_removes_an_effect_transactionally() {
    let mut driver = DemoDriver::demo();
    driver.connect(PortId(1), PortId(3)).unwrap();
    let source = driver.graph().port_key(PortId(1)).unwrap();
    let destination = driver.graph().port_key(PortId(3)).unwrap();
    let instance = driver
        .insert_effect(EffectInsertRequest {
            instance_id: "test-effect".into(),
            effect_id: NOISE_GATE_ID.into(),
            module_file: None,
            source,
            destination,
            enabled: true,
        })
        .unwrap();
    assert_eq!(driver.effect_instances().len(), 1);
    assert_eq!(driver.graph().node(instance.node_id).unwrap().node_type, NodeType::Effect);
    assert_eq!(driver.graph().links.len(), 2);
    driver.remove_effect("test-effect").unwrap();
    assert!(driver.effect_instances().is_empty());
    assert_eq!(driver.graph().links.len(), 1);
    assert_eq!(driver.graph().nodes.len(), 4);
}

#[test]
fn inserted_effect_reroutes_the_link_through_its_node() {
    let mut driver = DemoDriver::demo();
    let original = driver.connect(PortId(1), PortId(3)).unwrap();
    let request = insert_request(&driver, "gate", 1, 3);
    let instance = driver.insert_effect(request).unwrap();
    assert_eq!(instance.node_id, NodeId(1000));
    assert_eq!(instance.input_port, PortId(1001));
    assert_eq!(instance.output_port, PortId(1002));
    assert_eq!(driver.graph().node(NodeId(1000)).unwrap().name, "Noise Gate (gate)");
    assert!(driver.graph().link(original.id).is_none());
    assert!(driver.graph().is_connected(PortId(1), PortId(1001)));
    assert!(driver.graph().is_connected(PortId(1002), PortId(3)));
    assert!(!driver.graph().is_connected(PortId(1), PortId(3)));
    assert!(instance.source.is_some() && instance.destination.is_some());
}

#[test]
fn removing_an_inserted_effect_restores_the_direct_link() {
    let mut driver = DemoDriver::demo();
    driver.connect(PortId(1), PortId(3)).unwrap();
    let request = insert_request(&driver, "gate", 1, 3);
    driver.insert_effect(request).unwrap();
    driver.remove_effect("gate").unwrap();
    assert!(driver.graph().is_connected(PortId(1), PortId(3)));
    assert!(driver.graph().node(NodeId(1000)).is_none());
    assert!(driver.graph().port(PortId(1001)).is_none());
    assert!(driver.graph().port(PortId(1002)).is_none());
}

#[test]
fn a_standalone_effect_node_has_one_input_and_one_output() {
    let mut driver = DemoDriver::demo();
    let instance = driver
        .create_effect_node(EffectNodeRequest {
            instance_id: "free".into(),
            effect_id: NOISE_GATE_ID.into(),
            module_file: None,
            enabled: false,
        })
        .unwrap();
    let node = driver.graph().node(instance.node_id).unwrap();
    assert_eq!(node.ports, vec![PortId(1001), PortId(1002)]);
    assert!(instance.source.is_none() && instance.destination.is_none());
    assert!(!instance.config.enabled);
    assert_eq!(driver.graph().links.len(), 0);
    driver.remove_effect("free").unwrap();
    assert_eq!(driver.graph().nodes.len(), 4);
    assert_eq!(driver.graph().ports.len(), 6);
}

#[test]
fn effect_instances_are_listed_in_instance_id_order() {
    let mut driver = DemoDriver::demo();
    for id in ["zeta", "alpha", "mid"] {
        driver
            .create_effect_node(EffectNodeRequest {
                instance_id: id.into(),
                effect_id: NOISE_GATE_ID.into(),
                module_file: None,
                enabled: true,
            })
            .unwrap();
    }
    let ids: Vec<String> =
        driver.effect_instances().into_iter().map(|instance| instance.config.instance_id).collect();
    assert_eq!(ids, vec!["alpha", "mid", "zeta"]);
}

#[test]
fn a_second_instance_with_the_same_id_is_refused() {
    let mut driver = DemoDriver::demo();
    let request = || EffectNodeRequest {
        instance_id: "twice".into(),
        effect_id: NOISE_GATE_ID.into(),
        module_file: None,
        enabled: true,
    };
    driver.create_effect_node(request()).unwrap();
    let error = driver.create_effect_node(request()).unwrap_err();
    assert_eq!(native_message(error), "effect instance twice already exists");
    assert_eq!(driver.graph().nodes.len(), 5);
}

#[test]
fn an_unknown_effect_is_refused_before_the_graph_changes() {
    let mut driver = DemoDriver::demo();
    let error = driver
        .create_effect_node(EffectNodeRequest {
            instance_id: "x".into(),
            effect_id: "builtin.reverb".into(),
            module_file: None,
            enabled: true,
        })
        .unwrap_err();
    assert_eq!(native_message(error), "could not create effect: unknown effect: builtin.reverb");
    assert_eq!(driver.graph().nodes.len(), 4);
}

#[test]
fn inserting_into_ports_that_are_not_linked_is_refused() {
    let mut driver = DemoDriver::demo();
    let request = insert_request(&driver, "gate", 1, 3);
    let error = driver.insert_effect(request).unwrap_err();
    assert_eq!(native_message(error), "effect source and destination are not linked");
    assert!(driver.effect_instances().is_empty());
    assert_eq!(driver.graph().nodes.len(), 4);
}

#[test]
fn an_effect_cannot_be_inserted_into_a_midi_link_and_nothing_changes() {
    let mut driver = DemoDriver::demo();
    let midi = driver.connect(PortId(5), PortId(6)).unwrap();
    let request = insert_request(&driver, "gate", 5, 6);
    let error = driver.insert_effect(request).unwrap_err();
    assert!(matches!(error, BackendError::Graph(GraphError::IncompatiblePorts(_, _))));
    assert!(driver.graph().link(midi.id).is_some());
    assert_eq!(driver.graph().links.len(), 1);
    assert_eq!(driver.graph().nodes.len(), 4);
    assert_eq!(driver.graph().ports.len(), 6);
    assert!(driver.effect_instances().is_empty());
}

#[test]
fn enabling_and_removing_an_unknown_instance_is_refused() {
    let mut driver = DemoDriver::demo();
    let error = driver.set_effect_enabled("ghost", true).unwrap_err();
    assert_eq!(native_message(error), "unknown effect instance ghost");
    let error = driver.remove_effect("ghost").unwrap_err();
    assert_eq!(native_message(error), "unknown effect instance ghost");
}

#[test]
fn an_effect_can_be_bypassed_and_enabled_again() {
    let mut driver = DemoDriver::demo();
    driver
        .create_effect_node(EffectNodeRequest {
            instance_id: "gate".into(),
            effect_id: NOISE_GATE_ID.into(),
            module_file: None,
            enabled: true,
        })
        .unwrap();
    driver.set_effect_enabled("gate", false).unwrap();
    assert!(!driver.effect_instances()[0].config.enabled);
    driver.set_effect_enabled("gate", true).unwrap();
    assert!(driver.effect_instances()[0].config.enabled);
}

#[test]
fn effect_endpoints_report_which_key_names_no_port() {
    let mut driver = DemoDriver::demo();
    driver.connect(PortId(1), PortId(3)).unwrap();
    let mut request = insert_request(&driver, "gate", 1, 3);
    request.source.node_name = "Unplugged Device".into();
    let error = driver.insert_effect(request).unwrap_err();
    assert_eq!(native_message(error), "effect source port is unavailable");
    let mut request = insert_request(&driver, "gate", 1, 3);
    request.destination.port_name = "playback_RR".into();
    let error = driver.insert_effect(request).unwrap_err();
    assert_eq!(native_message(error), "effect destination port is unavailable");
    let request = insert_request(&driver, "gate", 3, 1);
    let error = driver.insert_effect(request).unwrap_err();
    assert!(matches!(error, BackendError::Graph(GraphError::NotSource(PortId(3)))));
    assert_eq!(driver.graph().links.len(), 1);
}

#[test]
fn existing_connections_lists_each_linked_pair_once_in_order() {
    let mut driver = DemoDriver::demo();
    driver.connect(PortId(2), PortId(4)).unwrap();
    driver.connect(PortId(1), PortId(3)).unwrap();
    driver.connect(PortId(1), PortId(4)).unwrap();
    let pairs = pw_graph::driver::existing_connections(&driver);
    assert_eq!(
        pairs,
        vec![(PortId(1), PortId(3)), (PortId(1), PortId(4)), (PortId(2), PortId(4))]
    );
    assert!(pw_graph::driver::existing_connections(&DemoDriver::demo()).is_empty());
}

#[test]
fn effect_requests_need_a_nonblank_id_without_nul_bytes() {
    let request = |instance_id: &str, effect_id: &str| EffectNodeRequest {
        instance_id: instance_id.into(),
        effect_id: effect_id.into(),
        module_file: None,
        enabled: true,
    };
    assert!(pw_graph::pipewire::validate_request(&request("gate", NOISE_GATE_ID)).is_ok());
    let error = pw_graph::pipewire::validate_request(&request("  ", NOISE_GATE_ID)).unwrap_err();
    assert_eq!(native_message(error), "effect instance id cannot be empty");
    let error = pw_graph::pipewire::validate_request(&request("ga\0te", NOISE_GATE_ID)).unwrap_err();
    assert_eq!(
        native_message(error),
        "effect instance id contains a NUL byte and cannot be passed to PipeWire"
    );
    let error = pw_graph::pipewire::validate_request(&request("gate", "bad\0id")).unwrap_err();
    assert_eq!(native_message(error), "effect id contains a NUL byte and cannot be passed to PipeWire");
}

#[test]
fn demo_nodes_start_unmuted_at_unity_and_keep_what_is_set() {
    let mut driver = DemoDriver::demo();
    let state = driver.node_audio_state(NodeId(1)).unwrap();
    assert_eq!(state, NodeAudioState::readable(UNITY_VOLUME_BITS, false));
    driver.set_node_mute(NodeId(1), true).unwrap();
    driver.set_node_volume(NodeId(1), 0.5f32.to_bits()).unwrap();
    let state = driver.node_audio_state(NodeId(1)).unwrap();
    assert_eq!(state.muted, Some(true));
    assert_eq!(state.volume_bits.map(f32::from_bits), Some(0.5));
    // Other nodes keep their own controls.
    assert_eq!(driver.node_audio_state(NodeId(2)).unwrap().muted, Some(false));
}

#[test]
fn audio_controls_of_a_missing_node_are_refused() {
    let mut driver = DemoDriver::demo();
    let error = driver.set_node_mute(NodeId(99), true).unwrap_err();
    assert!(matches!(error, BackendError::Graph(GraphError::MissingNode(NodeId(99)))));
    let error = driver.node_audio_state(NodeId(99)).unwrap_err();
    assert!(matches!(error, BackendError::Graph(GraphError::MissingNode(NodeId(99)))));
    assert_eq!(driver.node_capabilities(NodeId(99)), NodeCapabilities::none());
}

#[test]
fn effect_nodes_have_no_audio_controls_and_no_meters() {
    let mut driver = DemoDriver::demo();
    let instance = driver
        .create_effect_node(EffectNodeRequest {
            instance_id: "gate".into(),
            effect_id: NOISE_GATE_ID.into(),
            module_file: None,
            enabled: true,
        })
        .unwrap();
    assert_eq!(driver.node_audio_state(instance.node_id).unwrap(), NodeAudioState::unsupported());
    assert_eq!(driver.node_capabilities(instance.node_id), NodeCapabilities::none());
    assert_eq!(driver.node_capabilities(NodeId(1)), NodeCapabilities::full());
    assert!(driver.capabilities().effects && !driver.capabilities().relay);
    assert!(driver.is_port_type(pw_graph::graph::PortType::MidiJack));
    assert!(!driver.is_port_type(pw_graph::graph::PortType::MidiAlsa));
    assert!(driver.is_node_type(NodeType::Effect));
    assert!(!driver.graph_dirty());
}

#[test]
fn blocking_rules_ignore_the_serial_and_a_missing_channel() {
    let driver = DemoDriver::demo();
    let output = driver.graph().port_key(PortId(1)).unwrap();
    let input = driver.graph().port_key(PortId(3)).unwrap();
    let mut with_channel = output.clone();
    with_channel.channel = Some("FL".into());
    with_channel.node_serial = Some(7);
    assert!(port_keys_equal(&output, &with_channel));
    let mut other_channel = with_channel.clone();
    other_channel.channel = Some("FR".into());
    assert!(!port_keys_equal(&with_channel, &other_channel));

    let mut blocked = BlockedConnections::new();
    assert!(!blocked.is_blocked_pair(&output, &input));
    let mut driver = DemoDriver::demo();
    let link = driver.connect(PortId(1), PortId(3)).unwrap();
    blocked.block_connection(driver.graph(), &link);
    blocked.block_connection(driver.graph(), &link);
    assert!(blocked.is_blocked_pair(&with_channel, &input));
    assert!(blocked.connection_is_blocked(driver.graph(), &link));
    blocked.allow_blocked_connection(&output, &input);
    assert!(!blocked.connection_is_blocked(driver.graph(), &link));
}

#[test]
fn only_nodes_with_an_audio_source_are_metered() {
    let driver = DemoDriver::demo();
    assert_eq!(measurable_nodes(driver.graph()), vec![NodeId(1)]);
    assert_eq!(wanted_meter_nodes(MeterPolicy::Always, driver.graph(), &[]), vec![NodeId(1)]);
    assert!(wanted_meter_nodes(MeterPolicy::Disabled, driver.graph(), &[NodeId(1)]).is_empty());
    assert_eq!(
        wanted_meter_nodes(MeterPolicy::OnDemand, driver.graph(), &[NodeId(2), NodeId(1)]),
        vec![NodeId(1)]
    );
}
