use pw_graph::demo::InMemoryDriver;
use pw_graph::driver::GraphDriver;
use pw_graph::graph::{NodeType, PortType};
use pw_graph::ids::PortId;
use pw_graph::patchbay::{PatchConnection, Patchbay};
use pw_graph::patchbay_xml::{patchbay_from_xml, patchbay_to_xml, PatchbayXmlError};

#[test]
fn qpwgraph_xml_round_trip_uses_names() {
    let mut patchbay = Patchbay::new("demo");
    let driver = InMemoryDriver::demo();
    patchbay.add_graph_connection(driver.graph(), PortId(1), PortId(3), true);
    let xml = patchbay_to_xml(&patchbay);
    let loaded = patchbay_from_xml(&xml).unwrap();
    assert_eq!(loaded.connections.len(), 1);
    assert_eq!(loaded.connections[0].output_node, "Audio Capture");
    assert_eq!(loaded.connections[0].output_name, "capture_FL");
}

#[test]
fn a_patchbay_file_has_the_qpwgraph_shape() {
    let mut patchbay = Patchbay::new("demo");
    let driver = InMemoryDriver::demo();
    patchbay.add_graph_connection(driver.graph(), PortId(1), PortId(3), true);
    let xml = patchbay_to_xml(&patchbay);
    let expected = "<!DOCTYPE patchbay>\n<patchbay version=\"1\" name=\"demo\">\n <items>\n  <item node-type=\"pipewire\" port-type=\"pipewire-audio\" pinned=\"true\">\n   <output node=\"Audio Capture\" port=\"capture_FL\"/>\n   <input node=\"Audio Playback\" port=\"playback_FL\"/>\n  </item>\n </items>\n</patchbay>\n";
    assert_eq!(loaded_input_node(&patchbay), "Audio Playback");
    assert_eq!(xml, expected);
}

fn loaded_input_node(patchbay: &Patchbay) -> String {
    patchbay.connections[0].input_node.clone()
}

#[test]
fn names_with_markup_characters_are_escaped_and_read_back() {
    let mut patchbay = Patchbay::new("a <b> & \"c\" 'd'");
    patchbay.version = 42;
    patchbay.connections.push(PatchConnection {
        output_port: PortId(7),
        input_port: PortId(9),
        pinned: false,
        node_type: NodeType::AlsaMidi,
        port_type: PortType::MidiAlsa,
        output_node: "x&y".to_string(),
        output_name: "out<1>".to_string(),
        input_node: "q\"r".to_string(),
        input_name: "in\r2".to_string(),
    });
    let xml = patchbay_to_xml(&patchbay);
    assert!(xml.contains("name=\"a &lt;b&gt; &amp; &quot;c&quot; &apos;d&apos;\""));
    assert!(xml.contains("node=\"x&amp;y\" port=\"out&lt;1&gt;\""));
    assert!(xml.contains("port=\"in&#13;2\""));
    let loaded = patchbay_from_xml(&xml).unwrap();
    assert_eq!(loaded.version, 42);
    assert_eq!(loaded.name, "a <b> & \"c\" 'd'");
    assert_eq!(loaded.connections.len(), 1);
    let rule = &loaded.connections[0];
    assert_eq!(rule.output_port, PortId(0));
    assert_eq!(rule.input_port, PortId(0));
    assert!(!rule.pinned);
    assert_eq!(rule.node_type, NodeType::AlsaMidi);
    assert_eq!(rule.port_type, PortType::MidiAlsa);
    assert_eq!(rule.output_node, "x&y");
    assert_eq!(rule.output_name, "out<1>");
    assert_eq!(rule.input_node, "q\"r");
    assert_eq!(rule.input_name, "in\r2");
}

#[test]
fn an_empty_patchbay_round_trips() {
    let patchbay = Patchbay::new("empty");
    let xml = patchbay_to_xml(&patchbay);
    assert_eq!(
        xml,
        "<!DOCTYPE patchbay>\n<patchbay version=\"1\" name=\"empty\">\n <items>\n </items>\n</patchbay>\n"
    );
    let loaded = patchbay_from_xml(&xml).unwrap();
    assert_eq!(loaded.name, "empty");
    assert_eq!(loaded.version, 1);
    assert!(loaded.connections.is_empty());
}

#[test]
fn malformed_patchbay_files_are_refused() {
    let good = patchbay_to_xml(&Patchbay::new("demo"));
    assert!(patchbay_from_xml(&good).is_ok());
    let truncated = &good[..good.len() - 2];
    assert_eq!(patchbay_from_xml(truncated).unwrap_err(), PatchbayXmlError::InvalidAttributes);
    let leading_zero = good.replace("version=\"1\"", "version=\"01\"");
    assert_eq!(patchbay_from_xml(&leading_zero).unwrap_err(), PatchbayXmlError::InvalidAttributes);
    let raw_amp = good.replace("name=\"demo\"", "name=\"a&b\"");
    assert_eq!(patchbay_from_xml(&raw_amp).unwrap_err(), PatchbayXmlError::InvalidAttributes);
    let bad_type = patchbay_to_xml(&{
        let mut p = Patchbay::new("demo");
        p.connections.push(PatchConnection::bare(PortId(1), PortId(2), true));
        p
    })
    .replace("pipewire-audio", "pipewire-sound");
    assert_eq!(patchbay_from_xml(&bad_type).unwrap_err(), PatchbayXmlError::InvalidAttributes);
    assert!(patchbay_from_xml("{}").is_err());
}
