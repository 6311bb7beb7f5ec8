use pw_graph::graph::Link;
use pw_graph::ids::{LinkId, PortId};
use pw_graph::backend::BackendError;
use pw_graph::windows_routing::{EndpointPortRole, RouteBook, RouteSpec, SourceOpen};

const CAPTURE: Option<EndpointPortRole> = Some(EndpointPortRole::Capture);
const MONITOR: Option<EndpointPortRole> = Some(EndpointPortRole::Monitor);
const RENDER: Option<EndpointPortRole> = Some(EndpointPortRole::Render);

fn link(id: u64, output: u64, input: u64) -> Link {
    Link { id: LinkId(id), output_port: PortId(output), input_port: PortId(input) }
}

#[test]
fn a_device_is_opened_for_its_first_route_and_closed_after_its_last() {
    let mut book = RouteBook::new();
    let first = link(10, 1, 2);
    assert!(matches!(book.connect_plan(first, CAPTURE, RENDER), Ok((Some(SourceOpen::Capture), true))));
    let source = book.take_id();
    let sink = book.take_id();
    assert_eq!((source, sink), (1, 2));
    book.commit_connect(first, source, sink);
    assert!(book.owns(LinkId(10)));
    assert!(matches!(
        book.connect_plan(first, CAPTURE, RENDER),
        Err(BackendError::Native(m)) if m == "that route already exists"
    ));

    let second = link(11, 1, 3);
    assert!(matches!(book.connect_plan(second, CAPTURE, RENDER), Ok((None, true))));
    let sink2 = book.take_id();
    book.commit_connect(second, 0, sink2);

    assert_eq!(book.disconnect(LinkId(10)), Some((first, None, Some(2))));
    assert_eq!(book.disconnect(LinkId(11)), Some((second, Some(1), Some(3))));
    assert_eq!(book.disconnect(LinkId(11)), None);
    assert!(!book.owns(LinkId(11)));
}

#[test]
fn reconcile_drops_routes_whose_ports_are_gone() {
    let mut book = RouteBook::new();
    let a = link(1, 1, 2);
    let b = link(2, 3, 2);
    let c = link(3, 1, 4);
    book.commit_connect(a, 1, 2);
    book.commit_connect(b, 3, 0);
    book.commit_connect(c, 0, 4);
    let (dropped, sources, sinks) = book.reconcile(&[PortId(1), PortId(2), PortId(4)]);
    assert_eq!(dropped, vec![b]);
    assert_eq!(sources, vec![3]);
    assert!(sinks.is_empty());
    assert!(book.owns(LinkId(1)));
    assert!(book.owns(LinkId(3)));
    assert!(!book.owns(LinkId(2)));
    let (dropped, sources, sinks) = book.reconcile(&[]);
    assert_eq!(dropped, vec![a, c]);
    assert_eq!(sources, vec![1]);
    assert_eq!(sinks, vec![2, 4]);
}

fn route_parts(route: &RouteSpec) -> (PortId, u64, Vec<u64>) {
    (route.output, route.source, route.destinations.clone())
}

#[test]
fn routes_fan_out_from_each_output_port_once() {
    let mut book = RouteBook::new();
    book.commit_connect(link(1, 5, 7), 10, 20);
    book.commit_connect(link(2, 6, 7), 11, 0);
    book.commit_connect(link(3, 5, 8), 0, 21);
    let routes = book.route_table();
    assert_eq!(routes.len(), 2);
    assert_eq!(route_parts(&routes[0]), (PortId(5), 10, vec![20, 21]));
    assert_eq!(route_parts(&routes[1]), (PortId(6), 11, vec![20]));
    book.disconnect(LinkId(1));
    let routes = book.route_table();
    assert_eq!(route_parts(&routes[0]), (PortId(6), 11, vec![20]));
    assert_eq!(route_parts(&routes[1]), (PortId(5), 10, vec![21]));
    assert!(RouteBook::new().route_table().is_empty());
}

#[test]
fn only_endpoint_devices_in_their_roles_can_be_routed() {
    let mut book = RouteBook::new();
    let l = link(1, 1, 2);
    assert!(matches!(book.connect_plan(l, MONITOR, RENDER), Ok((Some(SourceOpen::Loopback), true))));
    match book.connect_plan(l, None, RENDER) {
        Err(BackendError::Unsupported(m)) => assert!(m.starts_with("only a recording device")),
        _ => panic!("a session cannot be a source"),
    }
    match book.connect_plan(l, CAPTURE, None) {
        Err(BackendError::Unsupported(m)) => assert!(m.starts_with("only a playback device can be the destination")),
        _ => panic!("a session cannot be a destination"),
    }
    match book.connect_plan(l, RENDER, RENDER) {
        Err(BackendError::Unsupported(m)) => {
            assert_eq!(m, "a playback device is not a source; drag from its monitor instead")
        }
        _ => panic!("a playback device is not a source"),
    }
    match book.connect_plan(l, CAPTURE, CAPTURE) {
        Err(BackendError::Unsupported(m)) => {
            assert_eq!(m, "only a playback device can be the destination of a Windows audio route")
        }
        _ => panic!("a recording device is not a destination"),
    }
    book.commit_connect(l, 1, 2);
    // A device already open is reused whatever its role is reported as.
    assert!(matches!(book.connect_plan(link(2, 1, 2), RENDER, CAPTURE), Ok((None, false))));
}
