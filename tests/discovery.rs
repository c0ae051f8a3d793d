use tonic_lb_k8s::{
    extract_ready_endpoints, process_event, Address, AddressSet, DiscoveryConfig, EndpointAction,
    EndpointEntry, IpAddress, Port, PortEntry, Revision, WatchEvent,
};

// The address that a literal of these tests denotes: dotted IPv4, or one of
// the two IPv6 literals used below; any other text is no IP literal.
fn literal(s: &str) -> Option<IpAddress> {
    match s {
        "::1" => return Some(IpAddress::V6(1)),
        "2001:db8::1" => return Some(IpAddress::V6(0x2001_0db8_0000_0000_0000_0000_0000_0001)),
        _ => {}
    }
    let octets: Vec<u8> = s.split('.').filter_map(|p| p.parse().ok()).collect();
    if octets.len() == 4 && s.split('.').count() == 4 {
        Some(IpAddress::v4(octets[0], octets[1], octets[2], octets[3]))
    } else {
        None
    }
}

// `host:port`, with an IPv6 host in brackets.
fn sock(s: &str) -> Address {
    let (host, port) = s.rsplit_once(':').unwrap();
    let host = host.trim_start_matches('[').trim_end_matches(']');
    Address { ip: literal(host).unwrap(), port: port.parse().unwrap() }
}

fn make_endpoint(addresses: Vec<&str>, ready: Option<bool>) -> EndpointEntry {
    EndpointEntry { addresses: addresses.into_iter().map(literal).collect(), ready }
}

fn make_port(name: Option<&str>, port: i32) -> PortEntry {
    PortEntry { name: name.map(String::from), port: Some(port) }
}

fn slice_of(endpoints: Vec<EndpointEntry>) -> Revision {
    Revision { endpoints, ports: None }
}

// Port conversion

#[test]
fn port_from_u16() {
    let port: Port = 50051_u16.into();
    assert_eq!(port, Port::Number(50051));
}

#[test]
fn port_from_str() {
    let port: Port = "grpc".into();
    assert_eq!(port, Port::Name("grpc".to_string()));
}

#[test]
fn port_from_string() {
    let port: Port = String::from("grpc").into();
    assert_eq!(port, Port::Name("grpc".to_string()));
}

// DiscoveryConfig

#[test]
fn config_new_with_numeric_port() {
    let config = DiscoveryConfig::new("my-service", 50051_u16);

    assert_eq!(config.service_name, "my-service");
    assert!(config.namespace.is_none());
    assert_eq!(config.port, Port::Number(50051));
}

#[test]
fn config_new_with_named_port() {
    let config = DiscoveryConfig::new("my-service", "grpc");

    assert_eq!(config.service_name, "my-service");
    assert!(config.namespace.is_none());
    assert_eq!(config.port, Port::Name("grpc".to_string()));
}

#[test]
fn config_with_namespace() {
    let config = DiscoveryConfig::new("my-service", 50051_u16).namespace("my-namespace");

    assert_eq!(config.service_name, "my-service");
    assert_eq!(config.namespace, Some("my-namespace".to_string()));
    assert_eq!(config.port, Port::Number(50051));
}

// Extraction

#[test]
fn extract_ready_endpoints_empty_slice() {
    let slice = slice_of(Vec::new());

    let addrs = extract_ready_endpoints(&slice, &Port::Number(50051));
    assert!(addrs.is_empty());
}

#[test]
fn extract_ready_endpoints_with_numeric_port() {
    let slice = slice_of(vec![make_endpoint(vec!["10.0.0.1", "10.0.0.2"], Some(true))]);

    let addrs = extract_ready_endpoints(&slice, &Port::Number(50051));

    assert_eq!(addrs.len(), 2);
    assert!(addrs.contains(&sock("10.0.0.1:50051")));
    assert!(addrs.contains(&sock("10.0.0.2:50051")));
}

#[test]
fn extract_ready_endpoints_with_named_port() {
    let slice = Revision {
        endpoints: vec![make_endpoint(vec!["10.0.0.1"], Some(true))],
        ports: Some(vec![make_port(Some("grpc"), 9090)]),
    };

    let addrs = extract_ready_endpoints(&slice, &Port::Name("grpc".to_string()));

    assert_eq!(addrs.len(), 1);
    assert!(addrs.contains(&sock("10.0.0.1:9090")));
}

#[test]
fn extract_ready_endpoints_named_port_not_found() {
    let slice = Revision {
        endpoints: vec![make_endpoint(vec!["10.0.0.1"], Some(true))],
        ports: Some(vec![make_port(Some("http"), 8080)]),
    };

    let addrs = extract_ready_endpoints(&slice, &Port::Name("grpc".to_string()));
    assert!(addrs.is_empty());
}

#[test]
fn extract_ready_endpoints_named_port_no_ports_defined() {
    let slice = Revision {
        endpoints: vec![make_endpoint(vec!["10.0.0.1"], Some(true))],
        ports: None,
    };

    let addrs = extract_ready_endpoints(&slice, &Port::Name("grpc".to_string()));
    assert!(addrs.is_empty());
}

#[test]
fn extract_ready_endpoints_skips_not_ready() {
    let slice = slice_of(vec![
        make_endpoint(vec!["10.0.0.1"], Some(true)),
        make_endpoint(vec!["10.0.0.2"], Some(false)),
    ]);

    let addrs = extract_ready_endpoints(&slice, &Port::Number(50051));

    assert_eq!(addrs.len(), 1);
    assert!(addrs.contains(&sock("10.0.0.1:50051")));
}

#[test]
fn extract_ready_endpoints_ready_defaults_to_true() {
    // An endpoint whose conditions leave readiness unset is ready.
    let slice = slice_of(vec![EndpointEntry {
        addresses: vec![literal("10.0.0.1")],
        ready: None,
    }]);

    let addrs = extract_ready_endpoints(&slice, &Port::Number(50051));

    assert_eq!(addrs.len(), 1);
    assert!(addrs.contains(&sock("10.0.0.1:50051")));
}

#[test]
fn extract_ready_endpoints_no_conditions_defaults_to_ready() {
    // An endpoint without any conditions reads as one with readiness unset.
    let slice = slice_of(vec![make_endpoint(vec!["10.0.0.1"], None)]);

    let addrs = extract_ready_endpoints(&slice, &Port::Number(50051));

    assert_eq!(addrs.len(), 1);
    assert!(addrs.contains(&sock("10.0.0.1:50051")));
}

#[test]
fn extract_ready_endpoints_skips_invalid_ip() {
    let slice = slice_of(vec![make_endpoint(vec!["not-an-ip", "10.0.0.1"], Some(true))]);

    let addrs = extract_ready_endpoints(&slice, &Port::Number(50051));

    assert_eq!(addrs.len(), 1);
    assert!(addrs.contains(&sock("10.0.0.1:50051")));
}

#[test]
fn extract_ready_endpoints_ipv6() {
    let slice = slice_of(vec![make_endpoint(vec!["::1", "2001:db8::1"], Some(true))]);

    let addrs = extract_ready_endpoints(&slice, &Port::Number(50051));

    assert_eq!(addrs.len(), 2);
    assert!(addrs.contains(&sock("[::1]:50051")));
    assert!(addrs.contains(&sock("[2001:db8::1]:50051")));
}

#[test]
fn extract_ready_endpoints_multiple_endpoints() {
    let slice = slice_of(vec![
        make_endpoint(vec!["10.0.0.1"], Some(true)),
        make_endpoint(vec!["10.0.0.2"], Some(true)),
        make_endpoint(vec!["10.0.0.3"], Some(true)),
    ]);

    let addrs = extract_ready_endpoints(&slice, &Port::Number(50051));

    assert_eq!(addrs.len(), 3);
    assert!(addrs.contains(&sock("10.0.0.1:50051")));
    assert!(addrs.contains(&sock("10.0.0.2:50051")));
    assert!(addrs.contains(&sock("10.0.0.3:50051")));
}

#[test]
fn extract_ready_endpoints_deduplicates_addresses() {
    // The same address in two endpoints appears once.
    let slice = slice_of(vec![
        make_endpoint(vec!["10.0.0.1"], Some(true)),
        make_endpoint(vec!["10.0.0.1"], Some(true)),
    ]);

    let addrs = extract_ready_endpoints(&slice, &Port::Number(50051));

    assert_eq!(addrs.len(), 1);
    assert!(addrs.contains(&sock("10.0.0.1:50051")));
}

#[test]
fn extract_ready_endpoints_multiple_ports_finds_correct_one() {
    let slice = Revision {
        endpoints: vec![make_endpoint(vec!["10.0.0.1"], Some(true))],
        ports: Some(vec![
            make_port(Some("http"), 8080),
            make_port(Some("grpc"), 9090),
            make_port(Some("metrics"), 9100),
        ]),
    };

    let addrs = extract_ready_endpoints(&slice, &Port::Name("grpc".to_string()));

    assert_eq!(addrs.len(), 1);
    assert!(addrs.contains(&sock("10.0.0.1:9090")));
}

// Event processing

#[test]
fn process_event_apply_inserts_new_endpoints() {
    let slice = slice_of(vec![make_endpoint(vec!["10.0.0.1", "10.0.0.2"], Some(true))]);

    let mut known = AddressSet::new();
    let actions = process_event(&WatchEvent::Apply(slice), &mut known, &Port::Number(50051));

    assert_eq!(actions.len(), 2);
    assert!(actions.contains(&EndpointAction::Insert(sock("10.0.0.1:50051"))));
    assert!(actions.contains(&EndpointAction::Insert(sock("10.0.0.2:50051"))));
    assert_eq!(known.len(), 2);
}

#[test]
fn process_event_apply_skips_known_endpoints() {
    let slice = slice_of(vec![make_endpoint(vec!["10.0.0.1", "10.0.0.2"], Some(true))]);

    let mut known = AddressSet::new();
    known.insert(sock("10.0.0.1:50051"));

    let actions = process_event(&WatchEvent::Apply(slice), &mut known, &Port::Number(50051));

    // Only 10.0.0.2 is new.
    assert_eq!(actions.len(), 1);
    assert!(actions.contains(&EndpointAction::Insert(sock("10.0.0.2:50051"))));
    assert_eq!(known.len(), 2);
}

#[test]
fn process_event_init_apply_inserts_endpoints() {
    let slice = slice_of(vec![make_endpoint(vec!["10.0.0.1"], Some(true))]);

    let mut known = AddressSet::new();
    let actions = process_event(&WatchEvent::InitApply(slice), &mut known, &Port::Number(50051));

    assert_eq!(actions.len(), 1);
    assert!(actions.contains(&EndpointAction::Insert(sock("10.0.0.1:50051"))));
}

#[test]
fn process_event_delete_removes_known_endpoints() {
    let slice = slice_of(vec![make_endpoint(vec!["10.0.0.1", "10.0.0.2"], Some(true))]);

    let mut known = AddressSet::new();
    known.insert(sock("10.0.0.1:50051"));
    known.insert(sock("10.0.0.2:50051"));

    let actions = process_event(&WatchEvent::Delete(slice), &mut known, &Port::Number(50051));

    assert_eq!(actions.len(), 2);
    assert!(actions.contains(&EndpointAction::Remove(sock("10.0.0.1:50051"))));
    assert!(actions.contains(&EndpointAction::Remove(sock("10.0.0.2:50051"))));
    assert!(known.is_empty());
}

#[test]
fn process_event_delete_skips_unknown_endpoints() {
    let slice = slice_of(vec![make_endpoint(vec!["10.0.0.1", "10.0.0.2"], Some(true))]);

    let mut known = AddressSet::new();
    known.insert(sock("10.0.0.1:50051"));
    // 10.0.0.2 is not known.

    let actions = process_event(&WatchEvent::Delete(slice), &mut known, &Port::Number(50051));

    assert_eq!(actions.len(), 1);
    assert!(actions.contains(&EndpointAction::Remove(sock("10.0.0.1:50051"))));
    assert!(known.is_empty());
}

#[test]
fn process_event_init_returns_empty() {
    let mut known = AddressSet::new();
    let actions = process_event(&WatchEvent::Init, &mut known, &Port::Number(50051));

    assert!(actions.is_empty());
}

#[test]
fn process_event_init_done_returns_empty() {
    let mut known = AddressSet::new();
    let actions = process_event(&WatchEvent::InitDone, &mut known, &Port::Number(50051));

    assert!(actions.is_empty());
}
