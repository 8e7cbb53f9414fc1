use molva::discovery::{group_by_peer, report, DiscoveredPeer, MdnsEvent};

#[test]
fn query_is_reported_with_its_origin() {
    let lines = report(&MdnsEvent::Query("/ip4/10.0.0.2/udp/5353".to_string()));
    assert_eq!(lines, vec!["Detected query from /ip4/10.0.0.2/udp/5353".to_string()]);
}

#[test]
fn service_query_is_reported_with_its_origin() {
    let lines = report(&MdnsEvent::ServiceDiscovery("/ip4/10.0.0.3/udp/5353".to_string()));
    assert_eq!(lines, vec!["Detected service query from /ip4/10.0.0.3/udp/5353".to_string()]);
}

#[test]
fn response_reports_each_peer_then_its_addresses() {
    let peers = vec![
        DiscoveredPeer {
            id: "PeerId(\"QmA\")".to_string(),
            addresses: vec!["/ip4/10.0.0.4/tcp/1".to_string(), "/ip4/10.0.0.4/tcp/2".to_string()],
        },
        DiscoveredPeer { id: "PeerId(\"QmB\")".to_string(), addresses: vec![] },
    ];
    let lines = report(&MdnsEvent::Response(peers));
    assert_eq!(
        lines,
        vec![
            "Discovered peer PeerId(\"QmA\")".to_string(),
            " Address = /ip4/10.0.0.4/tcp/1".to_string(),
            " Address = /ip4/10.0.0.4/tcp/2".to_string(),
            "Discovered peer PeerId(\"QmB\")".to_string(),
        ]
    );
}

#[test]
fn empty_response_reports_nothing() {
    assert!(report(&MdnsEvent::Response(vec![])).is_empty());
}

#[test]
fn joined_responses_report_in_order() {
    let a = DiscoveredPeer { id: "a".to_string(), addresses: vec!["x".to_string()] };
    let b = DiscoveredPeer { id: "b".to_string(), addresses: vec!["y".to_string()] };
    let first = report(&MdnsEvent::Response(vec![DiscoveredPeer { id: "a".to_string(), addresses: vec!["x".to_string()] }]));
    let second = report(&MdnsEvent::Response(vec![DiscoveredPeer { id: "b".to_string(), addresses: vec!["y".to_string()] }]));
    let both = report(&MdnsEvent::Response(vec![a, b]));
    let mut joined = first;
    joined.extend(second);
    assert_eq!(both, joined);
}

fn pair(peer: &str, addr: &str) -> (String, String) {
    (peer.to_string(), addr.to_string())
}

#[test]
fn group_by_peer_keeps_first_occurrence_order() {
    let pairs = vec![pair("b", "1"), pair("a", "2"), pair("b", "3"), pair("c", "4"), pair("a", "5")];
    let peers = group_by_peer(&pairs);
    let got: Vec<(String, Vec<String>)> = peers.into_iter().map(|p| (p.id, p.addresses)).collect();
    assert_eq!(
        got,
        vec![
            ("b".to_string(), vec!["1".to_string(), "3".to_string()]),
            ("a".to_string(), vec!["2".to_string(), "5".to_string()]),
            ("c".to_string(), vec!["4".to_string()]),
        ]
    );
}

#[test]
fn group_by_peer_of_nothing_is_empty() {
    assert!(group_by_peer(&vec![]).is_empty());
}

#[test]
fn grouped_discovery_is_reported() {
    let pairs = vec![pair("p", "/ip4/1.2.3.4/tcp/1"), pair("p", "/ip4/1.2.3.4/tcp/2")];
    let lines = report(&MdnsEvent::Response(group_by_peer(&pairs)));
    assert_eq!(
        lines,
        vec![
            "Discovered peer p".to_string(),
            " Address = /ip4/1.2.3.4/tcp/1".to_string(),
            " Address = /ip4/1.2.3.4/tcp/2".to_string(),
        ]
    );
}
