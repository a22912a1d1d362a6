use neptune_discovery::address::{Multiaddr, PeerId, Protocol, SocketAddress};
use neptune_discovery::behaviour::{DiscoveryOut, KademliaRequest};
use neptune_discovery::config::DiscoveryConfig;
use neptune_discovery::integration::{discovery_manager_config, DiscoveryCommand, DiscoveryEvent, KnownPeers, DISCOVERY_MANAGER_CONNECTION_LIMIT};
use neptune_discovery::network::Network;
use neptune_discovery::node::{DhtValueTopic, NodeDiscoveryState, NodeReaction};
use std::time::Duration;

fn peer(n: u8) -> PeerId {
    PeerId::from_bytes(vec![0, 4, n])
}

fn addr(last: u8, port: u16) -> Multiaddr {
    Multiaddr::from_parts(vec![Protocol::Ip4(u32::from_be_bytes([8, 8, 8, last])), Protocol::Tcp(port)])
}

#[test]
fn bootstrap_peers_are_known() {
    let known = KnownPeers::from_bootstrap(vec![(peer(1), addr(1, 1)), (peer(2), addr(2, 2)), (peer(1), addr(3, 3))], 5);
    assert_eq!(known.len(), 2);
    let status = known.status(&peer(1)).unwrap();
    assert_eq!(status.addresses, vec![addr(3, 3)]);
    assert_eq!(status.last_seen_ms, 5);
    assert_eq!(status.connection_attempts, 0);
}

#[test]
fn fourth_failure_makes_a_peer_unreachable() {
    let mut known = KnownPeers::from_bootstrap(vec![(peer(1), addr(1, 1))], 0);
    for _ in 0..3 {
        assert!(known.handle_connection_failure(&peer(1)).is_none());
    }
    assert!(matches!(known.handle_connection_failure(&peer(1)), Some(DiscoveryEvent::PeerUnreachable { peer_id }) if peer_id == peer(1)));
    assert!(known.handle_connection_failure(&peer(1)).is_some());
    known.update_peer_status(&peer(1), false, 9);
    assert_eq!(known.status(&peer(1)).unwrap().connection_attempts, 5);
    assert_eq!(known.status(&peer(1)).unwrap().last_seen_ms, 9);
    known.update_peer_status(&peer(1), true, 10);
    assert!(known.handle_connection_failure(&peer(1)).is_none());
    assert!(known.handle_connection_failure(&peer(7)).is_none());
}

#[test]
fn commands_reach_the_behaviour() {
    let mut config = DiscoveryConfig::new(peer(0), Network::Main);
    config.with_kademlia();
    let (mut behaviour, _) = config.finish();
    let mut known = KnownPeers::from_bootstrap(vec![], 0);
    let request = known.on_command(&mut behaviour, DiscoveryCommand::AddKnownPeer { peer_id: peer(1), addr: addr(1, 1) }, 3);
    assert!(matches!(request, Some(KademliaRequest::AddAddress { .. })));
    let again = known.on_command(&mut behaviour, DiscoveryCommand::AddKnownPeer { peer_id: peer(1), addr: addr(1, 1) }, 4);
    assert!(again.is_none());
    assert_eq!(known.status(&peer(1)).unwrap().addresses, vec![addr(1, 1), addr(1, 1)]);
    assert_eq!(known.status(&peer(1)).unwrap().last_seen_ms, 3);
    let store = known.on_command(&mut behaviour, DiscoveryCommand::StoreValue { key: "neptune/é".to_string(), value: vec![1] }, 5);
    assert!(matches!(store, Some(KademliaRequest::PutRecord { key, .. }) if key == "neptune/é".as_bytes().to_vec()));
    let get = known.on_command(&mut behaviour, DiscoveryCommand::GetValue { key: "k".to_string() }, 5);
    assert!(matches!(get, Some(KademliaRequest::GetRecord { key }) if key == b"k".to_vec()));
    assert!(matches!(known.on_command(&mut behaviour, DiscoveryCommand::Bootstrap, 5), Some(KademliaRequest::Bootstrap)));
    assert!(known.on_command(&mut behaviour, DiscoveryCommand::UpdateConnectionCount { count: 3 }, 5).is_none());
}

#[test]
fn discovery_events_reach_the_main_loop() {
    let (mut behaviour, _) = DiscoveryConfig::new(peer(0), Network::Main).finish();
    behaviour.add_known_address(peer(1), addr(1, 1));
    let mut known = KnownPeers::from_bootstrap(vec![], 0);
    let event = known.on_discovery_event(&behaviour, DiscoveryOut::Discovered(peer(1)), 7);
    assert!(matches!(event, Some(DiscoveryEvent::PeerDiscovered { peer_id, addresses }) if peer_id == peer(1) && addresses == vec![addr(1, 1)]));
    assert_eq!(known.status(&peer(1)).unwrap().last_seen_ms, 7);
    let d = Duration::from_secs(1);
    let stored = known.on_discovery_event(&behaviour, DiscoveryOut::ValuePut("neptune/é".as_bytes().to_vec(), d), 8);
    assert!(matches!(stored, Some(DiscoveryEvent::ValueStored { key }) if key == "neptune/é"));
    let lossy = known.on_discovery_event(&behaviour, DiscoveryOut::ValueFound { key: vec![b'a', 0xff], value: vec![3], duration: d }, 8);
    assert!(matches!(lossy, Some(DiscoveryEvent::ValueRetrieved { key, value }) if key == "a\u{FFFD}" && value == vec![3]));
    assert!(matches!(known.on_discovery_event(&behaviour, DiscoveryOut::UnroutablePeer(peer(2)), 8), Some(DiscoveryEvent::PeerUnreachable { .. })));
    assert!(known.on_discovery_event(&behaviour, DiscoveryOut::RandomKademliaStarted, 8).is_none());
}

#[test]
fn node_attempts_connections_to_discovered_sockets() {
    let mut node = NodeDiscoveryState::new();
    let only_ip = Multiaddr::from_parts(vec![Protocol::Ip4(5)]);
    let reaction = node.handle_discovery_event(
        DiscoveryEvent::PeerDiscovered { peer_id: peer(1), addresses: vec![addr(1, 1), only_ip, addr(1, 1), addr(2, 2)] },
        4,
    );
    let a = SocketAddress::V4 { ip: u32::from_be_bytes([8, 8, 8, 1]), port: 1 };
    let b = SocketAddress::V4 { ip: u32::from_be_bytes([8, 8, 8, 2]), port: 2 };
    assert!(matches!(reaction, NodeReaction::Connect(sockets) if sockets == vec![a, a, b]));
    let stats = node.discovery_stats();
    assert_eq!(stats.discovered_peers, 1);
    assert_eq!(stats.traditional_peers, 2);
    assert_eq!(stats.connected_traditional_peers, 0);
    assert!(matches!(node.handle_discovery_event(DiscoveryEvent::PeerUnreachable { peer_id: peer(1) }, 5), NodeReaction::PeerForgotten));
    assert_eq!(node.discovery_stats().discovered_peers, 0);
    assert_eq!(node.discovery_stats().traditional_peers, 2);
}

#[test]
fn dht_values_are_sorted_by_topic() {
    let mut node = NodeDiscoveryState::new();
    let mut topic = |key: &str| match node.handle_discovery_event(DiscoveryEvent::ValueRetrieved { key: key.to_string(), value: vec![] }, 0) {
        NodeReaction::DhtValue(t) => t,
        _ => panic!("a retrieved value gives a topic"),
    };
    assert_eq!(topic("neptune/bootstrap_peers"), DhtValueTopic::BootstrapPeers);
    assert_eq!(topic("neptune/network_config"), DhtValueTopic::NetworkConfig);
    assert_eq!(topic("neptune/other"), DhtValueTopic::Unknown);
    assert!(matches!(node.handle_discovery_event(DiscoveryEvent::ValueStored { key: "k".to_string() }, 0), NodeReaction::ValueStored));
}

#[test]
fn connection_count_command_sets_the_count() {
    let (mut behaviour, _) = DiscoveryConfig::new(peer(0), Network::Main).finish();
    let mut known = KnownPeers::from_bootstrap(vec![], 0);
    assert!(known.on_command(&mut behaviour, DiscoveryCommand::UpdateConnectionCount { count: 42 }, 0).is_none());
    assert_eq!(behaviour.num_connections(), 42);
}

#[test]
fn manager_config_is_fixed() {
    let config = discovery_manager_config(peer(9), Network::RegTest, vec![(peer(1), addr(1, 1))]);
    assert_eq!(*config.local_peer_id(), peer(9));
    assert!(!config.mdns_enabled());
    let (behaviour, setup) = config.finish();
    let kad = setup.kademlia.unwrap();
    assert_eq!(kad.protocol, "/neptune/2/kad");
    assert_eq!(kad.bootstrap_addresses.len(), 1);
    let mut b = behaviour;
    b.set_num_connections(DISCOVERY_MANAGER_CONNECTION_LIMIT);
    assert!(b.on_random_walk_timer().request.is_none());
    assert_eq!(b.addresses_of_peer(&peer(1)), vec![addr(1, 1)]);
}
