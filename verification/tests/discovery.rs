use libp2p::identity::Keypair;
use libp2p::StreamProtocol;
use neptune_discovery::address::{multiaddr_to_socket_addr, socket_addr_to_multiaddr, PeerId, SocketAddress};
use neptune_discovery::config::{kademlia_protocol_name, DiscoveryConfig};
use neptune_discovery::network::Network;
use neptune_discovery::node::NodeDiscoveryState;

fn random_peer_id() -> PeerId {
    let keypair = Keypair::generate_ed25519();
    PeerId::from_bytes(keypair.public().to_peer_id().to_bytes())
}

#[test]
fn test_kademlia_protocol_name() {
    let main_protocol = StreamProtocol::try_from_owned(kademlia_protocol_name(&Network::Main)).unwrap();
    assert_eq!(main_protocol.as_ref(), "/neptune/0/kad");

    let testnet_protocol =
        StreamProtocol::try_from_owned(kademlia_protocol_name(&Network::Testnet(42))).unwrap();
    assert_eq!(testnet_protocol.as_ref(), "/neptune/45/kad");
}

#[test]
fn test_discovery_config_creation() {
    let peer_id = random_peer_id();
    let config = DiscoveryConfig::new(peer_id.clone(), Network::Main);

    assert_eq!(*config.local_peer_id(), peer_id);
    assert_eq!(config.network(), Network::Main);
    assert!(config.mdns_enabled()); // Main network should enable mDNS
}

#[test]
fn test_regtest_no_mdns() {
    let peer_id = random_peer_id();
    let config = DiscoveryConfig::new(peer_id, Network::RegTest);

    assert!(!config.mdns_enabled()); // RegTest should not enable mDNS
}

#[test]
fn test_discovery_stats() {
    let node = NodeDiscoveryState::new();

    let stats = node.discovery_stats();
    assert_eq!(stats.discovered_peers, 0);
    assert_eq!(stats.traditional_peers, 0);
    assert_eq!(stats.connected_traditional_peers, 0);
}

#[test]
fn test_socket_addr_conversion() {
    let ipv4_addr = SocketAddress::V4 { ip: u32::from_be_bytes([127, 0, 0, 1]), port: 8080 };
    let multiaddr = socket_addr_to_multiaddr(ipv4_addr);
    assert_eq!(multiaddr.to_text().unwrap(), "/ip4/127.0.0.1/tcp/8080");

    let converted_back = multiaddr_to_socket_addr(&multiaddr).unwrap();
    assert_eq!(converted_back, ipv4_addr);
}

#[test]
fn test_ipv6_conversion() {
    let ipv6_addr = SocketAddress::V6 { ip: 1 /* ::1 */, port: 9090 };
    let multiaddr = socket_addr_to_multiaddr(ipv6_addr);
    assert_eq!(multiaddr.to_text().unwrap(), "/ip6/::1/tcp/9090");

    let converted_back = multiaddr_to_socket_addr(&multiaddr).unwrap();
    assert_eq!(converted_back, ipv6_addr);
}
