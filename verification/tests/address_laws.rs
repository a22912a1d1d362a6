use neptune_discovery::address::{multiaddr_to_socket_addr, socket_addr_to_multiaddr, Multiaddr, Protocol, SocketAddress};
use neptune_discovery::keyed_map::KeyedMap;
use neptune_discovery::network::Network;

#[test]
fn socket_address_round_trips() {
    for s in [
        SocketAddress::V4 { ip: 0, port: 0 },
        SocketAddress::V4 { ip: u32::MAX, port: u16::MAX },
        SocketAddress::V6 { ip: u128::MAX, port: 1 },
    ] {
        assert_eq!(multiaddr_to_socket_addr(&socket_addr_to_multiaddr(s)), Some(s));
    }
}

#[test]
fn last_ip_and_port_win() {
    let addr = Multiaddr::from_parts(vec![
        Protocol::Ip4(1),
        Protocol::Tcp(10),
        Protocol::Ip6(2),
        Protocol::Other(vec![0xa5, 0x03, 0x00]),
        Protocol::Tcp(20),
    ]);
    assert_eq!(multiaddr_to_socket_addr(&addr), Some(SocketAddress::V6 { ip: 2, port: 20 }));
    let no_port = Multiaddr::from_parts(vec![Protocol::Ip4(1)]);
    assert_eq!(multiaddr_to_socket_addr(&no_port), None);
    let no_ip = Multiaddr::from_parts(vec![Protocol::Tcp(1)]);
    assert_eq!(multiaddr_to_socket_addr(&no_ip), None);
}

#[test]
fn address_text_decodes_other_components() {
    // /udp/53 in the multiaddr binary encoding: code 273 as a varint, then the port.
    let addr = Multiaddr::from_parts(vec![
        Protocol::Ip4(u32::from_be_bytes([10, 0, 0, 2])),
        Protocol::Other(vec![0x91, 0x02, 0x00, 0x35]),
    ]);
    assert_eq!(addr.to_text().unwrap(), "/ip4/10.0.0.2/udp/53");
    let broken = Multiaddr::from_parts(vec![Protocol::Other(vec![0xff])]);
    assert!(broken.to_text().is_none());
}

#[test]
fn address_equality_is_by_components() {
    let a = Multiaddr::from_parts(vec![Protocol::Ip4(1), Protocol::Other(vec![1, 2])]);
    let b = Multiaddr::from_parts(vec![Protocol::Ip4(1), Protocol::Other(vec![1, 2])]);
    let c = Multiaddr::from_parts(vec![Protocol::Ip4(1), Protocol::Other(vec![1, 3])]);
    assert!(a.same_as(&b));
    assert!(!a.same_as(&c));
    assert!(!a.same_as(&Multiaddr::empty()));
    assert!(a.clone().same_as(&a));
}

#[test]
fn private_ip_filter_on_components() {
    assert!(!Protocol::Ip4(u32::from_be_bytes([192, 168, 0, 1])).passes_private_ip_filter());
    assert!(Protocol::Ip4(u32::from_be_bytes([192, 169, 0, 1])).passes_private_ip_filter());
    assert!(!Protocol::Ip6(0).passes_private_ip_filter());
    assert!(Protocol::Tcp(1).passes_private_ip_filter());
}

#[test]
fn keyed_map_reads_back_writes() {
    let mut m: KeyedMap<SocketAddress, u8> = KeyedMap::new();
    let a = SocketAddress::V4 { ip: 1, port: 1 };
    let b = SocketAddress::V4 { ip: 1, port: 2 };
    m.insert(a, 1);
    m.insert(b, 2);
    m.insert(a, 3);
    assert_eq!(m.len(), 2);
    assert_eq!(m.get(&a), Some(&3));
    assert_eq!(m.remove(&b), Some(2));
    assert_eq!(m.get(&b), None);
    assert!(!m.contains_key(&b));
    assert_eq!(m.len(), 1);
}

#[test]
fn network_ids_and_discovery() {
    assert_eq!(Network::Main.id(), 0);
    assert_eq!(Network::TestnetMock.id(), 1);
    assert_eq!(Network::RegTest.id(), 2);
    assert_eq!(Network::Testnet(255).id(), 258);
    assert!(Network::TestnetMock.performs_peer_discovery());
    assert!(!Network::RegTest.performs_peer_discovery());
}
