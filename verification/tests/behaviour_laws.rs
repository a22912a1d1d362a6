use neptune_discovery::address::{Multiaddr, PeerId, Protocol};
use neptune_discovery::behaviour::{DiscoveryBehaviour, DiscoveryOut, KademliaOutcome, KademliaRequest, MAX_KNOWN_EXTERNAL_ADDRESSES};
use neptune_discovery::config::{DiscoveryConfig, KADEMLIA_MAX_PROVIDER_KEYS};
use neptune_discovery::network::Network;
use std::time::Duration;

fn peer(n: u8) -> PeerId {
    PeerId::from_bytes(vec![0, 4, n, n, n, n])
}

fn ip4(a: u8, b: u8, c: u8, d: u8, port: u16) -> Multiaddr {
    Multiaddr::empty()
        .with(Protocol::Ip4(u32::from_be_bytes([a, b, c, d])))
        .with(Protocol::Tcp(port))
}

fn ip6(ip: u128, port: u16) -> Multiaddr {
    Multiaddr::empty().with(Protocol::Ip6(ip)).with(Protocol::Tcp(port))
}

fn behaviour(kademlia: bool, allow_private: bool, limit: u64) -> DiscoveryBehaviour {
    let mut config = DiscoveryConfig::new(peer(0), Network::Main);
    config.allow_private_ip(allow_private).discovery_limit(limit);
    if kademlia {
        config.with_kademlia();
    }
    config.finish().0
}

#[test]
fn known_address_is_recorded_once() {
    let mut b = behaviour(true, true, u64::MAX);
    let addr = ip4(1, 2, 3, 4, 5);
    let first = b.add_known_address(peer(1), addr.clone());
    assert!(matches!(first, Some(KademliaRequest::AddAddress { .. })));
    let second = b.add_known_address(peer(1), addr.clone());
    assert!(second.is_none());
    assert_eq!(b.addresses_of_peer(&peer(1)), vec![addr]);
    assert!(matches!(b.next_pending_event(), Some(DiscoveryOut::Discovered(p)) if p == peer(1)));
    assert!(b.next_pending_event().is_none());
}

#[test]
fn known_address_without_dht_asks_nothing() {
    let mut b = behaviour(false, true, u64::MAX);
    assert!(b.add_known_address(peer(1), ip4(1, 2, 3, 4, 5)).is_none());
    assert!(matches!(b.next_pending_event(), Some(DiscoveryOut::Discovered(_))));
}

#[test]
fn self_reported_address_needs_the_protocol() {
    let mut b = behaviour(true, true, u64::MAX);
    let addr = ip4(1, 2, 3, 4, 5);
    let other = vec!["/ipfs/kad/1.0.0".to_string()];
    assert!(b.add_self_reported_address(&peer(2), &other, addr.clone()).is_none());
    let ours = vec!["/other".to_string(), "/neptune/0/kad".to_string()];
    assert!(matches!(
        b.add_self_reported_address(&peer(2), &ours, addr.clone()),
        Some(KademliaRequest::AddAddress { .. })
    ));
    assert_eq!(b.addresses_of_peer(&peer(2)), vec![addr]);
    assert!(b.next_pending_event().is_none());
}

#[test]
fn permanent_addresses_come_first() {
    let mut config = DiscoveryConfig::new(peer(0), Network::Main);
    let permanent = ip4(9, 9, 9, 9, 1);
    config.with_permanent_addresses(vec![(peer(3), permanent.clone()), (peer(4), ip4(8, 8, 8, 8, 1))]);
    let (mut b, setup) = config.finish();
    assert!(setup.kademlia.is_none());
    let seen = ip4(7, 7, 7, 7, 2);
    b.add_known_address(peer(3), seen.clone());
    assert_eq!(b.addresses_of_peer(&peer(3)), vec![permanent, seen]);
}

#[test]
fn private_addresses_are_filtered() {
    let mut b = behaviour(false, false, u64::MAX);
    let candidates = vec![
        ip4(10, 0, 0, 1, 1),
        ip4(172, 16, 5, 4, 1),
        ip4(172, 31, 255, 255, 1),
        ip4(192, 168, 1, 1, 1),
        ip6(1, 1),
        ip6(0, 1),
    ];
    let public = vec![ip4(172, 32, 0, 1, 1), ip4(8, 8, 8, 8, 1), ip4(127, 0, 0, 1, 1), ip6(2, 1)];
    for a in candidates.iter().chain(public.iter()) {
        b.add_known_address(peer(5), a.clone());
    }
    assert_eq!(b.addresses_of_peer(&peer(5)), public);

    let mut open = behaviour(false, true, u64::MAX);
    open.add_known_address(peer(5), ip4(10, 0, 0, 1, 1));
    assert_eq!(open.addresses_of_peer(&peer(5)).len(), 1);
}

#[test]
fn closing_undoes_opening() {
    let mut b = behaviour(false, true, u64::MAX);
    b.on_connection_established(peer(1));
    b.on_connection_established(peer(2));
    assert_eq!(b.num_connections(), 2);
    b.on_connection_closed(peer(2));
    assert_eq!(b.num_connections(), 1);
    b.on_connection_closed(peer(1));
    b.on_connection_closed(peer(1));
    assert_eq!(b.num_connections(), 0);
}

#[test]
fn random_walk_backs_off_to_a_minute() {
    let mut b = behaviour(true, true, u64::MAX);
    assert!(b.random_walk_enabled());
    let mut delays = Vec::new();
    for _ in 0..8 {
        let step = b.on_random_walk_timer();
        assert!(matches!(step.request, Some(KademliaRequest::FindRandomClosestPeers)));
        assert!(matches!(b.next_pending_event(), Some(DiscoveryOut::RandomKademliaStarted)));
        delays.push(step.next_delay_secs);
    }
    assert_eq!(delays, vec![1, 2, 4, 8, 16, 32, 60, 60]);
}

#[test]
fn random_walk_pauses_at_the_limit() {
    let mut b = behaviour(true, true, 1);
    b.on_connection_established(peer(1));
    let step = b.on_random_walk_timer();
    assert!(step.request.is_none());
    assert_eq!(step.next_delay_secs, 1);
    assert!(b.next_pending_event().is_none());

    let mut no_dht = behaviour(false, true, u64::MAX);
    assert!(no_dht.on_random_walk_timer().request.is_none());
}

#[test]
fn mdns_peers_are_queued_in_order() {
    let mut b = behaviour(false, true, u64::MAX);
    let first = b.on_mdns_discovered(vec![peer(1), peer(2), peer(3)]);
    assert!(matches!(first, Some(DiscoveryOut::Discovered(p)) if p == peer(1)));
    assert!(matches!(b.next_pending_event(), Some(DiscoveryOut::Discovered(p)) if p == peer(2)));
    assert!(matches!(b.next_pending_event(), Some(DiscoveryOut::Discovered(p)) if p == peer(3)));
    assert!(b.next_pending_event().is_none());
    assert!(b.on_mdns_discovered(vec![]).is_none());
}

#[test]
fn mdns_peers_are_ignored_at_the_limit() {
    let mut b = behaviour(false, true, 0);
    assert!(b.on_mdns_discovered(vec![peer(1)]).is_none());
    assert!(b.next_pending_event().is_none());
}

#[test]
fn confirmed_external_address_moves_to_the_end() {
    let mut b = behaviour(false, true, u64::MAX);
    let a = ip4(1, 1, 1, 1, 1);
    let c = ip4(2, 2, 2, 2, 2);
    assert!(b.on_external_addr_confirmed(a.clone()));
    assert!(b.on_external_addr_confirmed(c.clone()));
    assert!(!b.on_external_addr_confirmed(a.clone()));
    assert_eq!(b.known_external_addresses(), vec![c, a]);
}

#[test]
fn dht_requests_need_a_dht() {
    let with = behaviour(true, true, u64::MAX);
    assert!(matches!(with.get_value(vec![1]), Some(KademliaRequest::GetRecord { key }) if key == vec![1]));
    assert!(matches!(
        with.put_value(vec![1], vec![2]),
        Some(KademliaRequest::PutRecord { key, value }) if key == vec![1] && value == vec![2]
    ));
    assert!(matches!(with.bootstrap(), Some(KademliaRequest::Bootstrap)));
    let without = behaviour(false, true, u64::MAX);
    assert!(without.get_value(vec![1]).is_none());
    assert!(without.put_value(vec![1], vec![2]).is_none());
    assert!(without.bootstrap().is_none());
}

#[test]
fn kademlia_outcomes_become_events() {
    let d = Duration::from_secs(3);
    let found = DiscoveryBehaviour::kademlia_event(KademliaOutcome::ClosestPeers {
        key: vec![7],
        peers: Some(vec![peer(1)]),
        duration: d,
    });
    assert!(matches!(found, Some(DiscoveryOut::ClosestPeersFound { key, peers, duration })
        if key == vec![7] && peers == vec![peer(1)] && duration == d));
    let missing = DiscoveryBehaviour::kademlia_event(KademliaOutcome::ClosestPeers {
        key: vec![7],
        peers: None,
        duration: d,
    });
    assert!(matches!(missing, Some(DiscoveryOut::ClosestPeersNotFound { .. })));
    let record = DiscoveryBehaviour::kademlia_event(KademliaOutcome::RecordFound {
        key: vec![1],
        value: vec![2],
        duration: d,
    });
    assert!(matches!(record, Some(DiscoveryOut::ValueFound { value, .. }) if value == vec![2]));
    assert!(DiscoveryBehaviour::kademlia_event(KademliaOutcome::Other).is_none());
}

#[test]
fn known_peers_are_distinct() {
    let with = behaviour(true, true, u64::MAX);
    let peers = with.known_peers(vec![peer(1), peer(2), peer(1), peer(3), peer(2)]);
    assert_eq!(peers, vec![peer(1), peer(2), peer(3)]);
    let without = behaviour(false, true, u64::MAX);
    assert!(without.known_peers(vec![peer(1)]).is_empty());
}

#[test]
fn finish_gives_kademlia_settings() {
    let mut config = DiscoveryConfig::new(peer(0), Network::Testnet(1));
    config
        .with_permanent_addresses(vec![(peer(1), ip4(1, 2, 3, 4, 5))])
        .with_kademlia()
        .use_kademlia_disjoint_query_paths(true)
        .with_kademlia_replication_factor(7)
        .with_mdns(false)
        .with_dht_random_walk(false);
    let (b, setup) = config.finish();
    let kad = setup.kademlia.unwrap();
    assert_eq!(kad.protocol, "/neptune/4/kad");
    assert_eq!(kad.replication_factor, 7);
    assert!(kad.disjoint_query_paths);
    assert_eq!(kad.query_timeout_secs, 300);
    assert_eq!(kad.provider_record_ttl_secs, 86_400);
    assert_eq!(kad.provider_publication_interval_secs, 43_200);
    assert_eq!(kad.max_provided_keys, KADEMLIA_MAX_PROVIDER_KEYS);
    assert_eq!(kad.bootstrap_addresses.len(), 1);
    assert!(!setup.enable_mdns);
    assert_eq!(setup.local_peer_id, peer(0));
    assert!(!b.random_walk_enabled());
    assert_eq!(b.network(), Network::Testnet(1));
    assert!(!b.allows_non_globals_in_dht());
}

#[test]
fn external_address_cache_keeps_the_latest_32() {
    let mut b = behaviour(false, true, u64::MAX);
    let addrs: Vec<Multiaddr> = (0..33u16).map(|i| ip4(1, 1, (i / 256) as u8, (i % 256) as u8, i)).collect();
    for a in &addrs {
        assert!(b.on_external_addr_confirmed(a.clone()));
    }
    assert_eq!(b.known_external_addresses(), addrs[1..].to_vec());
    // confirming a cached address moves it last, and the cache stays at its maximum
    assert!(!b.on_external_addr_confirmed(addrs[5].clone()));
    let cached = b.known_external_addresses();
    assert_eq!(cached.len(), MAX_KNOWN_EXTERNAL_ADDRESSES);
    assert_eq!(cached.last(), Some(&addrs[5]));
    assert!(!cached.contains(&addrs[0]));
    // the dropped one comes back as new, pushing out the least recent
    assert!(b.on_external_addr_confirmed(addrs[0].clone()));
    let cached = b.known_external_addresses();
    assert_eq!(cached.len(), MAX_KNOWN_EXTERNAL_ADDRESSES);
    assert!(!cached.contains(&addrs[1]));
    assert_eq!(cached.last(), Some(&addrs[0]));
}

#[test]
fn failed_record_lookup_is_reported() {
    let d = Duration::from_secs(2);
    let missing = DiscoveryBehaviour::kademlia_event(KademliaOutcome::RecordNotFound { key: vec![4, 2], duration: d });
    assert!(matches!(missing, Some(DiscoveryOut::ValueNotFound { key, duration }) if key == vec![4, 2] && duration == d));
}

#[test]
fn first_random_walk_starts_at_once() {
    let (_, setup) = DiscoveryConfig::new(peer(0), Network::Main).finish();
    assert_eq!(setup.first_random_walk_delay_secs, Some(0));
    let mut config = DiscoveryConfig::new(peer(0), Network::Main);
    config.with_dht_random_walk(false);
    assert_eq!(config.finish().1.first_random_walk_delay_secs, None);
}

#[test]
fn connection_count_can_be_set() {
    let mut b = behaviour(true, true, 3);
    b.set_num_connections(3);
    assert_eq!(b.num_connections(), 3);
    assert!(b.on_random_walk_timer().request.is_none());
    b.set_num_connections(2);
    assert!(b.on_random_walk_timer().request.is_some());
}

#[test]
fn failed_addresses_are_forgotten() {
    let mut config = DiscoveryConfig::new(peer(0), Network::Main);
    let permanent = ip4(9, 9, 9, 9, 1);
    config.with_permanent_addresses(vec![(peer(1), permanent.clone())]);
    let (mut b, _) = config.finish();
    let a = ip4(1, 1, 1, 1, 1);
    let c = ip4(2, 2, 2, 2, 2);
    b.add_known_address(peer(1), a.clone());
    b.add_known_address(peer(1), c.clone());
    b.on_dial_failure(&peer(1), &a);
    assert_eq!(b.addresses_of_peer(&peer(1)), vec![permanent.clone(), c.clone()]);
    b.on_dial_failure(&peer(1), &c);
    assert_eq!(b.addresses_of_peer(&peer(1)), vec![permanent.clone()]);
    // a peer met again after losing its entry is recorded afresh
    b.add_known_address(peer(1), a.clone());
    assert_eq!(b.addresses_of_peer(&peer(1)), vec![permanent, a]);
    b.on_dial_failure(&peer(7), &c);
}

#[test]
fn non_global_addresses_stay_out_of_the_dht() {
    let mut b = behaviour(true, true, u64::MAX);
    for local in [ip4(10, 0, 0, 1, 1), ip4(127, 0, 0, 1, 1), ip4(192, 168, 3, 4, 1), ip4(100, 64, 0, 1, 1), ip6(1, 1), ip6(0xfe80 << 112, 1)] {
        assert!(b.add_known_address(peer(1), local).is_none());
    }
    assert!(matches!(b.add_known_address(peer(1), ip4(192, 0, 0, 9, 1)), Some(KademliaRequest::AddAddress { .. })));
    assert!(matches!(b.add_known_address(peer(1), ip6(0x2a00 << 112, 1)), Some(KademliaRequest::AddAddress { .. })));
    // a DNS name (/dns4/example.org) may go into the DHT
    let mut dns = vec![0x36, 11];
    dns.extend_from_slice(b"example.org");
    let named = Multiaddr::from_parts(vec![Protocol::Other(dns), Protocol::Tcp(1)]);
    assert!(named.can_add_to_dht());
    assert!(matches!(b.add_known_address(peer(1), named), Some(KademliaRequest::AddAddress { .. })));
    let ours = vec!["/neptune/0/kad".to_string()];
    assert!(b.add_self_reported_address(&peer(2), &ours, ip4(10, 0, 0, 2, 1)).is_none());
    assert_eq!(b.addresses_of_peer(&peer(2)), vec![ip4(10, 0, 0, 2, 1)]);

    let mut config = DiscoveryConfig::new(peer(0), Network::Main);
    config.with_kademlia().allow_non_globals_in_dht(true);
    let (mut open, _) = config.finish();
    assert!(open.add_known_address(peer(1), ip4(10, 0, 0, 1, 1)).is_some());
    assert!(open.add_self_reported_address(&peer(2), &ours, ip4(10, 0, 0, 2, 1)).is_some());
}
