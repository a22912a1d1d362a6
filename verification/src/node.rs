//! The node-side bookkeeping of discovery: the peers that discovery reported,
//! the traditional connections attempted to them, and statistics.
use vstd::prelude::*;
use crate::address::{multiaddr_socket, multiaddr_to_socket_addr, Multiaddr, PeerId, ProtocolView, SocketAddress};
use crate::behaviour::addrs_view;
use crate::integration::{DiscoveryEvent, DiscoveryEventView};
use crate::keyed_map::{keys_matching, KeyedMap};

verus! {

/// What the node knows of a traditional connection to a peer.
#[derive(Clone, Copy, Debug, PartialEq, Eq, Structural)]
pub struct PeerConnectionInfo {
    /// Whether the connection is established.
    pub connected: bool,
    /// When the connection was last active, in milliseconds of the caller's
    /// clock.
    pub last_activity_ms: u64,
}

/// Statistics about the discovery system.
#[derive(Clone, Copy, Debug, PartialEq, Eq, Structural)]
pub struct DiscoveryStats {
    pub discovered_peers: usize,
    pub traditional_peers: usize,
    pub connected_traditional_peers: usize,
}

/// The topics of DHT values that the node handles.
#[derive(Clone, Copy, Debug, PartialEq, Eq, Structural)]
pub enum DhtValueTopic {
    /// Updates of the list of bootstrap peers: key `neptune/bootstrap_peers`.
    BootstrapPeers,
    /// Updates of the network configuration: key `neptune/network_config`.
    NetworkConfig,
    /// Any other key.
    Unknown,
}

/// How the node reacts to a discovery event.
#[derive(Debug)]
pub enum NodeReaction {
    /// Attempt traditional connections to these socket addresses, in order.
    Connect(Vec<SocketAddress>),
    /// A peer was forgotten.
    PeerForgotten,
    /// A DHT value on a topic arrived.
    DhtValue(DhtValueTopic),
    /// A DHT value was stored.
    ValueStored,
}

/// The sockets that a reaction connects to: none but for `Connect`.
pub open spec fn connect_targets(reaction: NodeReaction) -> Seq<SocketAddress> {
    match reaction {
        NodeReaction::Connect(sockets) => sockets@,
        _ => Seq::empty(),
    }
}

/// The topic of a DHT key.
pub open spec fn dht_topic(key: Seq<char>) -> DhtValueTopic {
    if key == "neptune/bootstrap_peers"@ {
        DhtValueTopic::BootstrapPeers
    } else if key == "neptune/network_config"@ {
        DhtValueTopic::NetworkConfig
    } else {
        DhtValueTopic::Unknown
    }
}

/// The socket addresses among a sequence of addresses, in order.
pub open spec fn sockets_of(addrs: Seq<Seq<ProtocolView>>) -> Seq<SocketAddress>
    decreases addrs.len(),
{
    if addrs.len() == 0 {
        Seq::empty()
    } else {
        let rest = sockets_of(addrs.drop_last());
        match multiaddr_socket(addrs.last()) {
            Some(s) => rest.push(s),
            None => rest,
        }
    }
}

/// The traditional peers after attempting connections to some sockets at
/// `now_ms`: each is recorded as not connected, active at `now_ms`.
pub open spec fn attempt_all(
    peers: Map<SocketAddress, PeerConnectionInfo>,
    sockets: Seq<SocketAddress>,
    now_ms: u64,
) -> Map<SocketAddress, PeerConnectionInfo>
    decreases sockets.len(),
{
    if sockets.len() == 0 {
        peers
    } else {
        attempt_all(peers, sockets.drop_last(), now_ms).insert(
            sockets.last(),
            PeerConnectionInfo { connected: false, last_activity_ms: now_ms },
        )
    }
}

/// Whether an address names a socket.
pub open spec fn names_socket() -> spec_fn(Seq<ProtocolView>) -> bool {
    |a: Seq<ProtocolView>| multiaddr_socket(a) is Some
}

/// The sockets of a sequence of addresses are one for each address that names
/// a socket, IPv4 or IPv6: every such socket is among them, and each of them
/// is the socket of one of the addresses.
pub proof fn lemma_sockets_of(addrs: Seq<Seq<ProtocolView>>)
    ensures
        sockets_of(addrs).len() == addrs.filter(names_socket()).len(),
        forall|i: int|
            0 <= i < addrs.len() && #[trigger] multiaddr_socket(addrs[i]) is Some ==> sockets_of(
                addrs,
            ).contains(multiaddr_socket(addrs[i])->0),
        forall|s: SocketAddress|
            #[trigger] sockets_of(addrs).contains(s) ==> exists|i: int|
                0 <= i < addrs.len() && #[trigger] multiaddr_socket(addrs[i]) == Some(s),
    decreases addrs.len(),
{
    if addrs.len() > 0 {
        let init = addrs.drop_last();
        let rest = sockets_of(init);
        lemma_sockets_of(init);
        crate::behaviour::lemma_filter_push(init, addrs.last(), names_socket());
        assert(init.push(addrs.last()) =~= addrs);
        assert forall|i: int|
            0 <= i < addrs.len() && #[trigger] multiaddr_socket(addrs[i]) is Some implies sockets_of(
                addrs,
            ).contains(multiaddr_socket(addrs[i])->0) by {
            let s = multiaddr_socket(addrs[i])->0;
            if i < addrs.len() - 1 {
                assert(multiaddr_socket(init[i]) == Some(s));
                assert(rest.contains(s));
                if let Some(t) = multiaddr_socket(addrs.last()) {
                    crate::behaviour::lemma_contains_push(rest, t, s);
                }
            } else {
                crate::behaviour::lemma_contains_push(rest, s, s);
            }
        }
        assert forall|s: SocketAddress| #[trigger] sockets_of(addrs).contains(s) implies exists|i: int|
            0 <= i < addrs.len() && #[trigger] multiaddr_socket(addrs[i]) == Some(s) by {
            match multiaddr_socket(addrs.last()) {
                Some(t) => {
                    crate::behaviour::lemma_contains_push(rest, t, s);
                    if s == t {
                        assert(multiaddr_socket(addrs[addrs.len() - 1]) == Some(s));
                    } else {
                        let i = choose|i: int| 0 <= i < init.len() && #[trigger] multiaddr_socket(init[i]) == Some(s);
                        assert(addrs[i] == init[i]);
                    }
                },
                None => {
                    let i = choose|i: int| 0 <= i < init.len() && #[trigger] multiaddr_socket(init[i]) == Some(s);
                    assert(addrs[i] == init[i]);
                },
            }
        }
    } else {
        reveal(Seq::filter);
    }
}

/// Attempting connections to some sockets records each of them as not
/// connected and active at `now_ms`, and leaves every other entry as it was.
pub proof fn lemma_attempt_all(
    peers: Map<SocketAddress, PeerConnectionInfo>,
    sockets: Seq<SocketAddress>,
    now_ms: u64,
)
    ensures
        forall|s: SocketAddress| #[trigger] sockets.contains(s) ==> attempt_all(peers, sockets, now_ms).contains_key(s)
            && attempt_all(peers, sockets, now_ms)[s] == (PeerConnectionInfo {
                connected: false,
                last_activity_ms: now_ms,
            }),
        forall|s: SocketAddress| !sockets.contains(s) ==> (#[trigger] attempt_all(peers, sockets, now_ms).contains_key(s)
            <==> peers.contains_key(s)) && (peers.contains_key(s) ==> attempt_all(peers, sockets, now_ms)[s]
            == peers[s]),
    decreases sockets.len(),
{
    if sockets.len() > 0 {
        let init = sockets.drop_last();
        lemma_attempt_all(peers, init, now_ms);
        assert(init.push(sockets.last()) =~= sockets);
        assert forall|s: SocketAddress| #[trigger] sockets.contains(s) implies attempt_all(peers, sockets, now_ms).contains_key(s)
            && attempt_all(peers, sockets, now_ms)[s] == (PeerConnectionInfo {
                connected: false,
                last_activity_ms: now_ms,
            }) by {
            crate::behaviour::lemma_contains_push(init, sockets.last(), s);
        }
        assert forall|s: SocketAddress| !sockets.contains(s) implies (#[trigger] attempt_all(peers, sockets, now_ms).contains_key(s)
            <==> peers.contains_key(s)) && (peers.contains_key(s) ==> attempt_all(peers, sockets, now_ms)[s]
            == peers[s]) by {
            crate::behaviour::lemma_contains_push(init, sockets.last(), s);
            assert(!init.contains(s));
            assert(attempt_all(peers, init, now_ms).contains_key(s) <==> peers.contains_key(s));
            assert(s != sockets.last()) by {
                assert(sockets[sockets.len() - 1] == sockets.last());
            }
        }
    }
}

/// Whether a connection is established.
pub open spec fn is_connected() -> spec_fn(PeerConnectionInfo) -> bool {
    |info: PeerConnectionInfo| info.connected
}

/// The mathematical state of the node's discovery bookkeeping.
pub struct NodeDiscoveryView {
    pub discovered_peers: Map<Seq<u8>, Seq<Seq<ProtocolView>>>,
    pub traditional_peers: Map<SocketAddress, PeerConnectionInfo>,
}

/// The node's discovery bookkeeping.
pub struct NodeDiscoveryState {
    /// Known peers from discovery.
    discovered_peers: KeyedMap<PeerId, Vec<Multiaddr>>,
    /// Traditional Neptune peer connections.
    traditional_peers: KeyedMap<SocketAddress, PeerConnectionInfo>,
}

impl View for NodeDiscoveryState {
    type V = NodeDiscoveryView;

    closed spec fn view(&self) -> NodeDiscoveryView {
        NodeDiscoveryView {
            discovered_peers: crate::behaviour::book_view(self.discovered_peers.map()),
            traditional_peers: self.traditional_peers.map(),
        }
    }
}

/// The topic of a DHT key.
pub fn dht_value_topic(key: &String) -> (topic: DhtValueTopic)
    ensures
        topic == dht_topic(key@),
{
    let bootstrap = String::from_str("neptune/bootstrap_peers");
    let config = String::from_str("neptune/network_config");
    if *key == bootstrap {
        DhtValueTopic::BootstrapPeers
    } else if *key == config {
        DhtValueTopic::NetworkConfig
    } else {
        DhtValueTopic::Unknown
    }
}

impl NodeDiscoveryState {
    /// The bookkeeping is well formed.
    pub closed spec fn wf(&self) -> bool {
        &&& self.discovered_peers.wf()
        &&& self.traditional_peers.wf()
    }

    /// No peers discovered and no connections.
    pub fn new() -> (state: Self)
        ensures
            state.wf(),
            state@.discovered_peers == Map::<Seq<u8>, Seq<Seq<ProtocolView>>>::empty(),
            state@.traditional_peers == Map::<SocketAddress, PeerConnectionInfo>::empty(),
    {
        let state = NodeDiscoveryState {
            discovered_peers: KeyedMap::new(),
            traditional_peers: KeyedMap::new(),
        };
        assert(state@.discovered_peers =~= Map::empty());
        state
    }

    /// Attempt to establish a traditional Neptune connection to a discovered
    /// peer: the attempt is recorded as not connected, active at `now_ms`.
    pub fn attempt_traditional_connection(&mut self, socket_addr: SocketAddress, now_ms: u64)
        requires
            old(self).wf(),
        ensures
            final(self).wf(),
            final(self)@ == (NodeDiscoveryView {
                traditional_peers: old(self)@.traditional_peers.insert(
                    socket_addr,
                    PeerConnectionInfo { connected: false, last_activity_ms: now_ms },
                ),
                ..old(self)@
            }),
    {
        self.traditional_peers.insert(
            socket_addr,
            PeerConnectionInfo { connected: false, last_activity_ms: now_ms },
        );
    }

    /// Handle events from the discovery system.
    ///
    /// A discovered peer is stored with its addresses, and a traditional
    /// connection is attempted to each address that names a socket. An
    /// unreachable peer is forgotten. A retrieved DHT value is sorted by the
    /// topic of its key.
    pub fn handle_discovery_event(&mut self, event: DiscoveryEvent, now_ms: u64) -> (reaction:
        NodeReaction)
        requires
            old(self).wf(),
        ensures
            final(self).wf(),
            match event@ {
                DiscoveryEventView::PeerDiscovered { peer_id, addresses } => {
                    &&& final(self)@ == (NodeDiscoveryView {
                        discovered_peers: old(self)@.discovered_peers.insert(peer_id, addresses),
                        traditional_peers: attempt_all(
                            old(self)@.traditional_peers,
                            sockets_of(addresses),
                            now_ms,
                        ),
                    })
                    &&& reaction matches NodeReaction::Connect(sockets) && sockets@ == sockets_of(addresses)
                    &&& forall|i: int|
                        0 <= i < addresses.len() && #[trigger] multiaddr_socket(addresses[i]) is Some
                            ==> connect_targets(reaction).contains(multiaddr_socket(addresses[i])->0)
                            && final(self)@.traditional_peers.contains_key(multiaddr_socket(addresses[i])->0)
                            && final(self)@.traditional_peers[multiaddr_socket(addresses[i])->0] == (PeerConnectionInfo {
                            connected: false,
                            last_activity_ms: now_ms,
                        })
                },
                DiscoveryEventView::PeerUnreachable { peer_id } => {
                    &&& final(self)@ == (NodeDiscoveryView {
                        discovered_peers: old(self)@.discovered_peers.remove(peer_id),
                        ..old(self)@
                    })
                    &&& reaction is PeerForgotten
                },
                DiscoveryEventView::ValueRetrieved { key, .. } => {
                    &&& final(self)@ == old(self)@
                    &&& reaction == NodeReaction::DhtValue(dht_topic(key))
                },
                DiscoveryEventView::ValueStored { .. } => {
                    &&& final(self)@ == old(self)@
                    &&& reaction is ValueStored
                },
            },
    {
        match event {
            DiscoveryEvent::PeerDiscovered { peer_id, addresses } => {
                let ghost addrs = addrs_view(addresses@);
                let mut sockets: Vec<SocketAddress> = Vec::new();
                let mut i: usize = 0;
                while i < addresses.len()
                    invariant
                        i <= addresses.len(),
                        addrs == addrs_view(addresses@),
                        self.wf(),
                        self@.discovered_peers == old(self)@.discovered_peers,
                        sockets@ == sockets_of(addrs.take(i as int)),
                        self@.traditional_peers == attempt_all(
                            old(self)@.traditional_peers,
                            sockets@,
                            now_ms,
                        ),
                    decreases addresses.len() - i,
                {
                    assert(addrs.take(i + 1).drop_last() =~= addrs.take(i as int));
                    assert(addrs.take(i + 1).last() == addresses@[i as int]@);
                    match multiaddr_to_socket_addr(&addresses[i]) {
                        Some(socket_addr) => {
                            let ghost before = sockets@;
                            sockets.push(socket_addr);
                            self.attempt_traditional_connection(socket_addr, now_ms);
                            assert(sockets@.drop_last() =~= before);
                        },
                        None => {},
                    }
                    i = i + 1;
                }
                assert(addrs.take(i as int) =~= addrs);
                self.discovered_peers.insert(peer_id, addresses);
                assert(self@.discovered_peers =~= old(self)@.discovered_peers.insert(
                    event@->PeerDiscovered_peer_id,
                    addrs,
                ));
                proof {
                    lemma_sockets_of(addrs);
                    lemma_attempt_all(old(self)@.traditional_peers, sockets@, now_ms);
                }
                NodeReaction::Connect(sockets)
            },
            DiscoveryEvent::PeerUnreachable { peer_id } => {
                let _ = self.discovered_peers.remove(&peer_id);
                assert(self@.discovered_peers =~= old(self)@.discovered_peers.remove(peer_id@));
                NodeReaction::PeerForgotten
            },
            DiscoveryEvent::ValueRetrieved { key, .. } => {
                NodeReaction::DhtValue(dht_value_topic(&key))
            },
            DiscoveryEvent::ValueStored { .. } => NodeReaction::ValueStored,
        }
    }

    /// Get statistics about discovered peers: how many peers discovery
    /// reported, how many traditional connections were attempted, and how
    /// many of those are established.
    pub fn discovery_stats(&self) -> (stats: DiscoveryStats)
        requires
            self.wf(),
        ensures
            self@.discovered_peers.dom().finite(),
            self@.traditional_peers.dom().finite(),
            stats.discovered_peers == self@.discovered_peers.dom().len(),
            stats.traditional_peers == self@.traditional_peers.dom().len(),
            stats.connected_traditional_peers == keys_matching(
                self@.traditional_peers,
                is_connected(),
            ).len(),
    {
        let discovered = self.discovered_peers.len();
        assert(self@.discovered_peers.dom() =~= self.discovered_peers.map().dom());
        let traditional = self.traditional_peers.len();
        let infos = self.traditional_peers.values();
        let ghost pred = is_connected();
        let mut connected: usize = 0;
        let mut i: usize = 0;
        while i < infos.len()
            invariant
                i <= infos.len(),
                pred == is_connected(),
                connected == infos@.take(i as int).filter(pred).len(),
                connected <= i,
            decreases infos.len() - i,
        {
            proof {
                crate::behaviour::lemma_filter_push(infos@.take(i as int), infos@[i as int], pred);
                assert(infos@.take(i + 1) =~= infos@.take(i as int).push(infos@[i as int]));
            }
            if infos[i].connected {
                connected = connected + 1;
            }
            i = i + 1;
        }
        assert(infos@.take(i as int) =~= infos@);
        proof {
            self.traditional_peers.lemma_count_matching(pred);
        }
        DiscoveryStats {
            discovered_peers: discovered,
            traditional_peers: traditional,
            connected_traditional_peers: connected,
        }
    }
}

} // verus!
